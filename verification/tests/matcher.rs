use fsearch_core::pattern::{CompiledPattern, Engine};
use fsearch_core::pool::PatternPool;
use fsearch_core::query::ast::{CompareOp, Node};
use fsearch_core::query::matcher::{CompiledNode, QueryMatcher};

#[test]
fn matcher_word_literal() {
    let pool = PatternPool::new();
    let mut qm = QueryMatcher::new(pool);
    let node = Node::Word("foo".to_string());
    let compiled = qm.compile(&node).unwrap();
    assert!(qm.is_match(&compiled, b"this is foo"));
    assert!(!qm.is_match(&compiled, b"nope"));
}

#[test]
fn matcher_regex() {
    let pool = PatternPool::new();
    let mut qm = QueryMatcher::new(pool);
    let node = Node::Regex("ab[0-9]+".to_string());
    let compiled = qm.compile(&node).unwrap();
    assert!(qm.is_match(&compiled, b"xxab123yy"));
    let caps = qm.captures(&compiled, b"xxab123yy");
    assert!(caps.len() >= 1);
}

#[test]
fn matcher_icase_and_not() {
    let pool = PatternPool::new();
    let mut qm = QueryMatcher::new(pool);
    let node = Node::Modified(Box::new(Node::Word("Foo".to_string())), vec!["icase".to_string()]);
    let compiled = qm.compile(&node).unwrap();
    assert!(qm.is_match(&compiled, b"this is foo"));
    let node2 = Node::Modified(Box::new(Node::Word("bar".to_string())), vec!["not".to_string()]);
    let compiled2 = qm.compile(&node2).unwrap();
    assert!(!qm.is_match(&compiled2, b"contains bar"));
    assert!(qm.is_match(&compiled2, b"no match here"));
}

#[test]
fn captures_meta_examples() {
    let pool = PatternPool::new();
    let mut qm = QueryMatcher::new(pool);

    let mut pool2 = PatternPool::new();
    let pat = pool2.acquire_pcre2("foo").unwrap();
    let comp = CompiledNode::Leaf { pat, negated: false, field: None, mods: vec![] };
    let metas = qm.captures_meta(&comp, b"this is foo");
    if !metas.is_empty() {
        assert_eq!(metas.len(), 1);
        assert_eq!(metas[0].field, None);
        assert!(!metas[0].ranges.is_empty());
        let (s, e) = metas[0].ranges[0];
        assert_eq!(&b"this is foo"[s..e], b"foo");
    }

    let mut pool3 = PatternPool::new();
    let pat2 = pool3.acquire_pcre2("txt").unwrap();
    let comp_ext = CompiledNode::Leaf {
        pat: pat2,
        negated: false,
        field: Some("extension".to_string()),
        mods: vec![],
    };
    let metas_ext = qm.captures_meta(&comp_ext, b"file.txt\n/some/path/file.txt");
    assert_eq!(metas_ext.len(), 2);
    assert_eq!(metas_ext[0].field, Some("name".to_string()));
    assert!(!metas_ext[0].ranges.is_empty());
    assert_eq!(metas_ext[1].field, Some("extension".to_string()));
    assert!(metas_ext[1].ranges.is_empty());

    let node2 = Node::Compare("size".to_string(), CompareOp::Eq, "100".to_string());
    let comp2 = qm.compile(&node2).unwrap();
    let metas2 = qm.captures_meta(&comp2, b"100");
    assert_eq!(metas2.len(), 1);
    assert_eq!(metas2[0].field, Some("size".to_string()));
    assert!(metas2[0].ranges.is_empty());

    let node3 = Node::Function("contains".to_string(), vec!["bar".to_string()]);
    let comp3 = qm.compile(&node3).unwrap();
    let metas3 = qm.captures_meta(&comp3, b"xxbaryy");
    if !metas3.is_empty() {
        assert_eq!(metas3.len(), 1);
        assert!(!metas3[0].ranges.is_empty());
        let (sa, ea) = metas3[0].ranges[0];
        assert_eq!(&b"xxbaryy"[sa..ea], b"bar");
    }
    assert_eq!(metas3.len(), 1);
    assert_eq!(metas3[0].ranges, vec![(2, 5)]);
}

#[test]
fn matcher_anchored_literal() {
    let pool = PatternPool::new();
    let mut qm = QueryMatcher::new(pool);
    let node = Node::Modified(Box::new(Node::Word("foo".to_string())), vec!["anchored".to_string()]);
    let compiled = qm.compile(&node).unwrap();
    assert!(qm.is_match(&compiled, b"foo"));
    assert!(!qm.is_match(&compiled, b"this is foo"));
    assert!(!qm.is_match(&compiled, b"foobar"));
}

#[test]
fn matcher_group_captures() {
    let pool = PatternPool::new();
    let mut qm = QueryMatcher::new(pool);
    let node = Node::Regex("(ab)([0-9]+)".to_string());
    let compiled = qm.compile(&node).unwrap();
    assert!(qm.is_match(&compiled, b"xxab123yy"));
    let caps = qm.captures(&compiled, b"xxab123yy");
    assert!(caps.len() >= 1);
    let mut found = false;
    for (s, e) in caps.iter() {
        if &b"xxab123yy"[*s..*e] == b"ab123" {
            found = true;
        }
    }
    assert!(found);
}

#[test]
fn matcher_field_extension() {
    let pool = PatternPool::new();
    let mut qm = QueryMatcher::new(pool);
    let node = Node::Field("extension".to_string(), "txt".to_string());
    let compiled = qm.compile(&node).unwrap();
    let combined = b"file.txt\n/some/path/file.txt";
    assert!(qm.is_match(&compiled, combined));
    let caps = qm.captures(&compiled, combined);
    assert!(!caps.is_empty());
    let (s, e) = caps[0];
    let name = "file.txt";
    let dot = name.rfind('.').unwrap();
    let expected_s = dot + 1;
    let expected_e = name.len();
    assert_eq!((s, e), (expected_s, expected_e));
    assert_eq!((s, e), (5, 8));
}

#[test]
fn pool_acquire_release() {
    let mut pool = PatternPool::new();
    let p = pool.acquire(Engine::Regex, "foo").unwrap();
    assert!(p.is_match(b"this is foo"));
    pool.release(p);
    assert_eq!(pool.idle_len(), 1);
    let p2 = pool.acquire(Engine::Regex, "foo").unwrap();
    assert!(p2.is_match(b"foo bar"));
    assert_eq!(pool.idle_len(), 0);
}
