use fsearch_core::pattern::CompileError;
use fsearch_core::pool::PatternPool;
use fsearch_core::query::ast::{Bound, CompareOp, Node};
use fsearch_core::query::matcher::{
    collect_field_from_compiled, CompiledNode, MatchMeta, QueryMatcher,
};
use fsearch_core::query::parser::Parser;
use fsearch_core::query::pattern_text::{
    build_pattern_for_literal, build_pattern_for_regex, build_pattern_for_term,
};
use fsearch_core::query::values::{compare_text, parse_number_from_bytes, range_text};

fn matcher() -> QueryMatcher {
    QueryMatcher::new(PatternPool::new())
}

fn s(x: &str) -> String {
    x.to_string()
}

fn mods(ms: &[&str]) -> Vec<String> {
    ms.iter().map(|m| m.to_string()).collect()
}

#[test]
fn pattern_texts() {
    assert_eq!(build_pattern_for_literal("a.b", &mods(&[])), "(a\\.b)");
    assert_eq!(
        build_pattern_for_literal("\\.+*?()[]{}^$|-#", &mods(&[])),
        "(\\\\\\.\\+\\*\\?\\(\\)\\[\\]\\{\\}\\^\\$\\|-#)"
    );
    assert_eq!(build_pattern_for_literal("Foo", &mods(&["ICASE"])), "(?i)(Foo)");
    assert_eq!(build_pattern_for_literal("foo", &mods(&["anchored"])), "^(foo)$");
    assert_eq!(build_pattern_for_literal("foo", &mods(&["Exact", "i"])), "^(?i)(foo)$");
    assert_eq!(build_pattern_for_literal("foo", &mods(&["Anchored", "not"])), "(foo)");
    assert_eq!(build_pattern_for_regex("a|b", &mods(&[])), "(a|b)");
    assert_eq!(build_pattern_for_regex("a|b", &mods(&["exact", "ignorecase"])), "^(?i)(a|b)$");
    assert_eq!(build_pattern_for_term("/a.b/", &mods(&[])), "(a.b)");
    assert_eq!(build_pattern_for_term("a.b", &mods(&[])), "(a\\.b)");
    assert_eq!(build_pattern_for_term("/", &mods(&[])), "(/)");
}

#[test]
fn literal_word_matches_where_the_text_contains_it() {
    let mut qm = matcher();
    let words = ["foo", "a.b", "(x)", "", "é", "a b", "^$", "x|y", "[z]"];
    let texts: [&[u8]; 8] = [
        b"this is foo",
        b"a.b",
        b"axb",
        b"call (x) now",
        b"",
        "caf\u{e9}".as_bytes(),
        b"^$ x|y [z] a b",
        b"FOO",
    ];
    for word in words {
        let compiled = qm.compile(&Node::Word(s(word))).unwrap();
        for text in texts {
            let contains = text.windows(word.len().max(1)).any(|w| w == word.as_bytes())
                || word.is_empty();
            assert_eq!(qm.is_match(&compiled, text), contains, "{:?} in {:?}", word, text);
        }
    }
}

#[test]
fn captures_of_a_regex_with_groups() {
    let mut qm = matcher();
    let compiled = qm.compile(&Node::Regex(s("(ab)([0-9]+)"))).unwrap();
    let caps = qm.captures(&compiled, b"xxab123yy");
    assert_eq!(caps, vec![(2, 7), (2, 7), (2, 4), (4, 7)]);
    for (a, b) in caps {
        assert!(a <= b && b <= 9);
    }
    assert_eq!(qm.captures(&compiled, b"nothing"), vec![]);
}

#[test]
fn extension_looks_at_the_name_only() {
    let mut qm = matcher();
    let compiled = qm.compile(&Node::Field(s("extension"), s("txt"))).unwrap();
    let combined = b"file.txt\n/some/path/file.txt";
    assert!(qm.is_match(&compiled, combined));
    assert_eq!(qm.captures(&compiled, combined), vec![(5, 8), (5, 8)]);
    assert_eq!(
        qm.captures_meta(&compiled, combined),
        vec![
            MatchMeta { field: Some(s("name")), ranges: vec![(5, 8)] },
            MatchMeta { field: Some(s("extension")), ranges: vec![] },
        ]
    );
    // the path's extension does not count
    assert!(!qm.is_match(&compiled, b"file.rs\n/some/path/file.txt"));
    // nor does a name without a dot
    assert!(!qm.is_match(&compiled, b"txt\n/some/path/a.txt"));
    assert_eq!(qm.captures(&compiled, b"txt\n/some/path/a.txt"), vec![]);
    // the last dot counts
    assert!(qm.is_match(&compiled, b"a.tar.txt\n/p"));
    assert!(!qm.is_match(&compiled, b"a.txt.gz\n/p"));
    // the text is read as bytes
    assert!(qm.is_match(&compiled, b"\xff.txt\n/p"));
    assert_eq!(qm.captures(&compiled, b"\xff.txt\n/p"), vec![(2, 5), (2, 5)]);
    // negation comes last
    let negated = qm
        .compile(&Node::Modified(
            Box::new(Node::Field(s("extension"), s("txt"))),
            mods(&["not"]),
        ))
        .unwrap();
    assert!(negated_matches(&qm, &negated, b"noext\n/p"));
    assert!(!negated_matches(&qm, &negated, b"a.txt\n/p"));
}

fn negated_matches(qm: &QueryMatcher, c: &CompiledNode, text: &[u8]) -> bool {
    qm.is_match(c, text)
}

#[test]
fn comparison_is_numeric_where_both_sides_are_numbers() {
    let mut p = Parser::new("size<1000");
    let node = p.parse().unwrap();
    assert_eq!(node, Node::Compare(s("size"), CompareOp::Smaller, s("1000")));
    let mut qm = matcher();
    let compiled = qm.compile(&node).unwrap();
    assert!(qm.is_match(&compiled, b"500"));
    assert!(!qm.is_match(&compiled, b"2000"));
    assert!(qm.is_match(&compiled, b" 999 "));
    assert!(qm.is_match(&compiled, b"-5"));
    // text that is no number compares as a string: "0abc" < "1000", "abc" > "1000"
    assert!(qm.is_match(&compiled, b"0abc"));
    assert!(!qm.is_match(&compiled, b"abc"));
    // as strings "500" is not smaller than "1000", as numbers it is
    assert!(!compare_text(CompareOp::Smaller, "1000x", b"500"));
    assert!(compare_text(CompareOp::Smaller, "1000", b"500"));
}

#[test]
fn comparison_operators() {
    assert!(compare_text(CompareOp::Eq, "10", b"010"));
    assert!(!compare_text(CompareOp::Eq, "10x", b"010x"));
    assert!(compare_text(CompareOp::Eq, "abc", b"abc"));
    assert!(compare_text(CompareOp::Contains, "23", b"12345"));
    assert!(!compare_text(CompareOp::Contains, "23", b"1243"));
    // numbers contain by their decimal text: 007 is 7 and does not contain 0
    assert!(compare_text(CompareOp::Contains, "12", b"0123"));
    assert!(!compare_text(CompareOp::Contains, "00", b"007"));
    assert!(compare_text(CompareOp::Contains, "00", b"007x"));
    assert!(compare_text(CompareOp::Contains, "b", b"abc"));
    assert!(compare_text(CompareOp::SmallerEq, "5", b"5"));
    assert!(compare_text(CompareOp::SmallerEq, "5", b"4"));
    assert!(!compare_text(CompareOp::SmallerEq, "5", b"6"));
    assert!(compare_text(CompareOp::Greater, "5", b"6"));
    assert!(!compare_text(CompareOp::Greater, "5", b"5"));
    assert!(compare_text(CompareOp::GreaterEq, "5", b"5"));
    assert!(compare_text(CompareOp::GreaterEq, "b", b"b"));
    assert!(compare_text(CompareOp::GreaterEq, "b", b"ba"));
    assert!(!compare_text(CompareOp::GreaterEq, "b", b"a"));
    assert!(compare_text(CompareOp::SmallerEq, "b", b"a"));
    assert!(compare_text(CompareOp::Greater, "a", b"b"));
    // ill-formed bytes compare as U+FFFD
    assert!(compare_text(CompareOp::Eq, "a\u{FFFD}", b"a\xff"));
    assert_eq!(parse_number_from_bytes(b"\t-12\n"), Some(-12));
    assert_eq!(parse_number_from_bytes(b"1 2"), None);
    assert_eq!(parse_number_from_bytes(b"\xff1"), None);
}

#[test]
fn ranges() {
    let inc = |x: &str| Bound::Inclusive(s(x));
    let exc = |x: &str| Bound::Exclusive(s(x));
    assert!(range_text(&inc("10"), &inc("20"), b"10"));
    assert!(range_text(&inc("10"), &inc("20"), b"20"));
    assert!(!range_text(&exc("10"), &inc("20"), b"10"));
    assert!(!range_text(&inc("10"), &exc("20"), b"20"));
    assert!(range_text(&exc("10"), &exc("20"), b"11"));
    assert!(!range_text(&inc("10"), &inc("20"), b"9"));
    assert!(range_text(&Bound::Unbounded, &inc("20"), b"-100"));
    assert!(range_text(&inc("10"), &Bound::Unbounded, b"1000"));
    assert!(range_text(&Bound::Unbounded, &Bound::Unbounded, b"anything"));
    // a bound that is no number sets no limit on a number
    assert!(range_text(&inc("x"), &inc("20"), b"5"));
    // a text that is no number compares as a string
    assert!(range_text(&inc("a"), &exc("c"), b"b"));
    assert!(range_text(&inc("a"), &exc("c"), b"a"));
    assert!(!range_text(&exc("a"), &exc("c"), b"a"));
    assert!(!range_text(&inc("a"), &exc("c"), b"c"));
    assert!(range_text(&inc("a"), &inc("c"), b"c"));
    let mut qm = matcher();
    let node = Node::Range(s("size"), inc("1"), exc("3"));
    let compiled = qm.compile(&node).unwrap();
    assert!(qm.is_match(&compiled, b"2"));
    assert!(!qm.is_match(&compiled, b"3"));
    assert_eq!(qm.captures(&compiled, b"2"), vec![]);
    assert_eq!(
        qm.captures_meta(&compiled, b"2"),
        vec![MatchMeta { field: Some(s("size")), ranges: vec![] }]
    );
}

#[test]
fn functions() {
    let mut qm = matcher();
    let contains = qm.compile(&Node::Function(s("Contains"), mods(&["bar", "zzz"]))).unwrap();
    assert!(qm.is_match(&contains, b"xxbaryy"));
    assert!(!qm.is_match(&contains, b"xxbayy"));
    assert_eq!(qm.captures(&contains, b"xxbaryy"), vec![(2, 5), (2, 5)]);
    assert_eq!(
        qm.captures_meta(&contains, b"xxbaryy"),
        vec![MatchMeta { field: None, ranges: vec![(2, 5)] }]
    );
    let exists = qm.compile(&Node::Function(s("EXISTS"), mods(&["a.c"]))).unwrap();
    assert!(qm.is_match(&exists, b"xa.cx"));
    assert!(!qm.is_match(&exists, b"xabcx"));
    let other = qm.compile(&Node::Function(s("size"), mods(&["bar"]))).unwrap();
    assert!(!qm.is_match(&other, b"bar"));
    assert_eq!(qm.captures(&other, b"bar"), vec![]);
    assert_eq!(qm.captures_meta(&other, b"bar"), vec![]);
    let none = qm.compile(&Node::Function(s("contains"), mods(&[]))).unwrap();
    assert!(!qm.is_match(&none, b"bar"));
}

#[test]
fn boolean_composition_and_metadata() {
    let mut qm = matcher();
    let node = Parser::new("name:foo AND (bar OR baz)").parse().unwrap();
    let compiled = qm.compile(&node).unwrap();
    assert!(qm.is_match(&compiled, b"foo baz"));
    assert!(!qm.is_match(&compiled, b"foo"));
    assert!(!qm.is_match(&compiled, b"bar"));
    assert_eq!(collect_field_from_compiled(&compiled), Some(s("name")));
    // the captures of both sides of a conjunction, and the first side of a disjunction that has any
    assert_eq!(qm.captures(&compiled, b"foo baz"), vec![(0, 3), (0, 3), (4, 7), (4, 7)]);
    // entries without a field inherit the first field of the tree
    assert_eq!(
        qm.captures_meta(&compiled, b"foo baz"),
        vec![
            MatchMeta { field: Some(s("name")), ranges: vec![(0, 3)] },
            MatchMeta { field: Some(s("name")), ranges: vec![(4, 7)] },
        ]
    );
    let negation = qm.compile(&Parser::new("NOT foo").parse().unwrap()).unwrap();
    assert!(qm.is_match(&negation, b"bar"));
    assert!(!qm.is_match(&negation, b"foo"));
    assert_eq!(qm.captures_meta(&negation, b"foo"), vec![]);
    assert_eq!(qm.captures(&negation, b"foo"), vec![(0, 3), (0, 3)]);
    let either = qm.compile(&Parser::new("zzz OR size<5").parse().unwrap()).unwrap();
    assert_eq!(collect_field_from_compiled(&either), Some(s("size")));
    assert_eq!(
        qm.captures_meta(&either, b"3"),
        vec![MatchMeta { field: Some(s("size")), ranges: vec![] }]
    );
}

#[test]
fn compile_errors() {
    let mut qm = matcher();
    assert_eq!(qm.compile(&Node::Regex(s("a(b"))).err(), Some(CompileError::InvalidPattern));
    assert_eq!(
        qm.compile(&Node::Field(s("name"), s("/[/"))).err(),
        Some(CompileError::InvalidPattern)
    );
    assert!(qm.compile(&Node::Field(s("name"), s("["))).is_ok());
    let bad = Node::And(Box::new(Node::Word(s("ok"))), Box::new(Node::Regex(s("["))));
    assert_eq!(qm.compile(&bad).err(), Some(CompileError::InvalidPattern));
    let modified_group = Node::Modified(
        Box::new(Node::Group(Box::new(Node::Word(s("a"))))),
        mods(&["icase"]),
    );
    assert_eq!(qm.compile(&modified_group).err(), Some(CompileError::UnsupportedModifier));
    let modified_regex = Node::Modified(Box::new(Node::Regex(s("a|b"))), mods(&["exact"]));
    let compiled = qm.compile(&modified_regex).unwrap();
    assert!(qm.is_match(&compiled, b"a"));
    assert!(qm.is_match(&compiled, b"b"));
    assert!(!qm.is_match(&compiled, b"ab"));
}

#[test]
fn compiled_queries_and_pools_can_be_shared() {
    let mut qm = matcher();
    let node = Parser::new("extension:txt AND (foo OR contains)").parse().unwrap();
    let compiled = qm.compile(&node).unwrap();
    let copy = compiled.clone();
    let text = b"foo.txt\n/d/foo.txt";
    assert!(qm.is_match(&copy, text));
    assert_eq!(qm.captures(&copy, text), qm.captures(&compiled, text));
    assert_eq!(qm.captures_meta(&copy, text), qm.captures_meta(&compiled, text));
    drop(compiled);
    assert_eq!(qm.captures(&copy, text), vec![(4, 7), (4, 7), (0, 3), (0, 3)]);

    let mut pool = PatternPool::default();
    assert_eq!(pool.idle_len(), 0);
    let p = pool.acquire_pcre2("a+").unwrap();
    pool.release(p);
    let mut twin = pool.clone();
    assert_eq!(twin.idle_len(), 1);
    let q = twin.acquire_pcre2("a+").unwrap();
    assert!(q.is_match(b"caab"));
    assert_eq!(twin.idle_len(), 0);
    assert_eq!(pool.idle_len(), 1);
}

#[test]
fn entries_of_a_disjunction_inherit_the_first_field() {
    let mut qm = matcher();
    let a = qm.compile(&Node::Word(s("foo"))).unwrap();
    let b = qm.compile(&Node::Field(s("path"), s("bar"))).unwrap();
    let c = CompiledNode::Or(Box::new(a), Box::new(b));
    assert_eq!(
        qm.captures_meta(&c, b"foo"),
        vec![MatchMeta { field: Some(s("path")), ranges: vec![(0, 3)] }]
    );
    assert_eq!(
        qm.captures_meta(&c, b"a bar"),
        vec![MatchMeta { field: Some(s("path")), ranges: vec![(2, 5)] }]
    );
    assert_eq!(qm.captures_meta(&c, b"neither"), vec![]);
    // without a field in the subtree the entries stay without one
    let plain = qm.compile(&Parser::new("foo OR bar").parse().unwrap()).unwrap();
    assert_eq!(
        qm.captures_meta(&plain, b"foo"),
        vec![MatchMeta { field: None, ranges: vec![(0, 3)] }]
    );
    // an entry with a field of its own keeps it
    let own = qm.compile(&Parser::new("name:foo OR path:bar").parse().unwrap()).unwrap();
    assert_eq!(
        qm.captures_meta(&own, b"a bar"),
        vec![MatchMeta { field: Some(s("path")), ranges: vec![(2, 5)] }]
    );
}

#[test]
fn a_function_captures_with_the_pattern_of_its_first_argument_only() {
    let mut qm = matcher();
    let mut pool = PatternPool::new();
    let stray = CompiledNode::Function {
        name: s("contains"),
        args: vec![],
        pat: Some(pool.acquire_pcre2("(bar)").unwrap()),
    };
    assert_eq!(qm.captures(&stray, b"xxbaryy"), vec![]);
    assert_eq!(qm.captures_meta(&stray, b"xxbaryy"), vec![]);
    let other = CompiledNode::Function {
        name: s("contains"),
        args: mods(&["foo"]),
        pat: Some(pool.acquire_pcre2("(bar)").unwrap()),
    };
    assert_eq!(qm.captures(&other, b"xxbaryy foo"), vec![]);
    let own = CompiledNode::Function {
        name: s("contains"),
        args: mods(&["bar"]),
        pat: Some(pool.acquire_pcre2("(bar)").unwrap()),
    };
    assert_eq!(qm.captures(&own, b"xxbaryy"), vec![(2, 5), (2, 5)]);
    let compiled = qm.compile(&Node::Function(s("contains"), mods(&["bar"]))).unwrap();
    assert_eq!(qm.captures(&compiled, b"xxbaryy"), vec![(2, 5), (2, 5)]);
}

#[test]
fn a_leaf_captures_exactly_where_it_matches() {
    let mut qm = matcher();
    let nodes = [
        Node::Word(s("foo")),
        Node::Regex(s("b+(a)?r")),
        Node::Field(s("extension"), s("txt")),
        Node::Field(s("name"), s("/^f/")),
        Node::Modified(Box::new(Node::Word(s("FOO"))), mods(&["icase"])),
    ];
    let texts: [&[u8]; 6] =
        [b"foo.txt\n/d/foo.txt", b"bar", b"bbr foo", b"", b"a.TXT\n/x.txt", b"xfoo"];
    for node in nodes.iter() {
        let compiled = qm.compile(node).unwrap();
        for text in texts {
            let caps = qm.captures(&compiled, text);
            assert_eq!(!caps.is_empty(), qm.is_match(&compiled, text), "{:?} on {:?}", node, text);
            for (a, b) in caps {
                assert!(a <= b && b <= text.len());
            }
        }
    }
    // a negated leaf still captures where its pattern is found
    let negated =
        qm.compile(&Node::Modified(Box::new(Node::Word(s("foo"))), mods(&["not"]))).unwrap();
    assert!(!qm.is_match(&negated, b"a foo"));
    assert_eq!(qm.captures(&negated, b"a foo"), vec![(2, 5), (2, 5)]);
    assert!(qm.is_match(&negated, b"bar"));
    assert_eq!(qm.captures(&negated, b"bar"), vec![]);
}
