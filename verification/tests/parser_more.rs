use fsearch_core::query::ast::{Bound, CompareOp, Node};
use fsearch_core::query::parser::Parser;

fn parse(input: &str) -> Option<Node> {
    Parser::new(input).parse()
}

fn w(s: &str) -> Node {
    Node::Word(s.to_string())
}

fn and(a: Node, b: Node) -> Node {
    Node::And(Box::new(a), Box::new(b))
}

fn or(a: Node, b: Node) -> Node {
    Node::Or(Box::new(a), Box::new(b))
}

fn not(a: Node) -> Node {
    Node::Not(Box::new(a))
}

#[test]
fn not_binds_tighter_than_and_and_and_tighter_than_or() {
    assert_eq!(parse("a OR b AND c"), Some(or(w("a"), and(w("b"), w("c")))));
    assert_eq!(parse("a AND b OR c"), Some(or(and(w("a"), w("b")), w("c"))));
    assert_eq!(parse("NOT a AND b"), Some(and(not(w("a")), w("b"))));
    assert_eq!(parse("!a OR !!b"), Some(or(not(w("a")), not(not(w("b"))))));
    assert_eq!(parse("a AND b AND c"), Some(and(and(w("a"), w("b")), w("c"))));
    assert_eq!(parse("a OR b OR c"), Some(or(or(w("a"), w("b")), w("c"))));
}

#[test]
fn groups_fields_and_comparisons() {
    assert_eq!(
        parse("(a OR b) AND c"),
        Some(and(Node::Group(Box::new(or(w("a"), w("b")))), w("c")))
    );
    assert_eq!(parse("name:foo"), Some(Node::Field("name".to_string(), "foo".to_string())));
    assert_eq!(parse("name:"), Some(Node::Field("name".to_string(), String::new())));
    assert_eq!(parse("name: foo"), Some(Node::Field("name".to_string(), String::new())));
    let ops = [
        ("<", CompareOp::Smaller),
        ("<=", CompareOp::SmallerEq),
        (">", CompareOp::Greater),
        (">=", CompareOp::GreaterEq),
        ("=", CompareOp::Eq),
    ];
    for (text, op) in ops {
        assert_eq!(
            parse(&format!("size{}10", text)),
            Some(Node::Compare("size".to_string(), op, "10".to_string()))
        );
        assert_eq!(
            parse(&format!("size {} 10", text)),
            Some(Node::Compare("size".to_string(), op, "10".to_string()))
        );
    }
    assert_eq!(
        parse("\"my size\" : 10"),
        Some(Node::Compare("my size".to_string(), CompareOp::Contains, "10".to_string()))
    );
}

#[test]
fn regex_literals() {
    assert_eq!(parse("/ab[0-9]+/"), Some(Node::Regex("ab[0-9]+".to_string())));
    assert_eq!(parse("//"), Some(Node::Regex(String::new())));
    assert_eq!(parse("/"), Some(w("/")));
    assert_eq!(parse("/a"), Some(w("/a")));
}

#[test]
fn malformed_queries_do_not_parse() {
    assert_eq!(parse(""), None);
    assert_eq!(parse(")"), None);
    assert_eq!(parse("(a"), None);
    assert_eq!(parse("(a OR"), None);
    assert_eq!(parse("a AND"), None);
    assert_eq!(parse("a OR )"), None);
    assert_eq!(parse("NOT"), None);
    assert_eq!(parse("size<"), None);
    assert_eq!(parse("size<("), None);
    assert_eq!(parse("name:(a)"), None);
    assert_eq!(parse("= a"), None);
}

#[test]
fn what_follows_an_expression_is_left_unread() {
    assert_eq!(parse("a b"), Some(w("a")));
    assert_eq!(parse("a )"), Some(w("a")));
}

#[test]
fn nodes_clone_and_compare() {
    let n = Node::Modified(
        Box::new(Node::Range(
            "size".to_string(),
            Bound::Inclusive("1".to_string()),
            Bound::Unbounded,
        )),
        vec!["icase".to_string()],
    );
    assert_eq!(n.clone(), n);
    let f = Node::Function("contains".to_string(), vec!["a".to_string(), "b".to_string()]);
    assert_eq!(f.clone(), f);
    assert_ne!(f, n);
    assert_eq!(Bound::Exclusive("2".to_string()).clone(), Bound::Exclusive("2".to_string()));
}
