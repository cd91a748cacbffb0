use fsearch_core::query::ast::{CompareOp, Node};
use fsearch_core::query::parser::Parser;

fn check_basic_expression(ast: Option<Node>) {
    assert!(ast.is_some());
    match ast.unwrap() {
        Node::And(left, right) => {
            match *left {
                Node::Field(ref n, ref v) => {
                    assert_eq!(n, "name");
                    assert_eq!(v, "foo");
                }
                _ => panic!("left not field"),
            }
            match *right {
                Node::Group(boxed) => match *boxed {
                    Node::Or(a, b) => {
                        match *a {
                            Node::Word(ref w) => assert_eq!(w, "bar"),
                            _ => panic!("expected bar"),
                        }
                        match *b {
                            Node::Word(ref w) => assert_eq!(w, "baz"),
                            _ => panic!("expected baz"),
                        }
                    }
                    _ => panic!("expected OR inside group"),
                },
                _ => panic!("right not group"),
            }
        }
        _ => panic!("expected AND at top"),
    }
}

#[test]
fn parser_parse_basic_expression() {
    let mut p = Parser::new("name:foo AND (bar OR baz)");
    let ast = p.parse();
    check_basic_expression(ast);
}

#[test]
fn parser2_parse_basic_expression() {
    let mut p = Parser::new("name:foo AND (bar OR baz)");
    let ast = p.parse();
    check_basic_expression(ast);
}

#[test]
fn parse_compare_without_colon() {
    let mut p = Parser::new("size<1000");
    let ast = p.parse();
    assert!(ast.is_some());
    match ast.unwrap() {
        Node::Compare(ref field, ref op, ref val) => {
            assert_eq!(field, "size");
            assert_eq!(val, "1000");
            assert_eq!(*op, CompareOp::Smaller);
        }
        _ => panic!("expected Compare node"),
    }
}

#[test]
fn parse_regex_literal() {
    let mut p = Parser::new("/ab[0-9]+/");
    let ast = p.parse();
    assert!(ast.is_some());
    match ast.unwrap() {
        Node::Regex(pat) => assert_eq!(pat, "ab[0-9]+"),
        _ => panic!("expected regex node"),
    }
}
