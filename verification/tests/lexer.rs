use fsearch_core::query::lexer::{Lexer, Token};

#[test]
fn lexer_basic_tokens() {
    let mut lx = Lexer::new("name:foo AND bar OR (baz)");
    let (t1, _) = lx.next_token();
    assert_eq!(t1, Token::Field("name".into()));
    let (t2, _) = lx.next_token();
    assert_eq!(t2, Token::Word("foo".into()));
    let (t3, _) = lx.next_token();
    assert_eq!(t3, Token::And);
    let (t4, _) = lx.next_token();
    assert_eq!(t4, Token::Word("bar".into()));
    let (t5, _) = lx.next_token();
    assert_eq!(t5, Token::Or);
    let (t6, _) = lx.next_token();
    assert_eq!(t6, Token::BracketOpen);
    let (t7, _) = lx.next_token();
    assert_eq!(t7, Token::Word("baz".into()));
    let (t8, _) = lx.next_token();
    assert_eq!(t8, Token::BracketClose);
}

#[test]
fn lexer_tokens_for_compare() {
    let mut lx = Lexer::new("size<1000");
    let (t1, s1) = lx.next_token();
    assert_eq!(t1, Token::Word(s1.clone().unwrap()));
    let (t2, _) = lx.next_token();
    assert_eq!(t2, Token::Smaller);
    let (t3, s3) = lx.next_token();
    assert_eq!(t3, Token::Word(s3.clone().unwrap()));
    assert_eq!(s1.unwrap(), "size");
    assert_eq!(s3.unwrap(), "1000");
}
