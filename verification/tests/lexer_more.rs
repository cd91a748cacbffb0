use fsearch_core::query::lexer::{Lexer, Token};

fn tokens(input: &str) -> Vec<Token> {
    let mut lx = Lexer::new(input);
    let mut out = Vec::new();
    loop {
        let (t, text) = lx.next_token();
        match &t {
            Token::Word(s) | Token::Field(s) | Token::FieldEmpty(s) => {
                assert_eq!(text.as_ref(), Some(s))
            }
            _ => assert_eq!(text, None),
        }
        if t == Token::Eos {
            break;
        }
        out.push(t);
    }
    out
}

fn word(s: &str) -> Token {
    Token::Word(s.to_string())
}

#[test]
fn operators_and_brackets() {
    assert_eq!(
        tokens("= : < <= > >= ! ( )"),
        vec![
            Token::Equal,
            Token::Contains,
            Token::Smaller,
            Token::SmallerEq,
            Token::Greater,
            Token::GreaterEq,
            Token::Not,
            Token::BracketOpen,
            Token::BracketClose,
        ]
    );
}

#[test]
fn comparison_keeps_the_character_behind_the_operator() {
    assert_eq!(tokens("size<1000"), vec![word("size"), Token::Smaller, word("1000")]);
    assert_eq!(tokens("size>=1000"), vec![word("size"), Token::GreaterEq, word("1000")]);
    assert_eq!(tokens("a>b"), vec![word("a"), Token::Greater, word("b")]);
    assert_eq!(tokens("a<"), vec![word("a"), Token::Smaller]);
    assert_eq!(tokens("a=b"), vec![word("a"), Token::Equal, word("b")]);
}

#[test]
fn connectives_are_case_sensitive() {
    assert_eq!(
        tokens("a AND b && c OR d || e NOT f"),
        vec![
            word("a"),
            Token::And,
            word("b"),
            Token::And,
            word("c"),
            Token::Or,
            word("d"),
            Token::Or,
            word("e"),
            Token::Not,
            word("f"),
        ]
    );
    assert_eq!(tokens("and or not Not"), vec![word("and"), word("or"), word("not"), word("Not")]);
}

#[test]
fn quoted_and_escaped_words() {
    assert_eq!(tokens("\"a b:c\\\" x"), vec![word("a b:c\\"), word("x")]);
    assert_eq!(tokens("\"unterminated"), vec![word("unterminated")]);
    assert_eq!(tokens("\"\""), vec![word("")]);
    assert_eq!(tokens("\\( \\\\"), vec![word("("), word("\\")]);
    assert_eq!(tokens("a\\"), vec![word("a")]);
    assert_eq!(tokens("\"AND\""), vec![word("AND")]);
}

#[test]
fn fields() {
    assert_eq!(tokens("name:foo"), vec![Token::Field("name".to_string()), word("foo")]);
    assert_eq!(tokens("name: foo"), vec![Token::FieldEmpty("name".to_string()), word("foo")]);
    assert_eq!(tokens("name:"), vec![Token::FieldEmpty("name".to_string())]);
    assert_eq!(
        tokens("name:\"a b\""),
        vec![Token::Field("name".to_string()), word("a b")]
    );
    assert_eq!(tokens("a!b"), vec![word("a!b")]);
    assert_eq!(tokens("\u{e9}t\u{e9}:x"), vec![Token::Field("\u{e9}t\u{e9}".to_string()), word("x")]);
}

#[test]
fn end_of_input_is_idempotent() {
    let mut lx = Lexer::new("  a  ");
    assert_eq!(lx.next_token().0, word("a"));
    for _ in 0..5 {
        assert_eq!(lx.next_token(), (Token::Eos, None));
    }
    let mut empty = Lexer::new("");
    assert_eq!(empty.next_token(), (Token::Eos, None));
    assert_eq!(empty.peek_token(), (Token::Eos, None));
}

#[test]
fn peek_does_not_consume() {
    let mut lx = Lexer::new("size<1000 x");
    assert_eq!(lx.peek_token().0, word("size"));
    assert_eq!(lx.peek_token().0, word("size"));
    assert_eq!(lx.next_token().0, word("size"));
    assert_eq!(lx.peek_token().0, Token::Smaller);
    assert_eq!(lx.next_token().0, Token::Smaller);
    assert_eq!(lx.peek_token().0, word("1000"));
    assert_eq!(lx.next_token().0, word("1000"));
    assert_eq!(lx.next_token().0, word("x"));
    assert_eq!(lx.peek_token().0, Token::Eos);
}

#[test]
fn nul_ends_a_token_stream_once() {
    let mut lx = Lexer::new("\0a");
    assert_eq!(lx.next_token().0, Token::Eos);
    assert_eq!(lx.next_token().0, word("a"));
    assert_eq!(lx.next_token().0, Token::Eos);
}
