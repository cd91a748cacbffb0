//! Recursive-descent parser for the query language.
//!
//! ```text
//! expr    := or
//! or      := and (OR and)*
//! and     := unary (AND unary)*
//! unary   := NOT unary | primary
//! primary := '(' expr ')' | Field Word | FieldEmpty
//!          | Word compare-op Word | '/regex/' | Word
//! ```
//!
//! The parser keeps one token of lookahead. What it yields from a state is
//! given by [`parse_or`], a function of the input, the lookahead token and the
//! position behind it.

use crate::query::ast::{CompareOp, Node, NodeModel};
use crate::query::lexer::{lemma_lex_advances, lex, Lexer, Token, TokenModel};
use crate::text::{chars_of, string_of};
use vstd::prelude::*;

verus! {

/// What a [`Parser`] stands for: the input, the token it looks at, and the
/// position of the lexer behind that token.
pub struct ParserState {
    pub input: Seq<char>,
    pub cur: TokenModel,
    pub pos: int,
}

/// The state after the lookahead token has been taken.
pub open spec fn advance(p: ParserState) -> ParserState {
    ParserState { input: p.input, cur: lex(p.input, p.pos).0, pos: lex(p.input, p.pos).1 }
}

/// The state in which parsing of `input` starts.
pub open spec fn initial_state(input: Seq<char>) -> ParserState {
    advance(ParserState { input, cur: TokenModel::Eos, pos: 0 })
}

/// How much is left to read: the characters behind the lookahead token, and
/// one more while that token is not `Eos`.
pub open spec fn remaining(p: ParserState) -> nat {
    let ahead: nat = if p.cur is Eos {
        0
    } else {
        1
    };
    if 0 <= p.pos <= p.input.len() {
        (p.input.len() - p.pos + ahead) as nat
    } else {
        ahead
    }
}

/// The comparison operator that a token stands for.
pub open spec fn compare_op(t: TokenModel) -> Option<CompareOp> {
    match t {
        TokenModel::Smaller => Some(CompareOp::Smaller),
        TokenModel::SmallerEq => Some(CompareOp::SmallerEq),
        TokenModel::Greater => Some(CompareOp::Greater),
        TokenModel::GreaterEq => Some(CompareOp::GreaterEq),
        TokenModel::Equal => Some(CompareOp::Eq),
        TokenModel::Contains => Some(CompareOp::Contains),
        _ => None,
    }
}

/// A word of the form `/.../`.
pub open spec fn is_regex_literal(w: Seq<char>) -> bool {
    w.len() >= 2 && w[0] == '/' && w[w.len() - 1] == '/'
}

/// The node for a bare word that no comparison operator follows.
pub open spec fn word_node(w: Seq<char>) -> NodeModel {
    if is_regex_literal(w) {
        NodeModel::Regex(w.subrange(1, w.len() - 1))
    } else {
        NodeModel::Word(w)
    }
}

/// Taking a token that is not `Eos` leaves less to read.
pub proof fn lemma_advance_decreases(p: ParserState)
    requires
        !(p.cur is Eos),
    ensures
        remaining(advance(p)) < remaining(p),
{
    if 0 <= p.pos <= p.input.len() {
        lemma_lex_advances(p.input, p.pos);
    }
}

/// Taking any token leaves no more to read than before.
pub proof fn lemma_advance_non_increasing(p: ParserState)
    ensures
        remaining(advance(p)) <= remaining(p),
{
    if 0 <= p.pos <= p.input.len() {
        lemma_lex_advances(p.input, p.pos);
    }
}

/// `primary`: a group, a field term, a comparison, a regex literal or a word.
/// A group needs its closing bracket, a field its word, and a comparison
/// operator a word behind it; without them there is no parse.
pub open spec fn parse_primary(p: ParserState) -> (Option<NodeModel>, ParserState)
    decreases remaining(p), 0nat,
{
    match p.cur {
        TokenModel::BracketOpen => {
            proof {
                lemma_advance_decreases(p);
            }
            let (inner, p2) = parse_or(advance(p));
            match inner {
                Some(n) => if p2.cur is BracketClose {
                    (Some(NodeModel::Group(Box::new(n))), advance(p2))
                } else {
                    (None, p2)
                },
                None => (None, p2),
            }
        },
        TokenModel::Field(name) => {
            let p1 = advance(p);
            match p1.cur {
                TokenModel::Word(w) => (Some(NodeModel::Field(name, w)), advance(p1)),
                _ => (None, p1),
            }
        },
        TokenModel::FieldEmpty(name) => (
            Some(NodeModel::Field(name, Seq::<char>::empty())),
            advance(p),
        ),
        TokenModel::Word(name) => {
            let p1 = advance(p);
            match compare_op(p1.cur) {
                Some(op) => {
                    let p2 = advance(p1);
                    match p2.cur {
                        TokenModel::Word(v) => (Some(NodeModel::Compare(name, op, v)), advance(p2)),
                        _ => (None, p2),
                    }
                },
                None => (Some(word_node(name)), p1),
            }
        },
        _ => (None, p),
    }
}

/// `unary`: any number of `NOT`, then a primary.
pub open spec fn parse_unary(p: ParserState) -> (Option<NodeModel>, ParserState)
    decreases remaining(p), 1nat,
{
    if p.cur is Not {
        proof {
            lemma_advance_decreases(p);
        }
        let (inner, p2) = parse_unary(advance(p));
        match inner {
            Some(n) => (Some(NodeModel::Not(Box::new(n))), p2),
            None => (None, p2),
        }
    } else {
        parse_primary(p)
    }
}

/// The rest of a conjunction whose operands so far make up `left`. Each
/// operand takes at least its connective, so less is left to read behind it;
/// the test on `remaining` says so for the sake of termination.
pub open spec fn parse_and_rest(left: NodeModel, p: ParserState) -> (Option<NodeModel>, ParserState)
    decreases remaining(p), 2nat,
{
    if p.cur is And {
        proof {
            lemma_advance_decreases(p);
        }
        let (right, p2) = parse_unary(advance(p));
        match right {
            Some(r) if remaining(p2) < remaining(p) => parse_and_rest(
                NodeModel::And(Box::new(left), Box::new(r)),
                p2,
            ),
            _ => (None, p2),
        }
    } else {
        (Some(left), p)
    }
}

/// `and`: unaries joined by `AND`, grouped to the left.
pub open spec fn parse_and(p: ParserState) -> (Option<NodeModel>, ParserState)
    decreases remaining(p), 3nat,
{
    let (first, p1) = parse_unary(p);
    match first {
        Some(n) if remaining(p1) <= remaining(p) => parse_and_rest(n, p1),
        _ => (None, p1),
    }
}

/// The rest of a disjunction whose operands so far make up `left`.
pub open spec fn parse_or_rest(left: NodeModel, p: ParserState) -> (Option<NodeModel>, ParserState)
    decreases remaining(p), 4nat,
{
    if p.cur is Or {
        proof {
            lemma_advance_decreases(p);
        }
        let (right, p2) = parse_and(advance(p));
        match right {
            Some(r) if remaining(p2) < remaining(p) => parse_or_rest(
                NodeModel::Or(Box::new(left), Box::new(r)),
                p2,
            ),
            _ => (None, p2),
        }
    } else {
        (Some(left), p)
    }
}

/// `or`: conjunctions joined by `OR`, grouped to the left. This is the whole
/// grammar: the syntax tree of the longest expression that starts at `p`, and
/// the state behind it.
pub open spec fn parse_or(p: ParserState) -> (Option<NodeModel>, ParserState)
    decreases remaining(p), 5nat,
{
    let (first, p1) = parse_and(p);
    match first {
        Some(n) if remaining(p1) <= remaining(p) => parse_or_rest(n, p1),
        _ => (None, p1),
    }
}

/// The syntax tree of a query string, where it has one.
pub open spec fn parse_query(input: Seq<char>) -> Option<NodeModel> {
    parse_or(initial_state(input)).0
}

proof fn lemma_parse_primary_progress(p: ParserState)
    ensures
        remaining(parse_primary(p).1) <= remaining(p),
        parse_primary(p).1.input == p.input,
    decreases remaining(p), 0nat,
{
    match p.cur {
        TokenModel::BracketOpen => {
            lemma_advance_decreases(p);
            lemma_parse_or_progress(advance(p));
            lemma_advance_non_increasing(parse_or(advance(p)).1);
        },
        TokenModel::Field(name) => {
            lemma_advance_non_increasing(p);
            lemma_advance_non_increasing(advance(p));
        },
        TokenModel::FieldEmpty(name) => {
            lemma_advance_non_increasing(p);
        },
        TokenModel::Word(name) => {
            lemma_advance_non_increasing(p);
            lemma_advance_non_increasing(advance(p));
            lemma_advance_non_increasing(advance(advance(p)));
        },
        _ => {},
    }
}

proof fn lemma_parse_unary_progress(p: ParserState)
    ensures
        remaining(parse_unary(p).1) <= remaining(p),
        parse_unary(p).1.input == p.input,
    decreases remaining(p), 1nat,
{
    if p.cur is Not {
        lemma_advance_decreases(p);
        lemma_parse_unary_progress(advance(p));
    } else {
        lemma_parse_primary_progress(p);
    }
}

proof fn lemma_parse_and_rest_progress(left: NodeModel, p: ParserState)
    ensures
        remaining(parse_and_rest(left, p).1) <= remaining(p),
        parse_and_rest(left, p).1.input == p.input,
    decreases remaining(p), 2nat,
{
    if p.cur is And {
        lemma_advance_decreases(p);
        lemma_parse_unary_progress(advance(p));
        let (right, p2) = parse_unary(advance(p));
        match right {
            Some(r) => {
                lemma_parse_and_rest_progress(NodeModel::And(Box::new(left), Box::new(r)), p2);
            },
            None => {},
        }
    }
}

proof fn lemma_parse_and_progress(p: ParserState)
    ensures
        remaining(parse_and(p).1) <= remaining(p),
        parse_and(p).1.input == p.input,
    decreases remaining(p), 3nat,
{
    lemma_parse_unary_progress(p);
    let (first, p1) = parse_unary(p);
    match first {
        Some(n) => {
            lemma_parse_and_rest_progress(n, p1);
        },
        None => {},
    }
}

proof fn lemma_parse_or_rest_progress(left: NodeModel, p: ParserState)
    ensures
        remaining(parse_or_rest(left, p).1) <= remaining(p),
        parse_or_rest(left, p).1.input == p.input,
    decreases remaining(p), 4nat,
{
    if p.cur is Or {
        lemma_advance_decreases(p);
        lemma_parse_and_progress(advance(p));
        let (right, p2) = parse_and(advance(p));
        match right {
            Some(r) => {
                lemma_parse_or_rest_progress(NodeModel::Or(Box::new(left), Box::new(r)), p2);
            },
            None => {},
        }
    }
}

/// Parsing reads forward only: no more is left behind a parse than before
/// it, on the same input.
pub proof fn lemma_parse_or_progress(p: ParserState)
    ensures
        remaining(parse_or(p).1) <= remaining(p),
        parse_or(p).1.input == p.input,
    decreases remaining(p), 5nat,
{
    lemma_parse_and_progress(p);
    let (first, p1) = parse_and(p);
    match first {
        Some(n) => {
            lemma_parse_or_rest_progress(n, p1);
        },
        None => {},
    }
}

/// The value of an optional syntax tree.
pub open spec fn parsed(r: Option<Node>) -> Option<NodeModel> {
    match r {
        Some(n) => Some(n@),
        None => None,
    }
}

/// A parser over one query string.
pub struct Parser {
    lexer: Lexer,
    cur: Token,
}

impl View for Parser {
    type V = ParserState;

    closed spec fn view(&self) -> ParserState {
        ParserState { input: self.lexer@.input, cur: self.cur@, pos: self.lexer@.pos }
    }
}

impl Parser {
    /// A parser that looks at the first token of `input`.
    pub fn new(input: &str) -> (r: Parser)
        ensures
            r@ == initial_state(input@),
    {
        let mut lx = Lexer::new(input);
        let (tok, _text) = lx.next_token();
        Parser { lexer: lx, cur: tok }
    }

    fn advance(&mut self)
        ensures
            final(self)@ == advance(old(self)@),
    {
        let (tok, _text) = self.lexer.next_token();
        self.cur = tok;
    }

    /// Parses one expression. Yields its syntax tree, or `None` where the
    /// input does not start with an expression of the grammar.
    pub fn parse(&mut self) -> (r: Option<Node>)
        ensures
            (parsed(r), final(self)@) == parse_or(old(self)@),
    {
        self.parse_or()
    }

    fn parse_or(&mut self) -> (r: Option<Node>)
        ensures
            (parsed(r), final(self)@) == parse_or(old(self)@),
        decreases remaining(old(self)@), 5nat,
    {
        let ghost start = self@;
        proof {
            lemma_parse_and_progress(start);
        }
        let mut node = match self.parse_and() {
            Some(n) => n,
            None => {
                return None;
            },
        };
        loop
            invariant
                parse_or_rest(node@, self@) == parse_or(start),
                remaining(self@) <= remaining(start),
                start == old(self)@,
            decreases remaining(self@),
        {
            match self.cur {
                Token::Or => {},
                _ => {
                    return Some(node);
                },
            }
            let ghost before = self@;
            proof {
                lemma_advance_decreases(before);
                lemma_parse_and_progress(advance(before));
            }
            self.advance();
            let right = match self.parse_and() {
                Some(n) => n,
                None => {
                    return None;
                },
            };
            node = Node::Or(Box::new(node), Box::new(right));
        }
    }

    fn parse_and(&mut self) -> (r: Option<Node>)
        ensures
            (parsed(r), final(self)@) == parse_and(old(self)@),
        decreases remaining(old(self)@), 3nat,
    {
        let ghost start = self@;
        proof {
            lemma_parse_unary_progress(start);
        }
        let mut node = match self.parse_unary() {
            Some(n) => n,
            None => {
                return None;
            },
        };
        loop
            invariant
                parse_and_rest(node@, self@) == parse_and(start),
                remaining(self@) <= remaining(start),
                start == old(self)@,
            decreases remaining(self@),
        {
            match self.cur {
                Token::And => {},
                _ => {
                    return Some(node);
                },
            }
            let ghost before = self@;
            proof {
                lemma_advance_decreases(before);
                lemma_parse_unary_progress(advance(before));
            }
            self.advance();
            let right = match self.parse_unary() {
                Some(n) => n,
                None => {
                    return None;
                },
            };
            node = Node::And(Box::new(node), Box::new(right));
        }
    }

    fn parse_unary(&mut self) -> (r: Option<Node>)
        ensures
            (parsed(r), final(self)@) == parse_unary(old(self)@),
        decreases remaining(old(self)@), 1nat,
    {
        match self.cur {
            Token::Not => {
                proof {
                    lemma_advance_decreases(self@);
                }
                self.advance();
                match self.parse_unary() {
                    Some(inner) => Some(Node::Not(Box::new(inner))),
                    None => None,
                }
            },
            _ => self.parse_primary(),
        }
    }

    fn parse_primary(&mut self) -> (r: Option<Node>)
        ensures
            (parsed(r), final(self)@) == parse_primary(old(self)@),
        decreases remaining(old(self)@), 0nat,
    {
        match &self.cur {
            Token::BracketOpen => {
                proof {
                    lemma_advance_decreases(self@);
                }
                self.advance();
                let inner = match self.parse_or() {
                    Some(n) => n,
                    None => {
                        return None;
                    },
                };
                match self.cur {
                    Token::BracketClose => {
                        self.advance();
                        Some(Node::Group(Box::new(inner)))
                    },
                    _ => None,
                }
            },
            Token::Field(name) => {
                let field_name = name.clone();
                self.advance();
                match &self.cur {
                    Token::Word(w) => {
                        let term = w.clone();
                        self.advance();
                        Some(Node::Field(field_name, term))
                    },
                    _ => None,
                }
            },
            Token::FieldEmpty(name) => {
                let field_name = name.clone();
                self.advance();
                Some(Node::Field(field_name, String::new()))
            },
            Token::Word(name) => {
                let word = name.clone();
                self.advance();
                match operator_of(&self.cur) {
                    Some(op) => {
                        self.advance();
                        match &self.cur {
                            Token::Word(v) => {
                                let value = v.clone();
                                self.advance();
                                Some(Node::Compare(word, op, value))
                            },
                            _ => None,
                        }
                    },
                    None => Some(node_of_word(word)),
                }
            },
            _ => None,
        }
    }
}

fn operator_of(t: &Token) -> (r: Option<CompareOp>)
    ensures
        r == compare_op(t@),
{
    match t {
        Token::Smaller => Some(CompareOp::Smaller),
        Token::SmallerEq => Some(CompareOp::SmallerEq),
        Token::Greater => Some(CompareOp::Greater),
        Token::GreaterEq => Some(CompareOp::GreaterEq),
        Token::Equal => Some(CompareOp::Eq),
        Token::Contains => Some(CompareOp::Contains),
        _ => None,
    }
}

fn node_of_word(word: String) -> (r: Node)
    ensures
        r@ == word_node(word@),
{
    let chars = chars_of(word.as_str());
    let n = chars.len();
    if n >= 2 && chars[0] == '/' && chars[n - 1] == '/' {
        Node::Regex(string_of(&chars, 1, n - 1))
    } else {
        Node::Word(word)
    }
}

} // verus!
