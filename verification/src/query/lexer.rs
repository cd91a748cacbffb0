//! Tokenizer for the query language.
//!
//! The lexer reads characters from left to right. What it yields from a
//! position is given by [`lex`], a function of the input and that position.

use crate::text::{
    chars_of, is_space, is_whitespace, lemma_skip_spaces_bounds, skip_spaces, string_of,
};
use std::collections::VecDeque;
use vstd::prelude::*;

verus! {

/// One token of a query.
#[derive(Debug, Clone, PartialEq, Eq)]
pub enum Token {
    Eos,
    Equal,
    Contains,
    Smaller,
    SmallerEq,
    Greater,
    GreaterEq,
    Not,
    BracketOpen,
    BracketClose,
    Field(String),
    FieldEmpty(String),
    Word(String),
    And,
    Or,
}

/// The mathematical value of a [`Token`].
pub enum TokenModel {
    Eos,
    Equal,
    Contains,
    Smaller,
    SmallerEq,
    Greater,
    GreaterEq,
    Not,
    BracketOpen,
    BracketClose,
    Field(Seq<char>),
    FieldEmpty(Seq<char>),
    Word(Seq<char>),
    And,
    Or,
}

impl View for Token {
    type V = TokenModel;

    open spec fn view(&self) -> TokenModel {
        match self {
            Token::Eos => TokenModel::Eos,
            Token::Equal => TokenModel::Equal,
            Token::Contains => TokenModel::Contains,
            Token::Smaller => TokenModel::Smaller,
            Token::SmallerEq => TokenModel::SmallerEq,
            Token::Greater => TokenModel::Greater,
            Token::GreaterEq => TokenModel::GreaterEq,
            Token::Not => TokenModel::Not,
            Token::BracketOpen => TokenModel::BracketOpen,
            Token::BracketClose => TokenModel::BracketClose,
            Token::Field(s) => TokenModel::Field(s@),
            Token::FieldEmpty(s) => TokenModel::FieldEmpty(s@),
            Token::Word(s) => TokenModel::Word(s@),
            Token::And => TokenModel::And,
            Token::Or => TokenModel::Or,
        }
    }
}

/// The text that a token carries, if it carries one.
pub open spec fn token_text(t: TokenModel) -> Option<Seq<char>> {
    match t {
        TokenModel::Field(s) => Some(s),
        TokenModel::FieldEmpty(s) => Some(s),
        TokenModel::Word(s) => Some(s),
        _ => None,
    }
}

/// A character that ends a bare word.
pub open spec fn is_delimiter(c: char) -> bool {
    is_space(c) || c == ':' || c == '=' || c == '<' || c == '>' || c == '(' || c == ')' || c == '"'
        || c == '\\'
}

/// The first position at or after `i` that holds a delimiter, or the end.
pub open spec fn word_end(s: Seq<char>, i: int) -> int
    decreases s.len() - i,
{
    if 0 <= i < s.len() && !is_delimiter(s[i]) {
        word_end(s, i + 1)
    } else {
        i
    }
}

/// The first position at or after `i` that holds a double quote, or the end.
pub open spec fn quote_end(s: Seq<char>, i: int) -> int
    decreases s.len() - i,
{
    if 0 <= i < s.len() && s[i] != '"' {
        quote_end(s, i + 1)
    } else {
        i
    }
}

/// The token for a bare word `w` that is not followed by a colon.
pub open spec fn word_token(w: Seq<char>) -> TokenModel {
    if w == seq!['N', 'O', 'T'] {
        TokenModel::Not
    } else if w == seq!['A', 'N', 'D'] || w == seq!['&', '&'] {
        TokenModel::And
    } else if w == seq!['O', 'R'] || w == seq!['|', '|'] {
        TokenModel::Or
    } else {
        TokenModel::Word(w)
    }
}

/// The token that starts with the bare word `s[i..j]`, and the position after
/// it. A colon right behind the word makes it a field; the field is empty
/// where white space or the end of the input follows the colon, and that one
/// white space character then belongs to the token.
pub open spec fn lex_word(s: Seq<char>, i: int, j: int) -> (TokenModel, int) {
    let w = s.subrange(i, j);
    if word_token(w) != TokenModel::Word(w) {
        (word_token(w), j)
    } else if j < s.len() && s[j] == ':' {
        if j + 1 < s.len() && !is_space(s[j + 1]) {
            (TokenModel::Field(w), j + 1)
        } else if j + 1 < s.len() {
            (TokenModel::FieldEmpty(w), j + 2)
        } else {
            (TokenModel::FieldEmpty(w), j + 1)
        }
    } else {
        (TokenModel::Word(w), j)
    }
}

/// The token that starts at the non-space character `s[i]`, and the position
/// after it.
pub open spec fn lex_at(s: Seq<char>, i: int) -> (TokenModel, int)
    recommends
        0 <= i < s.len(),
{
    let c = s[i];
    if c == '\0' {
        (TokenModel::Eos, i + 1)
    } else if c == '=' {
        (TokenModel::Equal, i + 1)
    } else if c == ':' {
        (TokenModel::Contains, i + 1)
    } else if c == '<' {
        if i + 1 < s.len() && s[i + 1] == '=' {
            (TokenModel::SmallerEq, i + 2)
        } else {
            (TokenModel::Smaller, i + 1)
        }
    } else if c == '>' {
        if i + 1 < s.len() && s[i + 1] == '=' {
            (TokenModel::GreaterEq, i + 2)
        } else {
            (TokenModel::Greater, i + 1)
        }
    } else if c == '!' {
        (TokenModel::Not, i + 1)
    } else if c == '(' {
        (TokenModel::BracketOpen, i + 1)
    } else if c == ')' {
        (TokenModel::BracketClose, i + 1)
    } else if c == '"' {
        let j = quote_end(s, i + 1);
        (TokenModel::Word(s.subrange(i + 1, j)), if j < s.len() { j + 1 } else { j })
    } else if c == '\\' {
        if i + 1 < s.len() {
            (TokenModel::Word(seq![s[i + 1]]), i + 2)
        } else {
            (TokenModel::Eos, i + 1)
        }
    } else {
        lex_word(s, i, word_end(s, i + 1))
    }
}

/// The next token of `s` from position `pos` on, and the position after it.
/// At the end of the input the token is `Eos` and the position stays.
pub open spec fn lex(s: Seq<char>, pos: int) -> (TokenModel, int) {
    let i = skip_spaces(s, pos);
    if 0 <= i < s.len() {
        lex_at(s, i)
    } else {
        (TokenModel::Eos, i)
    }
}

proof fn lemma_word_end_bounds(s: Seq<char>, i: int)
    requires
        0 <= i <= s.len(),
    ensures
        i <= word_end(s, i) <= s.len(),
        word_end(s, i) < s.len() ==> is_delimiter(s[word_end(s, i)]),
        forall|k: int| i <= k < word_end(s, i) ==> !is_delimiter(#[trigger] s[k]),
    decreases s.len() - i,
{
    if i < s.len() && !is_delimiter(s[i]) {
        lemma_word_end_bounds(s, i + 1);
    }
}

proof fn lemma_quote_end_bounds(s: Seq<char>, i: int)
    requires
        0 <= i <= s.len(),
    ensures
        i <= quote_end(s, i) <= s.len(),
        quote_end(s, i) < s.len() ==> s[quote_end(s, i)] == '"',
        forall|k: int| i <= k < quote_end(s, i) ==> #[trigger] s[k] != '"',
    decreases s.len() - i,
{
    if i < s.len() && s[i] != '"' {
        lemma_quote_end_bounds(s, i + 1);
    }
}

/// Lexing never moves backwards nor past the end, and every token other than
/// `Eos` takes at least one character.
pub proof fn lemma_lex_advances(s: Seq<char>, pos: int)
    requires
        0 <= pos <= s.len(),
    ensures
        pos <= lex(s, pos).1 <= s.len(),
        !(lex(s, pos).0 is Eos) ==> pos < lex(s, pos).1,
{
    lemma_skip_spaces_bounds(s, pos);
    let i = skip_spaces(s, pos);
    if i < s.len() {
        lemma_quote_end_bounds(s, i + 1);
        lemma_word_end_bounds(s, i + 1);
    }
}

/// At the end of the input the lexer yields `Eos` and stays where it is, so
/// it yields `Eos` again however often it is asked.
pub proof fn lemma_eos_is_idempotent(s: Seq<char>)
    ensures
        lex(s, s.len() as int) == (TokenModel::Eos, s.len() as int),
{
}

/// What a [`Lexer`] stands for: the characters of its input and how many of
/// them it has read.
pub struct LexerState {
    pub input: Seq<char>,
    pub pos: int,
}

/// A tokenizer over one query string. Characters that were read and given
/// back wait in `pushback` and are read again before the rest of the input.
pub struct Lexer {
    input: Vec<char>,
    pos: usize,
    pushback: VecDeque<char>,
}

impl View for Lexer {
    type V = LexerState;

    closed spec fn view(&self) -> LexerState {
        LexerState { input: self.input@, pos: self.pos - self.pushback@.len() }
    }
}

impl Lexer {
    /// What was given back is what stands in the input right before the
    /// position of the next unread character.
    #[verifier::type_invariant]
    spec fn in_bounds(self) -> bool {
        &&& self.pushback@.len() <= self.pos <= self.input.len()
        &&& forall|i: int|
            0 <= i < self.pushback@.len() ==> #[trigger] self.pushback@[i] == self.input@[self.pos
                - self.pushback@.len() + i]
    }

    /// A lexer at the start of `input`.
    pub fn new(input: &str) -> (r: Lexer)
        ensures
            r@ == (LexerState { input: input@, pos: 0 }),
    {
        Lexer { input: chars_of(input), pos: 0, pushback: VecDeque::new() }
    }

    fn position(&self) -> (p: usize)
        ensures
            p == self@.pos,
            p <= self@.input.len(),
    {
        proof {
            use_type_invariant(self);
        }
        self.pos - self.pushback.len()
    }

    fn get_next_input_char(&mut self) -> (r: Option<char>)
        requires
            old(self).pushback@.len() == 0,
        ensures
            final(self)@.input == old(self)@.input,
            0 <= old(self)@.pos <= old(self)@.input.len(),
            old(self)@.pos < old(self)@.input.len() ==> r == Some(old(self)@.input[old(self)@.pos])
                && final(self)@.pos == old(self)@.pos + 1,
            old(self)@.pos == old(self)@.input.len() ==> r is None && final(self)@.pos == old(
                self,
            )@.pos,
    {
        proof {
            use_type_invariant(&*self);
        }
        if self.pos < self.input.len() {
            let c = self.input[self.pos];
            self.pos = self.pos + 1;
            Some(c)
        } else {
            None
        }
    }

    fn get_next_char(&mut self) -> (r: Option<char>)
        ensures
            final(self)@.input == old(self)@.input,
            0 <= old(self)@.pos <= old(self)@.input.len(),
            old(self)@.pos < old(self)@.input.len() ==> r == Some(old(self)@.input[old(self)@.pos])
                && final(self)@.pos == old(self)@.pos + 1,
            old(self)@.pos == old(self)@.input.len() ==> r is None && final(self)@.pos == old(
                self,
            )@.pos,
    {
        proof {
            use_type_invariant(&*self);
        }
        // the deque changes outside the lexer, which holds none meanwhile
        let mut waiting: VecDeque<char> = VecDeque::new();
        core::mem::swap(&mut self.pushback, &mut waiting);
        let ghost before = waiting@;
        let first = waiting.pop_front();
        proof {
            assert(forall|i: int| 0 <= i < waiting@.len() ==> #[trigger] waiting@[i] == before[i + 1]);
        }
        core::mem::swap(&mut self.pushback, &mut waiting);
        match first {
            Some(c) => Some(c),
            None => self.get_next_input_char(),
        }
    }

    fn give_back_char(&mut self, c: char)
        requires
            old(self)@.pos > 0,
            c == old(self)@.input[old(self)@.pos - 1],
        ensures
            final(self)@.input == old(self)@.input,
            final(self)@.pos == old(self)@.pos - 1,
    {
        proof {
            use_type_invariant(&*self);
        }
        let mut waiting: VecDeque<char> = VecDeque::new();
        core::mem::swap(&mut self.pushback, &mut waiting);
        let ghost before = waiting@;
        waiting.push_front(c);
        proof {
            assert(forall|i: int| 1 <= i < waiting@.len() ==> #[trigger] waiting@[i] == before[i - 1]);
        }
        core::mem::swap(&mut self.pushback, &mut waiting);
    }

    fn skip_whitespace(&mut self)
        ensures
            final(self)@.input == old(self)@.input,
            final(self)@.pos == skip_spaces(old(self)@.input, old(self)@.pos),
            0 <= old(self)@.pos <= final(self)@.pos <= old(self)@.input.len(),
    {
        let ghost input = self@.input;
        let ghost from = self@.pos;
        proof {
            use_type_invariant(&*self);
        }
        loop
            invariant
                self@.input == input,
                input == old(self)@.input,
                from == old(self)@.pos,
                0 <= from <= self@.pos <= input.len(),
                skip_spaces(input, self@.pos) == skip_spaces(input, from),
            ensures
                self@.input == input,
                0 <= from <= self@.pos <= input.len(),
                self@.pos == skip_spaces(input, from),
            decreases input.len() - self@.pos,
        {
            match self.get_next_char() {
                Some(c) => {
                    if !is_whitespace(c) {
                        self.give_back_char(c);
                        break ;
                    }
                },
                None => {
                    break ;
                },
            }
        }
    }

    fn parse_quoted_string(&mut self) -> (r: String)
        ensures
            final(self)@.input == old(self)@.input,
            r@ == old(self)@.input.subrange(
                old(self)@.pos,
                quote_end(old(self)@.input, old(self)@.pos),
            ),
            final(self)@.pos == if quote_end(old(self)@.input, old(self)@.pos) < old(
                self,
            )@.input.len() {
                quote_end(old(self)@.input, old(self)@.pos) + 1
            } else {
                quote_end(old(self)@.input, old(self)@.pos)
            },
    {
        let ghost input = self@.input;
        let ghost from = self@.pos;
        let mut out = String::new();
        proof {
            use_type_invariant(&*self);
            lemma_quote_end_bounds(input, from);
            assert(input.subrange(from, from) =~= Seq::<char>::empty());
        }
        loop
            invariant_except_break
                quote_end(input, self@.pos) == quote_end(input, from),
                out@ == input.subrange(from, self@.pos),
            invariant
                self@.input == input,
                0 <= from <= self@.pos <= input.len(),
                from <= quote_end(input, from) <= input.len(),
            ensures
                self@.input == input,
                out@ == input.subrange(from, quote_end(input, from)),
                self@.pos == if quote_end(input, from) < input.len() {
                    quote_end(input, from) + 1
                } else {
                    quote_end(input, from)
                },
            decreases input.len() - self@.pos,
        {
            let ghost at = self@.pos;
            match self.get_next_char() {
                Some(c) => {
                    if c == '"' {
                        break ;
                    }
                    out.push(c);
                    assert(out@ =~= input.subrange(from, at + 1));
                },
                None => {
                    break ;
                },
            }
        }
        out
    }

    fn scan_word(&mut self)
        ensures
            final(self)@.input == old(self)@.input,
            final(self)@.pos == word_end(old(self)@.input, old(self)@.pos),
            0 <= old(self)@.pos <= final(self)@.pos <= old(self)@.input.len(),
    {
        let ghost input = self@.input;
        let ghost from = self@.pos;
        proof {
            use_type_invariant(&*self);
        }
        loop
            invariant
                self@.input == input,
                0 <= from <= self@.pos <= input.len(),
                word_end(input, self@.pos) == word_end(input, from),
            ensures
                self@.input == input,
                0 <= from <= self@.pos <= input.len(),
                self@.pos == word_end(input, from),
            decreases input.len() - self@.pos,
        {
            match self.get_next_char() {
                Some(c) => {
                    if is_delimiter_char(c) {
                        self.give_back_char(c);
                        break ;
                    }
                },
                None => {
                    break ;
                },
            }
        }
    }

    fn finish_word(&mut self, start: usize) -> (r: (Token, Option<String>))
        requires
            start <= old(self)@.pos,
        ensures
            final(self)@.input == old(self)@.input,
            (r.0@, final(self)@.pos) == lex_word(old(self)@.input, start as int, old(self)@.pos),
            token_text(r.0@) == match r.1 {
                Some(t) => Some(t@),
                None => None,
            },
    {
        let end = self.position();
        let ghost w = self.input@.subrange(start as int, end as int);
        let n = end - start;
        if n == 3 && self.input[start] == 'N' && self.input[start + 1] == 'O' && self.input[start
            + 2] == 'T' {
            assert(w =~= seq!['N', 'O', 'T']);
            return (Token::Not, None);
        }
        if (n == 3 && self.input[start] == 'A' && self.input[start + 1] == 'N' && self.input[start
            + 2] == 'D') || (n == 2 && self.input[start] == '&' && self.input[start + 1] == '&') {
            assert(w =~= seq!['A', 'N', 'D'] || w =~= seq!['&', '&']);
            assert(w.len() == 3 ==> w[0] == 'A');
            return (Token::And, None);
        }
        if n == 2 && ((self.input[start] == 'O' && self.input[start + 1] == 'R') || (
        self.input[start] == '|' && self.input[start + 1] == '|')) {
            assert(w =~= seq!['O', 'R'] || w =~= seq!['|', '|']);
            return (Token::Or, None);
        }
        proof {
            assert(w != seq!['N', 'O', 'T']) by {
                if w == seq!['N', 'O', 'T'] {
                    assert(w.len() == 3 && w[0] == 'N' && w[1] == 'O' && w[2] == 'T');
                }
            }
            assert(w != seq!['A', 'N', 'D']) by {
                if w == seq!['A', 'N', 'D'] {
                    assert(w.len() == 3 && w[0] == 'A' && w[1] == 'N' && w[2] == 'D');
                }
            }
            assert(w != seq!['&', '&']) by {
                if w == seq!['&', '&'] {
                    assert(w.len() == 2 && w[0] == '&' && w[1] == '&');
                }
            }
            assert(w != seq!['O', 'R']) by {
                if w == seq!['O', 'R'] {
                    assert(w.len() == 2 && w[0] == 'O' && w[1] == 'R');
                }
            }
            assert(w != seq!['|', '|']) by {
                if w == seq!['|', '|'] {
                    assert(w.len() == 2 && w[0] == '|' && w[1] == '|');
                }
            }
        }
        let s = string_of(&self.input, start, end);
        if let Some(next_c) = self.get_next_char() {
            if next_c == ':' {
                if let Some(peek) = self.get_next_char() {
                    if is_whitespace(peek) {
                        return (Token::FieldEmpty(s.clone()), Some(s));
                    } else {
                        self.give_back_char(peek);
                        return (Token::Field(s.clone()), Some(s));
                    }
                } else {
                    return (Token::FieldEmpty(s.clone()), Some(s));
                }
            } else {
                self.give_back_char(next_c);
            }
        }
        (Token::Word(s.clone()), Some(s))
    }

    /// Reads the next token. The second component is the token's text, for
    /// the tokens that carry one.
    pub fn next_token(&mut self) -> (r: (Token, Option<String>))
        ensures
            final(self)@.input == old(self)@.input,
            (r.0@, final(self)@.pos) == lex(old(self)@.input, old(self)@.pos),
            0 <= old(self)@.pos <= final(self)@.pos <= old(self)@.input.len(),
            token_text(r.0@) == match r.1 {
                Some(t) => Some(t@),
                None => None,
            },
    {
        let ghost before = self@;
        proof {
            use_type_invariant(&*self);
            lemma_lex_advances(before.input, before.pos);
        }
        self.skip_whitespace();
        let start = self.position();
        let c = match self.get_next_char() {
            Some(c) => c,
            None => {
                return (Token::Eos, None);
            },
        };
        if c == '\0' {
            (Token::Eos, None)
        } else if c == '=' {
            (Token::Equal, None)
        } else if c == ':' {
            (Token::Contains, None)
        } else if c == '<' {
            match self.get_next_char() {
                Some(n) => {
                    if n == '=' {
                        (Token::SmallerEq, None)
                    } else {
                        self.give_back_char(n);
                        (Token::Smaller, None)
                    }
                },
                None => (Token::Smaller, None),
            }
        } else if c == '>' {
            match self.get_next_char() {
                Some(n) => {
                    if n == '=' {
                        (Token::GreaterEq, None)
                    } else {
                        self.give_back_char(n);
                        (Token::Greater, None)
                    }
                },
                None => (Token::Greater, None),
            }
        } else if c == '!' {
            (Token::Not, None)
        } else if c == '(' {
            (Token::BracketOpen, None)
        } else if c == ')' {
            (Token::BracketClose, None)
        } else if c == '"' {
            let s = self.parse_quoted_string();
            (Token::Word(s.clone()), Some(s))
        } else if c == '\\' {
            match self.get_next_char() {
                Some(n) => {
                    let mut s = String::new();
                    s.push(n);
                    (Token::Word(s.clone()), Some(s))
                },
                None => (Token::Eos, None),
            }
        } else {
            self.scan_word();
            self.finish_word(start)
        }
    }

    /// Yields the next token without reading it: what was read for it is
    /// given back.
    pub fn peek_token(&mut self) -> (r: (Token, Option<String>))
        ensures
            final(self)@ == old(self)@,
            0 <= old(self)@.pos <= old(self)@.input.len(),
            r.0@ == lex(old(self)@.input, old(self)@.pos).0,
            token_text(r.0@) == match r.1 {
                Some(t) => Some(t@),
                None => None,
            },
    {
        let from = self.position();
        let res = self.next_token();
        let mut at = self.position();
        while at > from
            invariant
                self@.input == old(self)@.input,
                from == old(self)@.pos,
                from <= at <= self@.input.len(),
                at == self@.pos,
            decreases at,
        {
            proof {
                use_type_invariant(&*self);
            }
            let c = self.input[at - 1];
            self.give_back_char(c);
            at = at - 1;
        }
        res
    }
}

fn is_delimiter_char(c: char) -> (r: bool)
    ensures
        r == is_delimiter(c),
{
    is_whitespace(c) || c == ':' || c == '=' || c == '<' || c == '>' || c == '(' || c == ')' || c
        == '"' || c == '\\'
}

} // verus!
