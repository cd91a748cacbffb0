//! Compiled regular expressions.
//!
//! Two engines stand behind this module: PCRE2, through the `pcre2` crate,
//! and the `regex` crate. Nothing is proved of what an engine finds. Each
//! result has a name instead, a function of the pattern text and the searched
//! text, and the contracts of this module say which name a call yields. Every
//! expression is compiled with the default options of its engine, so the
//! pattern text alone tells what it finds.

use std::sync::Arc;
use vstd::prelude::*;

verus! {

/// `pcre2::bytes::Regex`, a compiled PCRE2 expression. Nothing is known of
/// what is inside.
#[verifier::external_type_specification]
#[verifier::external_body]
pub struct ExPcre2Regex(pcre2::bytes::Regex);

/// `pcre2::Error`, why PCRE2 rejected a pattern or gave up a search.
#[verifier::external_type_specification]
#[verifier::external_body]
pub struct ExPcre2Error(pcre2::Error);

/// `regex::bytes::Regex`, a compiled expression for byte haystacks.
#[verifier::external_type_specification]
#[verifier::external_body]
pub struct ExBytesRegex(regex::bytes::Regex);

/// `regex::Regex`, a compiled expression for string haystacks.
#[verifier::external_type_specification]
#[verifier::external_body]
pub struct ExStrRegex(regex::Regex);

/// `regex::Error`, why the `regex` crate rejected a pattern.
#[verifier::external_type_specification]
#[verifier::external_body]
pub struct ExRegexError(regex::Error);

/// The pattern text that a compiled PCRE2 expression was built from.
pub uninterp spec fn pcre2_pattern(re: pcre2::bytes::Regex) -> Seq<char>;

/// Whether PCRE2 compiles the pattern text under the default options.
pub uninterp spec fn pcre2_accepts(pattern: Seq<char>) -> bool;

/// What a PCRE2 search for `pattern` in `text` reports under the default
/// options: whether there is a match, or `None` where the search ends in an
/// error.
pub uninterp spec fn pcre2_found(pattern: Seq<char>, text: Seq<u8>) -> Option<bool>;

/// The capture groups of the leftmost match of `pattern` in `text` under
/// PCRE2 with the default options, group 0 first; a group that took no part
/// is `None`. The whole is `None` where there is no match or the search ends
/// in an error.
pub uninterp spec fn pcre2_groups(pattern: Seq<char>, text: Seq<u8>) -> Option<
    Seq<Option<(usize, usize)>>,
>;

/// The pattern text that an expression of the `regex` crate was built from.
pub uninterp spec fn regex_pattern(re: regex::bytes::Regex) -> Seq<char>;

/// Whether the `regex` crate compiles the pattern text for byte haystacks
/// under the default options.
pub uninterp spec fn regex_accepts(pattern: Seq<char>) -> bool;

/// Whether the `regex` crate finds `pattern` anywhere in `text` under the
/// default options.
pub uninterp spec fn regex_found(pattern: Seq<char>, text: Seq<u8>) -> bool;

/// The capture groups of the leftmost match of `pattern` in `text` under the
/// `regex` crate with the default options, group 0 first, or `None` where
/// there is no match.
pub uninterp spec fn regex_groups(pattern: Seq<char>, text: Seq<u8>) -> Option<
    Seq<Option<(usize, usize)>>,
>;

/// The pattern text that a string expression of the `regex` crate was built
/// from.
pub uninterp spec fn str_regex_pattern(re: regex::Regex) -> Seq<char>;

/// Whether the `regex` crate compiles the pattern text for string haystacks
/// under the default options.
pub uninterp spec fn str_regex_accepts(pattern: Seq<char>) -> bool;

/// Whether the `regex` crate finds `pattern` anywhere in the string `text`
/// under the default options.
pub uninterp spec fn str_regex_found(pattern: Seq<char>, text: Seq<char>) -> bool;

/// The characters that `regex::escape` puts a backslash before.
pub open spec fn is_regex_meta(c: char) -> bool {
    c == '\\' || c == '.' || c == '+' || c == '*' || c == '?' || c == '(' || c == ')' || c == '|'
        || c == '[' || c == ']' || c == '{' || c == '}' || c == '^' || c == '$' || c == '#' || c
        == '&' || c == '-' || c == '~'
}

/// `s` with a backslash before each character of [`is_regex_meta`].
pub open spec fn regex_escaped(s: Seq<char>) -> Seq<char>
    decreases s.len(),
{
    if s.len() == 0 {
        s
    } else if is_regex_meta(s.last()) {
        regex_escaped(s.drop_last()).push('\\').push(s.last())
    } else {
        regex_escaped(s.drop_last()).push(s.last())
    }
}

/// `pcre2::bytes::Regex::new`: compiles with the default options. It succeeds
/// on exactly the patterns that PCRE2 accepts, and the expression remembers
/// the text it was built from.
#[verifier::external_body]
fn pcre2_compile(pattern: &str) -> (r: Result<pcre2::bytes::Regex, pcre2::Error>)
    ensures
        r is Ok <==> pcre2_accepts(pattern@),
        r matches Ok(re) ==> pcre2_pattern(re) == pattern@,
{
    pcre2::bytes::Regex::new(pattern)
}

/// `pcre2::bytes::Regex::as_str`: the pattern text of the expression.
#[verifier::external_body]
fn pcre2_text(re: &pcre2::bytes::Regex) -> (s: &str)
    ensures
        s@ == pcre2_pattern(*re),
{
    re.as_str()
}

/// `pcre2::bytes::Regex::is_match`: what the search reports, an error
/// turned into `None`.
#[verifier::external_body]
fn pcre2_search(re: &pcre2::bytes::Regex, text: &[u8]) -> (r: Option<bool>)
    ensures
        r == pcre2_found(pcre2_pattern(*re), text@),
{
    re.is_match(text).ok()
}

/// `pcre2::bytes::Regex::captures`: the start and end of each group of the
/// leftmost match, in the order of the groups. It runs the same search as
/// `is_match`, so there are groups exactly where that search reports a match;
/// and there is always the group of the whole match.
#[verifier::external_body]
fn pcre2_capture(re: &pcre2::bytes::Regex, text: &[u8]) -> (r: Option<Vec<Option<(usize, usize)>>>)
    ensures
        match r {
            Some(v) => pcre2_groups(pcre2_pattern(*re), text@) == Some(v@),
            None => pcre2_groups(pcre2_pattern(*re), text@) is None,
        },
        r is Some <==> pcre2_found(pcre2_pattern(*re), text@) == Some(true),
        r matches Some(v) ==> v@.len() >= 1,
{
    match re.captures(text) {
        Ok(Some(caps)) => Some(
            (0..caps.len()).map(|i| caps.get(i).map(|m| (m.start(), m.end()))).collect(),
        ),
        _ => None,
    }
}

/// `regex::escape`: puts a backslash before each meta character.
#[verifier::external_body]
pub(crate) fn regex_escape(pattern: &str) -> (r: String)
    ensures
        r@ == regex_escaped(pattern@),
{
    regex::escape(pattern)
}

/// `regex::bytes::Regex::new`: succeeds on exactly the patterns that the
/// crate accepts for byte haystacks, and the expression remembers the text it
/// was built from.
#[verifier::external_body]
fn regex_compile(pattern: &str) -> (r: Result<regex::bytes::Regex, regex::Error>)
    ensures
        r is Ok <==> regex_accepts(pattern@),
        r matches Ok(re) ==> regex_pattern(re) == pattern@,
{
    regex::bytes::Regex::new(pattern)
}

/// `regex::bytes::Regex::as_str`: the pattern text of the expression.
#[verifier::external_body]
fn regex_text(re: &regex::bytes::Regex) -> (s: &str)
    ensures
        s@ == regex_pattern(*re),
{
    re.as_str()
}

/// `regex::bytes::Regex::is_match`.
#[verifier::external_body]
fn regex_search(re: &regex::bytes::Regex, text: &[u8]) -> (r: bool)
    ensures
        r == regex_found(regex_pattern(*re), text@),
{
    re.is_match(text)
}

/// `regex::bytes::Regex::captures`: the start and end of each group of the
/// leftmost match, in the order of the groups. There are groups exactly
/// where there is a match, and there is always the group of the whole match.
#[verifier::external_body]
fn regex_capture(re: &regex::bytes::Regex, text: &[u8]) -> (r: Option<Vec<Option<(usize, usize)>>>)
    ensures
        match r {
            Some(v) => regex_groups(regex_pattern(*re), text@) == Some(v@),
            None => regex_groups(regex_pattern(*re), text@) is None,
        },
        r is Some <==> regex_found(regex_pattern(*re), text@),
        r matches Some(v) ==> v@.len() >= 1,
{
    re.captures(text).map(|caps| caps.iter().map(|g| g.map(|m| (m.start(), m.end()))).collect())
}

/// `regex::Regex::new`: succeeds on exactly the patterns that the crate
/// accepts for string haystacks, and the expression remembers the text it was
/// built from.
#[verifier::external_body]
fn str_regex_compile(pattern: &str) -> (r: Result<regex::Regex, regex::Error>)
    ensures
        r is Ok <==> str_regex_accepts(pattern@),
        r matches Ok(re) ==> str_regex_pattern(re) == pattern@,
{
    regex::Regex::new(pattern)
}

/// `regex::Regex::is_match`.
#[verifier::external_body]
fn str_regex_search(re: &regex::Regex, text: &str) -> (r: bool)
    ensures
        r == str_regex_found(str_regex_pattern(*re), text@),
{
    re.is_match(text)
}

/// Why a pattern or a query could not be compiled.
#[derive(Debug, Clone, Copy, PartialEq, Eq, Structural)]
pub enum CompileError {
    /// The engine rejects the pattern text.
    InvalidPattern,
    /// Modifiers stand on a node that has no pattern of its own.
    UnsupportedModifier,
}

/// The range that stands for one capture group in a text of `len` bytes: the
/// group's own range where it lies within the text, and `(0, 0)` for a group
/// that took no part or does not lie within the text.
pub open spec fn clean_group(g: Option<(usize, usize)>, len: nat) -> (usize, usize) {
    match g {
        Some((s, e)) => if s <= e <= len {
            (s, e)
        } else {
            (0, 0)
        },
        None => (0, 0),
    }
}

/// The ranges that stand for a list of capture groups.
pub open spec fn clean_groups(gs: Seq<Option<(usize, usize)>>, len: nat) -> Seq<(usize, usize)> {
    Seq::new(gs.len(), |i: int| clean_group(gs[i], len))
}

/// The ranges that stand for what an engine's search for groups yields.
pub open spec fn clean_capture(r: Option<Seq<Option<(usize, usize)>>>, len: nat) -> Option<
    Seq<(usize, usize)>,
> {
    match r {
        Some(gs) => Some(clean_groups(gs, len)),
        None => None,
    }
}

/// Every range lies within a text of `len` bytes.
pub open spec fn ranges_within(rs: Seq<(usize, usize)>, len: nat) -> bool {
    forall|i: int| 0 <= i < rs.len() ==> (#[trigger] rs[i]).0 <= rs[i].1 <= len
}

/// Turns capture groups into ranges within a text of `len` bytes.
pub fn ranges_of_groups(groups: &Vec<Option<(usize, usize)>>, len: usize) -> (r: Vec<(usize, usize)>)
    ensures
        r@ == clean_groups(groups@, len as nat),
        ranges_within(r@, len as nat),
{
    let mut out: Vec<(usize, usize)> = Vec::new();
    let mut i: usize = 0;
    while i < groups.len()
        invariant
            i <= groups.len(),
            out.len() == i,
            forall|k: int| 0 <= k < i ==> out[k] == clean_group(groups[k], len as nat),
        decreases groups.len() - i,
    {
        let g = match groups[i] {
            Some((s, e)) => if s <= e && e <= len {
                (s, e)
            } else {
                (0, 0)
            },
            None => (0, 0),
        };
        out.push(g);
        i = i + 1;
    }
    assert(out@ =~= clean_groups(groups@, len as nat));
    out
}

/// The value of an optional list of ranges.
pub open spec fn ranges_model(r: Option<Vec<(usize, usize)>>) -> Option<Seq<(usize, usize)>> {
    match r {
        Some(v) => Some(v@),
        None => None,
    }
}

/// What every compiled pattern offers.
pub trait CompiledPattern {
    /// Whether the pattern matches somewhere in `text`.
    spec fn found(&self, text: Seq<u8>) -> bool;

    /// The ranges of the capture groups of the leftmost match, group 0 first,
    /// or `None` where there is no match.
    spec fn groups(&self, text: Seq<u8>) -> Option<Seq<(usize, usize)>>;

    /// Tests whether the pattern matches somewhere in `text`.
    fn is_match(&self, text: &[u8]) -> (r: bool)
        ensures
            r == self.found(text@),
    ;

    /// The byte ranges of the capture groups of the leftmost match. Every
    /// range lies within `text`. There are ranges exactly where the pattern
    /// matches, the first of them for the whole match.
    fn captures_ranges(&self, text: &[u8]) -> (r: Option<Vec<(usize, usize)>>)
        ensures
            ranges_model(r) == self.groups(text@),
            r matches Some(v) ==> ranges_within(v@, text@.len()),
            r is Some <==> self.found(text@),
            r matches Some(v) ==> v@.len() >= 1,
    ;
}

/// A pattern compiled by PCRE2.
pub struct Pcre2Compiled {
    re: pcre2::bytes::Regex,
}

impl Pcre2Compiled {
    #[verifier::type_invariant]
    spec fn accepted(self) -> bool {
        pcre2_accepts(pcre2_pattern(self.re))
    }

    /// The pattern text.
    pub closed spec fn source(&self) -> Seq<char> {
        pcre2_pattern(self.re)
    }

    /// Compiles `pattern`.
    pub fn new(pattern: &str) -> (r: Result<Pcre2Compiled, CompileError>)
        ensures
            r is Ok <==> pcre2_accepts(pattern@),
            r matches Ok(p) ==> p.source() == pattern@,
            r matches Err(e) ==> e == CompileError::InvalidPattern,
    {
        match pcre2_compile(pattern) {
            Ok(re) => Ok(Pcre2Compiled { re }),
            Err(_) => Err(CompileError::InvalidPattern),
        }
    }

    /// The pattern text. PCRE2 accepts it.
    pub fn as_str(&self) -> (s: &str)
        ensures
            s@ == self.source(),
            pcre2_accepts(s@),
    {
        proof {
            use_type_invariant(self);
        }
        pcre2_text(&self.re)
    }
}

impl Pcre2Compiled {
    /// Tests whether the pattern matches somewhere in `text`. A search that
    /// ends in an error counts as no match.
    pub fn is_match(&self, text: &[u8]) -> (r: bool)
        ensures
            r == (pcre2_found(self.source(), text@) == Some(true)),
    {
        match pcre2_search(&self.re, text) {
            Some(b) => b,
            None => false,
        }
    }

    /// The byte ranges of the capture groups of the leftmost match, group 0
    /// first, or `None` where there is no match. A group that took no part
    /// is `(0, 0)`. Every range lies within `text`.
    pub fn captures_ranges(&self, text: &[u8]) -> (r: Option<Vec<(usize, usize)>>)
        ensures
            ranges_model(r) == clean_capture(pcre2_groups(self.source(), text@), text@.len()),
            r matches Some(v) ==> ranges_within(v@, text@.len()),
            r is Some <==> pcre2_found(self.source(), text@) == Some(true),
            r matches Some(v) ==> v@.len() >= 1,
    {
        match pcre2_capture(&self.re, text) {
            Some(groups) => Some(ranges_of_groups(&groups, text.len())),
            None => None,
        }
    }
}

impl CompiledPattern for Pcre2Compiled {
    open spec fn found(&self, text: Seq<u8>) -> bool {
        pcre2_found(self.source(), text) == Some(true)
    }

    open spec fn groups(&self, text: Seq<u8>) -> Option<Seq<(usize, usize)>> {
        clean_capture(pcre2_groups(self.source(), text), text.len())
    }

    fn is_match(&self, text: &[u8]) -> (r: bool) {
        Pcre2Compiled::is_match(self, text)
    }

    fn captures_ranges(&self, text: &[u8]) -> (r: Option<Vec<(usize, usize)>>) {
        Pcre2Compiled::captures_ranges(self, text)
    }
}

/// A pattern compiled by the `regex` crate, for byte haystacks.
pub struct Matcher {
    re: regex::bytes::Regex,
}

/// The pattern text that [`Matcher::new`] compiles.
pub open spec fn matcher_pattern(pattern: Seq<char>, is_regex: bool) -> Seq<char> {
    if is_regex {
        pattern
    } else {
        regex_escaped(pattern)
    }
}

impl Matcher {
    #[verifier::type_invariant]
    spec fn accepted(self) -> bool {
        regex_accepts(regex_pattern(self.re))
    }

    /// The pattern text.
    pub closed spec fn source(&self) -> Seq<char> {
        regex_pattern(self.re)
    }

    /// Compiles `pattern`: as a regular expression where `is_regex` holds,
    /// else as the literal text, every meta character escaped.
    pub fn new(pattern: &str, is_regex: bool) -> (r: Result<Matcher, CompileError>)
        ensures
            r is Ok <==> regex_accepts(matcher_pattern(pattern@, is_regex)),
            r matches Ok(m) ==> m.source() == matcher_pattern(pattern@, is_regex),
            r matches Err(e) ==> e == CompileError::InvalidPattern,
    {
        let compiled = if is_regex {
            regex_compile(pattern)
        } else {
            let escaped = regex_escape(pattern);
            regex_compile(escaped.as_str())
        };
        match compiled {
            Ok(re) => Ok(Matcher { re }),
            Err(_) => Err(CompileError::InvalidPattern),
        }
    }

    /// The pattern text. The `regex` crate accepts it.
    pub fn as_str(&self) -> (s: &str)
        ensures
            s@ == self.source(),
            regex_accepts(s@),
    {
        proof {
            use_type_invariant(self);
        }
        regex_text(&self.re)
    }
}

impl Matcher {
    /// Tests whether the pattern matches somewhere in `text`.
    pub fn is_match(&self, text: &[u8]) -> (r: bool)
        ensures
            r == regex_found(self.source(), text@),
    {
        regex_search(&self.re, text)
    }

    /// The byte ranges of the capture groups of the leftmost match, group 0
    /// first, or `None` where there is no match. A group that took no part
    /// is `(0, 0)`. Every range lies within `text`.
    pub fn captures_ranges(&self, text: &[u8]) -> (r: Option<Vec<(usize, usize)>>)
        ensures
            ranges_model(r) == clean_capture(regex_groups(self.source(), text@), text@.len()),
            r matches Some(v) ==> ranges_within(v@, text@.len()),
            r is Some <==> regex_found(self.source(), text@),
            r matches Some(v) ==> v@.len() >= 1,
    {
        match regex_capture(&self.re, text) {
            Some(groups) => Some(ranges_of_groups(&groups, text.len())),
            None => None,
        }
    }
}

impl CompiledPattern for Matcher {
    open spec fn found(&self, text: Seq<u8>) -> bool {
        regex_found(self.source(), text)
    }

    open spec fn groups(&self, text: Seq<u8>) -> Option<Seq<(usize, usize)>> {
        clean_capture(regex_groups(self.source(), text), text.len())
    }

    fn is_match(&self, text: &[u8]) -> (r: bool) {
        Matcher::is_match(self, text)
    }

    fn captures_ranges(&self, text: &[u8]) -> (r: Option<Vec<(usize, usize)>>) {
        Matcher::captures_ranges(self, text)
    }
}

/// A regular expression of the `regex` crate for string haystacks.
pub struct StrMatcher {
    re: regex::Regex,
}

impl StrMatcher {
    /// The pattern text.
    pub closed spec fn source(&self) -> Seq<char> {
        str_regex_pattern(self.re)
    }

    /// Compiles `pattern`.
    pub fn new(pattern: &str) -> (r: Result<StrMatcher, CompileError>)
        ensures
            r is Ok <==> str_regex_accepts(pattern@),
            r matches Ok(m) ==> m.source() == pattern@,
            r matches Err(e) ==> e == CompileError::InvalidPattern,
    {
        match str_regex_compile(pattern) {
            Ok(re) => Ok(StrMatcher { re }),
            Err(_) => Err(CompileError::InvalidPattern),
        }
    }

    /// Tests whether the pattern matches somewhere in `text`.
    pub fn is_match(&self, text: &str) -> (r: bool)
        ensures
            r == str_regex_found(self.source(), text@),
    {
        str_regex_search(&self.re, text)
    }
}

/// The engine behind a pattern.
#[derive(Debug, Clone, Copy, PartialEq, Eq, Structural)]
pub enum Engine {
    Pcre2,
    Regex,
}

/// What identifies a compiled pattern: its engine and its pattern text.
pub struct PatternKey {
    pub engine: Engine,
    pub text: Seq<char>,
}

/// Whether the engine compiles the pattern text.
pub open spec fn engine_accepts(key: PatternKey) -> bool {
    match key.engine {
        Engine::Pcre2 => pcre2_accepts(key.text),
        Engine::Regex => regex_accepts(key.text),
    }
}

/// Whether the pattern of `key` matches somewhere in `text`.
pub open spec fn key_found(key: PatternKey, text: Seq<u8>) -> bool {
    match key.engine {
        Engine::Pcre2 => pcre2_found(key.text, text) == Some(true),
        Engine::Regex => regex_found(key.text, text),
    }
}

/// The ranges of the capture groups of the leftmost match of the pattern of
/// `key` in `text`.
pub open spec fn key_groups(key: PatternKey, text: Seq<u8>) -> Option<Seq<(usize, usize)>> {
    match key.engine {
        Engine::Pcre2 => clean_capture(pcre2_groups(key.text, text), text.len()),
        Engine::Regex => clean_capture(regex_groups(key.text, text), text.len()),
    }
}

/// A compiled pattern of either engine.
pub enum Pattern {
    Pcre2(Pcre2Compiled),
    Regex(Matcher),
}

impl View for Pattern {
    type V = PatternKey;

    open spec fn view(&self) -> PatternKey {
        match self {
            Pattern::Pcre2(p) => PatternKey { engine: Engine::Pcre2, text: p.source() },
            Pattern::Regex(m) => PatternKey { engine: Engine::Regex, text: m.source() },
        }
    }
}

impl Pattern {
    /// Compiles `pattern` with the given engine.
    pub fn compile(engine: Engine, pattern: &str) -> (r: Result<Pattern, CompileError>)
        ensures
            r is Ok <==> engine_accepts(PatternKey { engine, text: pattern@ }),
            r matches Ok(p) ==> p@ == (PatternKey { engine, text: pattern@ }),
            r matches Err(e) ==> e == CompileError::InvalidPattern,
    {
        match engine {
            Engine::Pcre2 => match Pcre2Compiled::new(pattern) {
                Ok(p) => Ok(Pattern::Pcre2(p)),
                Err(e) => Err(e),
            },
            Engine::Regex => match Matcher::new(pattern, true) {
                Ok(m) => Ok(Pattern::Regex(m)),
                Err(e) => Err(e),
            },
        }
    }

    /// The engine behind the pattern.
    pub fn engine(&self) -> (r: Engine)
        ensures
            r == self@.engine,
    {
        match self {
            Pattern::Pcre2(_) => Engine::Pcre2,
            Pattern::Regex(_) => Engine::Regex,
        }
    }

    /// The pattern text. Its engine accepts it.
    pub fn as_str(&self) -> (s: &str)
        ensures
            s@ == self@.text,
            engine_accepts(self@),
    {
        match self {
            Pattern::Pcre2(p) => p.as_str(),
            Pattern::Regex(m) => m.as_str(),
        }
    }
}

impl Pattern {
    /// Tests whether the pattern matches somewhere in `text`.
    pub fn is_match(&self, text: &[u8]) -> (r: bool)
        ensures
            r == key_found(self@, text@),
    {
        match self {
            Pattern::Pcre2(p) => p.is_match(text),
            Pattern::Regex(m) => m.is_match(text),
        }
    }

    /// The byte ranges of the capture groups of the leftmost match, group 0
    /// first, or `None` where there is no match. Every range lies within
    /// `text`.
    pub fn captures_ranges(&self, text: &[u8]) -> (r: Option<Vec<(usize, usize)>>)
        ensures
            ranges_model(r) == key_groups(self@, text@),
            r matches Some(v) ==> ranges_within(v@, text@.len()),
            r is Some <==> key_found(self@, text@),
            r matches Some(v) ==> v@.len() >= 1,
    {
        match self {
            Pattern::Pcre2(p) => p.captures_ranges(text),
            Pattern::Regex(m) => m.captures_ranges(text),
        }
    }
}

impl CompiledPattern for Pattern {
    open spec fn found(&self, text: Seq<u8>) -> bool {
        key_found(self@, text)
    }

    open spec fn groups(&self, text: Seq<u8>) -> Option<Seq<(usize, usize)>> {
        key_groups(self@, text)
    }

    fn is_match(&self, text: &[u8]) -> (r: bool) {
        Pattern::is_match(self, text)
    }

    fn captures_ranges(&self, text: &[u8]) -> (r: Option<Vec<(usize, usize)>>) {
        Pattern::captures_ranges(self, text)
    }
}

/// `Arc::clone`: one more handle on the same compiled pattern.
#[verifier::external_body]
pub(crate) fn share_pattern(p: &Arc<Pattern>) -> (r: Arc<Pattern>)
    ensures
        r == *p,
{
    Arc::clone(p)
}

} // verus!
