//! The pattern text of a query term.
//!
//! A literal term becomes its escaped text in a capturing group; a regular
//! expression becomes its own text in a capturing group. Modifiers add a
//! case-insensitive flag in front and anchors around the whole.

use crate::query::ast::texts;
use crate::text::{
    chars_equal_ignore_case, chars_of, chars_start_with, eq_ignore_case, has_prefix, string_of,
};
use vstd::prelude::*;

verus! {

/// The characters that a literal term escapes.
pub open spec fn needs_escape(c: char) -> bool {
    c == '\\' || c == '.' || c == '+' || c == '*' || c == '?' || c == '(' || c == ')' || c == '['
        || c == ']' || c == '{' || c == '}' || c == '^' || c == '$' || c == '|'
}

/// `s` with a backslash before each character of [`needs_escape`].
pub open spec fn escaped(s: Seq<char>) -> Seq<char>
    decreases s.len(),
{
    if s.len() == 0 {
        s
    } else if needs_escape(s.last()) {
        escaped(s.drop_last()).push('\\').push(s.last())
    } else {
        escaped(s.drop_last()).push(s.last())
    }
}

/// `s` in a capturing group.
pub open spec fn grouped(s: Seq<char>) -> Seq<char> {
    seq!['('] + s + seq![')']
}

/// A modifier that asks for case-insensitive matching.
pub open spec fn is_icase_word(m: Seq<char>) -> bool {
    eq_ignore_case(m, "i"@) || eq_ignore_case(m, "icase"@) || eq_ignore_case(m, "ignorecase"@)
}

/// A modifier that asks for a match of the whole text.
pub open spec fn is_anchor_word(m: Seq<char>) -> bool {
    has_prefix(m, "anch"@) || eq_ignore_case(m, "exact"@)
}

/// A modifier that inverts the result.
pub open spec fn is_negation_word(m: Seq<char>) -> bool {
    eq_ignore_case(m, "not"@) || eq_ignore_case(m, "invert"@) || eq_ignore_case(m, "neg"@)
}

/// Some modifier asks for case-insensitive matching.
pub open spec fn wants_icase(mods: Seq<Seq<char>>) -> bool {
    exists|i: int| 0 <= i < mods.len() && is_icase_word(#[trigger] mods[i])
}

/// Some modifier asks for a match of the whole text.
pub open spec fn wants_anchor(mods: Seq<Seq<char>>) -> bool {
    exists|i: int| 0 <= i < mods.len() && is_anchor_word(#[trigger] mods[i])
}

/// Some modifier inverts the result.
pub open spec fn wants_negation(mods: Seq<Seq<char>>) -> bool {
    exists|i: int| 0 <= i < mods.len() && is_negation_word(#[trigger] mods[i])
}

/// `core` under the modifiers: `(?i)` in front where one asks for it, then
/// `^` and `$` around the whole where one asks for that.
pub open spec fn with_modifiers(core: Seq<char>, mods: Seq<Seq<char>>) -> Seq<char> {
    let flagged = if wants_icase(mods) {
        "(?i)"@ + core
    } else {
        core
    };
    if wants_anchor(mods) {
        seq!['^'] + flagged + seq!['$']
    } else {
        flagged
    }
}

/// The pattern text of the literal `s` under `mods`.
pub open spec fn literal_pattern(s: Seq<char>, mods: Seq<Seq<char>>) -> Seq<char> {
    with_modifiers(grouped(escaped(s)), mods)
}

/// The pattern text of the regular expression `s` under `mods`.
pub open spec fn expression_pattern(s: Seq<char>, mods: Seq<Seq<char>>) -> Seq<char> {
    with_modifiers(grouped(s), mods)
}

/// A term of the form `/.../`.
pub open spec fn is_regex_term(term: Seq<char>) -> bool {
    term.len() >= 2 && term[0] == '/' && term[term.len() - 1] == '/'
}

/// The pattern text of a field's term under `mods`: that of the regular
/// expression between the slashes where the term is of the form `/.../`,
/// else that of the literal term.
pub open spec fn term_pattern(term: Seq<char>, mods: Seq<Seq<char>>) -> Seq<char> {
    if is_regex_term(term) {
        expression_pattern(term.subrange(1, term.len() - 1), mods)
    } else {
        literal_pattern(term, mods)
    }
}

fn is_special(c: char) -> (r: bool)
    ensures
        r == needs_escape(c),
{
    c == '\\' || c == '.' || c == '+' || c == '*' || c == '?' || c == '(' || c == ')' || c == '['
        || c == ']' || c == '{' || c == '}' || c == '^' || c == '$' || c == '|'
}

/// The escaped form of `s`, in a capturing group.
pub fn escape_literal(s: &Vec<char>) -> (out: Vec<char>)
    ensures
        out@ == grouped(escaped(s@)),
{
    let mut out: Vec<char> = Vec::new();
    out.push('(');
    let mut i: usize = 0;
    while i < s.len()
        invariant
            i <= s.len(),
            out@ == seq!['('] + escaped(s@.take(i as int)),
        decreases s.len() - i,
    {
        proof {
            assert(s@.take(i + 1).drop_last() =~= s@.take(i as int));
            assert(s@.take(i + 1).last() == s[i as int]);
        }
        if is_special(s[i]) {
            out.push('\\');
        }
        out.push(s[i]);
        assert(out@ =~= seq!['('] + escaped(s@.take(i + 1)));
        i = i + 1;
    }
    assert(s@.take(i as int) =~= s@);
    out.push(')');
    assert(out@ =~= grouped(escaped(s@)));
    out
}

fn group(s: &Vec<char>, from: usize, to: usize) -> (out: Vec<char>)
    requires
        from <= to <= s.len(),
    ensures
        out@ == grouped(s@.subrange(from as int, to as int)),
{
    let mut out: Vec<char> = Vec::new();
    out.push('(');
    let mut i: usize = from;
    while i < to
        invariant
            from <= i <= to <= s.len(),
            out@ == seq!['('] + s@.subrange(from as int, i as int),
        decreases to - i,
    {
        out.push(s[i]);
        assert(out@ =~= seq!['('] + s@.subrange(from as int, i + 1));
        i = i + 1;
    }
    out.push(')');
    assert(out@ =~= grouped(s@.subrange(from as int, to as int)));
    out
}

fn icase_word(m: &Vec<char>) -> (r: bool)
    ensures
        r == is_icase_word(m@),
{
    chars_equal_ignore_case(m, &chars_of("i")) || chars_equal_ignore_case(m, &chars_of("icase"))
        || chars_equal_ignore_case(m, &chars_of("ignorecase"))
}

fn anchor_word(m: &Vec<char>) -> (r: bool)
    ensures
        r == is_anchor_word(m@),
{
    chars_start_with(m, &chars_of("anch")) || chars_equal_ignore_case(m, &chars_of("exact"))
}

fn negation_word(m: &Vec<char>) -> (r: bool)
    ensures
        r == is_negation_word(m@),
{
    chars_equal_ignore_case(m, &chars_of("not")) || chars_equal_ignore_case(m, &chars_of("invert"))
        || chars_equal_ignore_case(m, &chars_of("neg"))
}

/// Tests whether some modifier asks for case-insensitive matching.
pub fn any_icase(mods: &Vec<String>) -> (r: bool)
    ensures
        r == wants_icase(texts(mods@)),
{
    let mut i: usize = 0;
    while i < mods.len()
        invariant
            i <= mods.len(),
            forall|j: int| 0 <= j < i ==> !is_icase_word(#[trigger] texts(mods@)[j]),
        decreases mods.len() - i,
    {
        assert(texts(mods@)[i as int] == mods[i as int]@);
        if icase_word(&chars_of(mods[i].as_str())) {
            return true;
        }
        i = i + 1;
    }
    false
}

/// Tests whether some modifier asks for a match of the whole text.
pub fn any_anchor(mods: &Vec<String>) -> (r: bool)
    ensures
        r == wants_anchor(texts(mods@)),
{
    let mut i: usize = 0;
    while i < mods.len()
        invariant
            i <= mods.len(),
            forall|j: int| 0 <= j < i ==> !is_anchor_word(#[trigger] texts(mods@)[j]),
        decreases mods.len() - i,
    {
        assert(texts(mods@)[i as int] == mods[i as int]@);
        if anchor_word(&chars_of(mods[i].as_str())) {
            return true;
        }
        i = i + 1;
    }
    false
}

/// Tests whether some modifier inverts the result.
pub fn any_negation(mods: &Vec<String>) -> (r: bool)
    ensures
        r == wants_negation(texts(mods@)),
{
    let mut i: usize = 0;
    while i < mods.len()
        invariant
            i <= mods.len(),
            forall|j: int| 0 <= j < i ==> !is_negation_word(#[trigger] texts(mods@)[j]),
        decreases mods.len() - i,
    {
        assert(texts(mods@)[i as int] == mods[i as int]@);
        if negation_word(&chars_of(mods[i].as_str())) {
            return true;
        }
        i = i + 1;
    }
    false
}

fn push_all(out: &mut Vec<char>, s: &Vec<char>)
    ensures
        final(out)@ == old(out)@ + s@,
{
    let mut i: usize = 0;
    while i < s.len()
        invariant
            i <= s.len(),
            out@ == old(out)@ + s@.take(i as int),
        decreases s.len() - i,
    {
        out.push(s[i]);
        assert(out@ =~= old(out)@ + s@.take(i + 1));
        i = i + 1;
    }
    assert(s@.take(i as int) =~= s@);
}

fn apply_modifiers(core: &Vec<char>, mods: &Vec<String>) -> (r: String)
    ensures
        r@ == with_modifiers(core@, texts(mods@)),
{
    let mut out: Vec<char> = Vec::new();
    let anchor = any_anchor(mods);
    if anchor {
        out.push('^');
    }
    if any_icase(mods) {
        push_all(&mut out, &chars_of("(?i)"));
    }
    push_all(&mut out, core);
    if anchor {
        out.push('$');
    }
    assert(out@ =~= with_modifiers(core@, texts(mods@)));
    let r = string_of(&out, 0, out.len());
    assert(out@.subrange(0, out.len() as int) =~= out@);
    r
}

/// The pattern text of the literal `s` under `mods`.
pub fn build_pattern_for_literal(s: &str, mods: &Vec<String>) -> (r: String)
    ensures
        r@ == literal_pattern(s@, texts(mods@)),
{
    let core = escape_literal(&chars_of(s));
    apply_modifiers(&core, mods)
}

/// The pattern text of the regular expression `s` under `mods`.
pub fn build_pattern_for_regex(s: &str, mods: &Vec<String>) -> (r: String)
    ensures
        r@ == expression_pattern(s@, texts(mods@)),
{
    let chars = chars_of(s);
    let core = group(&chars, 0, chars.len());
    assert(chars@.subrange(0, chars.len() as int) =~= chars@);
    apply_modifiers(&core, mods)
}

/// The pattern text of a field's term under `mods`.
pub fn build_pattern_for_term(term: &str, mods: &Vec<String>) -> (r: String)
    ensures
        r@ == term_pattern(term@, texts(mods@)),
{
    let chars = chars_of(term);
    let n = chars.len();
    if n >= 2 && chars[0] == '/' && chars[n - 1] == '/' {
        let core = group(&chars, 1, n - 1);
        apply_modifiers(&core, mods)
    } else {
        let core = escape_literal(&chars);
        apply_modifiers(&core, mods)
    }
}

} // verus!
