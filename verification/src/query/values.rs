//! How comparisons, ranges and functions judge a text.
//!
//! A comparison reads the text and its literal as integers where both are
//! integers, and as strings else. A range does the same for each of its
//! bounds.

use crate::query::ast::{texts, Bound, BoundModel, CompareOp};
use crate::text::{
    chars_equal, chars_equal_ignore_case, chars_less, chars_of, contains_chars, contains_text,
    decimal, decimal_chars, eq_ignore_case, int_model, lossy_text, parse_i128, parse_int,
    reads_well_formed, text_less, trim_chars, trimmed, utf8_lossy,
};
use vstd::prelude::*;

verus! {

/// The integer that a text writes, white space around it set aside.
pub open spec fn subject_number(text: Seq<u8>) -> Option<int> {
    parse_int(trimmed(utf8_lossy(text)))
}

/// How the integers `l` and `r` compare under `op`. `Contains` asks whether
/// the decimal text of `r` stands in that of `l`.
pub open spec fn compare_numbers(op: CompareOp, l: int, r: int) -> bool {
    match op {
        CompareOp::Eq => l == r,
        CompareOp::Contains => contains_text(decimal(l), decimal(r)),
        CompareOp::Smaller => l < r,
        CompareOp::SmallerEq => l <= r,
        CompareOp::Greater => l > r,
        CompareOp::GreaterEq => l >= r,
    }
}

/// How the strings `l` and `r` compare under `op`, in the order of strings.
pub open spec fn compare_texts(op: CompareOp, l: Seq<char>, r: Seq<char>) -> bool {
    match op {
        CompareOp::Eq => l == r,
        CompareOp::Contains => contains_text(l, r),
        CompareOp::Smaller => text_less(l, r),
        CompareOp::SmallerEq => !text_less(r, l),
        CompareOp::Greater => text_less(r, l),
        CompareOp::GreaterEq => !text_less(l, r),
    }
}

/// Whether a text stands in the relation `op` to the literal `value`.
pub open spec fn compare_matches(op: CompareOp, value: Seq<char>, text: Seq<u8>) -> bool {
    match (subject_number(text), parse_int(value)) {
        (Some(l), Some(r)) => compare_numbers(op, l, r),
        _ => compare_texts(op, utf8_lossy(text), value),
    }
}

/// Whether the integer `v` respects the lower bound. A bound whose literal
/// is no integer sets no limit.
pub open spec fn above_number(low: BoundModel, v: int) -> bool {
    match low {
        BoundModel::Inclusive(s) => match parse_int(s) {
            Some(l) => v >= l,
            None => true,
        },
        BoundModel::Exclusive(s) => match parse_int(s) {
            Some(l) => v > l,
            None => true,
        },
        BoundModel::Unbounded => true,
    }
}

/// Whether the integer `v` respects the upper bound.
pub open spec fn below_number(high: BoundModel, v: int) -> bool {
    match high {
        BoundModel::Inclusive(s) => match parse_int(s) {
            Some(h) => v <= h,
            None => true,
        },
        BoundModel::Exclusive(s) => match parse_int(s) {
            Some(h) => v < h,
            None => true,
        },
        BoundModel::Unbounded => true,
    }
}

/// Whether the string `t` respects the lower bound.
pub open spec fn above_text(low: BoundModel, t: Seq<char>) -> bool {
    match low {
        BoundModel::Inclusive(s) => !text_less(t, s),
        BoundModel::Exclusive(s) => text_less(s, t),
        BoundModel::Unbounded => true,
    }
}

/// Whether the string `t` respects the upper bound.
pub open spec fn below_text(high: BoundModel, t: Seq<char>) -> bool {
    match high {
        BoundModel::Inclusive(s) => !text_less(s, t),
        BoundModel::Exclusive(s) => text_less(t, s),
        BoundModel::Unbounded => true,
    }
}

/// Whether a text lies between the bounds: as an integer where it writes
/// one, as a string else.
pub open spec fn range_matches(low: BoundModel, high: BoundModel, text: Seq<u8>) -> bool {
    match subject_number(text) {
        Some(v) => above_number(low, v) && below_number(high, v),
        None => above_text(low, utf8_lossy(text)) && below_text(high, utf8_lossy(text)),
    }
}

/// The functions that test for a substring.
pub open spec fn is_contains_function(name: Seq<char>) -> bool {
    eq_ignore_case(name, "contains"@) || eq_ignore_case(name, "exists"@)
}

/// Whether a function holds of a text: `contains` and `exists` hold where
/// their first argument stands in the text; no other function ever holds.
pub open spec fn function_matches(name: Seq<char>, args: Seq<Seq<char>>, text: Seq<u8>) -> bool {
    is_contains_function(name) && args.len() > 0 && contains_text(utf8_lossy(text), args[0])
}

/// A comparison is numeric where both sides write integers, and a
/// comparison of strings else: a text that writes no integer, or a literal
/// that writes none, is compared in the order of strings.
pub proof fn lemma_comparison_policy(op: CompareOp, value: Seq<char>, text: Seq<u8>)
    ensures
        subject_number(text) is Some && parse_int(value) is Some ==> compare_matches(
            op,
            value,
            text,
        ) == compare_numbers(op, subject_number(text)->0, parse_int(value)->0),
        subject_number(text) is None || parse_int(value) is None ==> compare_matches(
            op,
            value,
            text,
        ) == compare_texts(op, utf8_lossy(text), value),
{
}

/// Reads the integer that `text` writes, white space around it set aside.
pub fn parse_number_from_bytes(text: &[u8]) -> (r: Option<i128>)
    ensures
        int_model(r) == subject_number(text@),
        reads_well_formed(text@),
{
    let s = lossy_text(text);
    let chars = chars_of(s.as_str());
    parse_i128(&trim_chars(&chars))
}

fn numbers_compare(op: CompareOp, l: i128, r: i128) -> (b: bool)
    ensures
        b == compare_numbers(op, l as int, r as int),
{
    match op {
        CompareOp::Eq => l == r,
        CompareOp::Contains => contains_chars(&decimal_chars(l), &decimal_chars(r)),
        CompareOp::Smaller => l < r,
        CompareOp::SmallerEq => l <= r,
        CompareOp::Greater => l > r,
        CompareOp::GreaterEq => l >= r,
    }
}

fn texts_compare(op: CompareOp, l: &Vec<char>, r: &Vec<char>) -> (b: bool)
    ensures
        b == compare_texts(op, l@, r@),
{
    match op {
        CompareOp::Eq => chars_equal(l, r),
        CompareOp::Contains => contains_chars(l, r),
        CompareOp::Smaller => chars_less(l, r),
        CompareOp::SmallerEq => !chars_less(r, l),
        CompareOp::Greater => chars_less(r, l),
        CompareOp::GreaterEq => !chars_less(l, r),
    }
}

/// Tests whether `text` stands in the relation `op` to the literal `value`.
pub fn compare_text(op: CompareOp, value: &str, text: &[u8]) -> (b: bool)
    ensures
        b == compare_matches(op, value@, text@),
        reads_well_formed(text@),
{
    let literal = chars_of(value);
    match (parse_number_from_bytes(text), parse_i128(&literal)) {
        (Some(l), Some(r)) => numbers_compare(op, l, r),
        _ => {
            let s = lossy_text(text);
            texts_compare(op, &chars_of(s.as_str()), &literal)
        },
    }
}

fn number_above(low: &Bound, v: i128) -> (b: bool)
    ensures
        b == above_number(low@, v as int),
{
    match low {
        Bound::Inclusive(s) => match parse_i128(&chars_of(s.as_str())) {
            Some(l) => v >= l,
            None => true,
        },
        Bound::Exclusive(s) => match parse_i128(&chars_of(s.as_str())) {
            Some(l) => v > l,
            None => true,
        },
        Bound::Unbounded => true,
    }
}

fn number_below(high: &Bound, v: i128) -> (b: bool)
    ensures
        b == below_number(high@, v as int),
{
    match high {
        Bound::Inclusive(s) => match parse_i128(&chars_of(s.as_str())) {
            Some(h) => v <= h,
            None => true,
        },
        Bound::Exclusive(s) => match parse_i128(&chars_of(s.as_str())) {
            Some(h) => v < h,
            None => true,
        },
        Bound::Unbounded => true,
    }
}

fn text_above(low: &Bound, t: &Vec<char>) -> (b: bool)
    ensures
        b == above_text(low@, t@),
{
    match low {
        Bound::Inclusive(s) => !chars_less(t, &chars_of(s.as_str())),
        Bound::Exclusive(s) => chars_less(&chars_of(s.as_str()), t),
        Bound::Unbounded => true,
    }
}

fn text_below(high: &Bound, t: &Vec<char>) -> (b: bool)
    ensures
        b == below_text(high@, t@),
{
    match high {
        Bound::Inclusive(s) => !chars_less(&chars_of(s.as_str()), t),
        Bound::Exclusive(s) => chars_less(t, &chars_of(s.as_str())),
        Bound::Unbounded => true,
    }
}

/// Tests whether `text` lies between the bounds.
pub fn range_text(low: &Bound, high: &Bound, text: &[u8]) -> (b: bool)
    ensures
        b == range_matches(low@, high@, text@),
        reads_well_formed(text@),
{
    match parse_number_from_bytes(text) {
        Some(v) => number_above(low, v) && number_below(high, v),
        None => {
            let s = lossy_text(text);
            let chars = chars_of(s.as_str());
            text_above(low, &chars) && text_below(high, &chars)
        },
    }
}

/// Tests whether `name` is one of the functions that test for a substring.
pub fn is_contains_name(name: &str) -> (b: bool)
    ensures
        b == is_contains_function(name@),
{
    let chars = chars_of(name);
    chars_equal_ignore_case(&chars, &chars_of("contains")) || chars_equal_ignore_case(
        &chars,
        &chars_of("exists"),
    )
}

/// Tests whether the function `name` holds of `text`.
pub fn function_text(name: &str, args: &Vec<String>, text: &[u8]) -> (b: bool)
    ensures
        b == function_matches(name@, texts(args@), text@),
{
    if is_contains_name(name) && args.len() > 0 {
        assert(texts(args@)[0] == args[0]@);
        let s = lossy_text(text);
        contains_chars(&chars_of(s.as_str()), &chars_of(args[0].as_str()))
    } else {
        false
    }
}

} // verus!
