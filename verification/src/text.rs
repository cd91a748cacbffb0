//! Character and string helpers shared by the query language and the matcher.

use vstd::prelude::*;
use vstd::utf8::{decode_utf8, valid_utf8};

verus! {

/// `String::push` appends one character to the end of the string.
pub assume_specification[ String::push ](s: &mut String, c: char)
    ensures
        final(s)@ == old(s)@.push(c),
;

/// The characters that carry the Unicode `White_Space` property.
pub open spec fn is_space(c: char) -> bool {
    let u = c as u32;
    ||| 0x09 <= u <= 0x0D
    ||| u == 0x20
    ||| u == 0x85
    ||| u == 0xA0
    ||| u == 0x1680
    ||| 0x2000 <= u <= 0x200A
    ||| u == 0x2028
    ||| u == 0x2029
    ||| u == 0x202F
    ||| u == 0x205F
    ||| u == 0x3000
}

/// Tells whether `c` is white space.
pub fn is_whitespace(c: char) -> (r: bool)
    ensures
        r == is_space(c),
{
    let u = c as u32;
    (0x09 <= u && u <= 0x0D) || u == 0x20 || u == 0x85 || u == 0xA0 || u == 0x1680 || (0x2000 <= u
        && u <= 0x200A) || u == 0x2028 || u == 0x2029 || u == 0x202F || u == 0x205F || u == 0x3000
}

/// The characters of `s`, in order.
pub fn chars_of(s: &str) -> (v: Vec<char>)
    ensures
        v@ == s@,
{
    let mut v: Vec<char> = Vec::new();
    for c in it: s.chars()
        invariant
            v@ == it.seq().take(it.index()),
            it.seq() == s@,
    {
        v.push(c);
    }
    v
}

/// The string made of `v[from..to]`.
pub fn string_of(v: &Vec<char>, from: usize, to: usize) -> (s: String)
    requires
        from <= to <= v.len(),
    ensures
        s@ == v@.subrange(from as int, to as int),
{
    let mut s = String::new();
    let mut i: usize = from;
    while i < to
        invariant
            from <= i <= to <= v.len(),
            s@ == v@.subrange(from as int, i as int),
        decreases to - i,
    {
        s.push(v[i]);
        i = i + 1;
    }
    s
}

/// The first position at or after `i` that holds no white space.
pub open spec fn skip_spaces(s: Seq<char>, i: int) -> int
    decreases s.len() - i,
{
    if 0 <= i < s.len() && is_space(s[i]) {
        skip_spaces(s, i + 1)
    } else {
        i
    }
}

/// The end of `s[..j]` once the white space at its end is taken off.
pub open spec fn skip_spaces_back(s: Seq<char>, j: int) -> int
    decreases j,
{
    if 0 < j <= s.len() && is_space(s[j - 1]) {
        skip_spaces_back(s, j - 1)
    } else {
        j
    }
}

/// `s` without the white space at its start and at its end.
pub open spec fn trimmed(s: Seq<char>) -> Seq<char> {
    let a = skip_spaces(s, 0);
    let b = skip_spaces_back(s, s.len() as int);
    if a <= b {
        s.subrange(a, b)
    } else {
        Seq::empty()
    }
}

/// Skipping white space ends within the text, at a character that is no
/// white space or at the end.
pub proof fn lemma_skip_spaces_bounds(s: Seq<char>, i: int)
    requires
        0 <= i <= s.len(),
    ensures
        i <= skip_spaces(s, i) <= s.len(),
        skip_spaces(s, i) < s.len() ==> !is_space(s[skip_spaces(s, i)]),
    decreases s.len() - i,
{
    if i < s.len() && is_space(s[i]) {
        lemma_skip_spaces_bounds(s, i + 1);
    }
}

/// `v` without the white space at its start and at its end.
pub fn trim_chars(v: &Vec<char>) -> (r: Vec<char>)
    ensures
        r@ == trimmed(v@),
{
    let mut a: usize = 0;
    while a < v.len() && is_whitespace(v[a])
        invariant
            a <= v.len(),
            skip_spaces(v@, a as int) == skip_spaces(v@, 0),
        decreases v.len() - a,
    {
        a = a + 1;
    }
    let mut b: usize = v.len();
    while b > 0 && is_whitespace(v[b - 1])
        invariant
            b <= v.len(),
            skip_spaces_back(v@, b as int) == skip_spaces_back(v@, v.len() as int),
        decreases b,
    {
        b = b - 1;
    }
    let mut out: Vec<char> = Vec::new();
    if a <= b {
        let mut i: usize = a;
        while i < b
            invariant
                a <= i <= b <= v.len(),
                out@ == v@.subrange(a as int, i as int),
            decreases b - i,
        {
            out.push(v[i]);
            i = i + 1;
        }
    }
    out
}

/// Whether `needle` stands in `hay` at position `i`.
pub open spec fn occurs_at(hay: Seq<char>, needle: Seq<char>, i: int) -> bool {
    0 <= i && i + needle.len() <= hay.len() && hay.subrange(i, i + needle.len()) == needle
}

/// Whether `needle` stands somewhere in `hay`.
pub open spec fn contains_text(hay: Seq<char>, needle: Seq<char>) -> bool {
    exists|i: int| occurs_at(hay, needle, i)
}

fn matches_at(hay: &Vec<char>, needle: &Vec<char>, i: usize) -> (r: bool)
    requires
        i + needle.len() <= hay.len(),
    ensures
        r == occurs_at(hay@, needle@, i as int),
{
    let mut k: usize = 0;
    while k < needle.len()
        invariant
            k <= needle.len(),
            i + needle.len() <= hay.len(),
            forall|j: int| 0 <= j < k ==> hay[i + j] == needle[j],
        decreases needle.len() - k,
    {
        if hay[i + k] != needle[k] {
            proof {
                let sub = hay@.subrange(i as int, i + needle.len());
                assert(sub[k as int] == hay[i + k]);
            }
            return false;
        }
        k = k + 1;
    }
    assert(hay@.subrange(i as int, i + needle.len()) =~= needle@);
    true
}

/// Tests whether `needle` stands somewhere in `hay`.
pub fn contains_chars(hay: &Vec<char>, needle: &Vec<char>) -> (r: bool)
    ensures
        r == contains_text(hay@, needle@),
{
    if needle.len() > hay.len() {
        return false;
    }
    let last = hay.len() - needle.len();
    let mut i: usize = 0;
    loop
        invariant
            i <= last,
            last == hay.len() - needle.len(),
            forall|j: int| 0 <= j < i ==> !occurs_at(hay@, needle@, j),
        decreases last - i,
    {
        if matches_at(hay, needle, i) {
            return true;
        }
        if i == last {
            return false;
        }
        i = i + 1;
    }
}

/// The length of the longest common prefix of `a[i..]` and `b[i..]`, counted
/// from the start of both.
pub open spec fn common_prefix(a: Seq<char>, b: Seq<char>, i: int) -> int
    decreases a.len() - i,
{
    if 0 <= i < a.len() && i < b.len() && a[i] == b[i] {
        common_prefix(a, b, i + 1)
    } else {
        i
    }
}

/// `a` comes before `b` in the order of strings: at the first place where
/// they differ `a` holds the smaller code point, or `a` is a proper prefix of
/// `b`.
pub open spec fn text_less(a: Seq<char>, b: Seq<char>) -> bool {
    let k = common_prefix(a, b, 0);
    if k < a.len() && k < b.len() {
        (a[k] as u32) < (b[k] as u32)
    } else {
        a.len() < b.len()
    }
}

fn common_prefix_len(a: &Vec<char>, b: &Vec<char>) -> (k: usize)
    ensures
        k == common_prefix(a@, b@, 0),
        k <= a.len(),
        k <= b.len(),
        k == a.len() && k == b.len() ==> a@ == b@,
        k < a.len() && k < b.len() ==> a[k as int] != b[k as int],
{
    let mut k: usize = 0;
    while k < a.len() && k < b.len() && a[k] == b[k]
        invariant
            k <= a.len(),
            k <= b.len(),
            common_prefix(a@, b@, k as int) == common_prefix(a@, b@, 0),
            forall|j: int| 0 <= j < k ==> a[j] == b[j],
        decreases a.len() - k,
    {
        k = k + 1;
    }
    proof {
        if k == a.len() && k == b.len() {
            assert(a@ =~= b@);
        }
    }
    k
}

/// Tests whether `a` and `b` hold the same characters.
pub fn chars_equal(a: &Vec<char>, b: &Vec<char>) -> (r: bool)
    ensures
        r == (a@ == b@),
{
    let k = common_prefix_len(a, b);
    k == a.len() && k == b.len()
}

/// Tests whether two strings hold the same characters.
pub fn same_text(a: &str, b: &str) -> (r: bool)
    ensures
        r == (a@ == b@),
{
    chars_equal(&chars_of(a), &chars_of(b))
}

/// Tests whether `a` comes before `b` in the order of strings.
pub fn chars_less(a: &Vec<char>, b: &Vec<char>) -> (r: bool)
    ensures
        r == text_less(a@, b@),
{
    let k = common_prefix_len(a, b);
    if k < a.len() && k < b.len() {
        (a[k] as u32) < (b[k] as u32)
    } else {
        a.len() < b.len()
    }
}

/// The lower-case form of an ASCII letter, and any other character as it is.
pub open spec fn ascii_lower(c: char) -> char {
    if 0x41 <= c as u32 <= 0x5A {
        ((c as u32) + 0x20) as char
    } else {
        c
    }
}

/// `a` and `b` are equal but for the case of ASCII letters.
pub open spec fn eq_ignore_case(a: Seq<char>, b: Seq<char>) -> bool {
    a.len() == b.len() && forall|i: int| 0 <= i < a.len() ==> ascii_lower(a[i]) == ascii_lower(b[i])
}

fn to_ascii_lower(c: char) -> (r: char)
    ensures
        r == ascii_lower(c),
{
    let u = c as u32;
    if 0x41 <= u && u <= 0x5A {
        ((u as u8) + 0x20) as char
    } else {
        c
    }
}

/// Tests whether `a` and `b` are equal but for the case of ASCII letters.
pub fn chars_equal_ignore_case(a: &Vec<char>, b: &Vec<char>) -> (r: bool)
    ensures
        r == eq_ignore_case(a@, b@),
{
    if a.len() != b.len() {
        return false;
    }
    let mut i: usize = 0;
    while i < a.len()
        invariant
            i <= a.len(),
            a.len() == b.len(),
            forall|j: int| 0 <= j < i ==> ascii_lower(a[j]) == ascii_lower(b[j]),
        decreases a.len() - i,
    {
        if to_ascii_lower(a[i]) != to_ascii_lower(b[i]) {
            return false;
        }
        i = i + 1;
    }
    true
}

/// `s` starts with `prefix`.
pub open spec fn has_prefix(s: Seq<char>, prefix: Seq<char>) -> bool {
    occurs_at(s, prefix, 0)
}

/// Tests whether `s` starts with `prefix`.
pub fn chars_start_with(s: &Vec<char>, prefix: &Vec<char>) -> (r: bool)
    ensures
        r == has_prefix(s@, prefix@),
{
    if prefix.len() > s.len() {
        return false;
    }
    matches_at(s, prefix, 0)
}

/// An ASCII digit.
pub open spec fn is_digit(c: char) -> bool {
    0x30 <= c as u32 <= 0x39
}

/// Every character of `s` is an ASCII digit.
pub open spec fn all_digits(s: Seq<char>) -> bool {
    forall|i: int| 0 <= i < s.len() ==> is_digit(#[trigger] s[i])
}

/// The number that the digits of `s` write in base ten.
pub open spec fn digits_value(s: Seq<char>) -> int
    decreases s.len(),
{
    if s.len() == 0 {
        0
    } else {
        digits_value(s.drop_last()) * 10 + (s.last() as u32 - 0x30)
    }
}

/// The integer that `s` writes: an optional sign, then one digit or more.
/// `None` where `s` is not of that form or the integer does not fit in 128
/// bits with sign.
pub open spec fn parse_int(s: Seq<char>) -> Option<int> {
    let negative = s.len() > 0 && s[0] == '-';
    let signed = s.len() > 0 && (s[0] == '-' || s[0] == '+');
    let body = if signed {
        s.subrange(1, s.len() as int)
    } else {
        s
    };
    let value = if negative {
        -digits_value(body)
    } else {
        digits_value(body)
    };
    if body.len() > 0 && all_digits(body) && i128::MIN <= value <= i128::MAX {
        Some(value)
    } else {
        None
    }
}

/// The value of an optional 128-bit integer.
pub open spec fn int_model(r: Option<i128>) -> Option<int> {
    match r {
        Some(v) => Some(v as int),
        None => None,
    }
}

proof fn lemma_digits_value_prefix(s: Seq<char>, k: int)
    requires
        0 <= k <= s.len(),
        all_digits(s),
    ensures
        0 <= digits_value(s.take(k)) <= digits_value(s),
    decreases s.len() - k,
{
    lemma_digits_value_nonnegative(s.take(k));
    if k < s.len() {
        lemma_digits_value_prefix(s, k + 1);
        assert(s.take(k + 1).drop_last() =~= s.take(k));
    } else {
        assert(s.take(k) =~= s);
    }
}

proof fn lemma_digits_value_nonnegative(s: Seq<char>)
    requires
        all_digits(s),
    ensures
        0 <= digits_value(s),
    decreases s.len(),
{
    if s.len() > 0 {
        lemma_digits_value_nonnegative(s.drop_last());
    }
}

/// Reads an integer of 128 bits with sign.
pub fn parse_i128(v: &Vec<char>) -> (r: Option<i128>)
    ensures
        int_model(r) == parse_int(v@),
{
    let n = v.len();
    let negative = n > 0 && v[0] == '-';
    let signed = n > 0 && (v[0] == '-' || v[0] == '+');
    let start: usize = if signed {
        1
    } else {
        0
    };
    if start == n {
        return None;
    }
    let ghost body = if signed {
        v@.subrange(1, n as int)
    } else {
        v@
    };
    assert(body =~= v@.subrange(start as int, n as int));
    let limit: u128 = if negative {
        0x8000_0000_0000_0000_0000_0000_0000_0000
    } else {
        0x7fff_ffff_ffff_ffff_ffff_ffff_ffff_ffff
    };
    let mut acc: u128 = 0;
    let mut i: usize = start;
    while i < n
        invariant
            start <= i <= n,
            n == v.len(),
            body == v@.subrange(start as int, n as int),
            body == if signed {
                v@.subrange(1, n as int)
            } else {
                v@
            },
            negative == (n > 0 && v[0] == '-'),
            signed == (n > 0 && (v[0] == '-' || v[0] == '+')),
            limit == if negative {
                0x8000_0000_0000_0000_0000_0000_0000_0000u128
            } else {
                0x7fff_ffff_ffff_ffff_ffff_ffff_ffff_ffffu128
            },
            all_digits(body.take(i - start)),
            acc == digits_value(body.take(i - start)),
            acc <= limit,
            limit <= 0x8000_0000_0000_0000_0000_0000_0000_0000,
        decreases n - i,
    {
        let u = v[i] as u32;
        assert(body[i - start] == v[i as int]);
        if u < 0x30 || u > 0x39 {
            assert(!is_digit(body[i - start]));
            return None;
        }
        let d = (u - 0x30) as u128;
        proof {
            let next = body.take(i - start + 1);
            assert(next.drop_last() =~= body.take(i - start));
            assert(next.last() == v[i as int]);
            assert(all_digits(next)) by {
                assert forall|j: int| 0 <= j < next.len() implies is_digit(#[trigger] next[j]) by {
                    if j < next.len() - 1 {
                        assert(next[j] == body.take(i - start)[j]);
                    }
                }
            }
            assert(digits_value(next) == acc * 10 + d);
            if all_digits(body) {
                lemma_digits_value_prefix(body, i - start + 1);
            }
        }
        if acc > limit / 10 || d > limit - acc * 10 {
            assert(acc * 10 + d > limit);
            assert(all_digits(body) ==> digits_value(body) > limit);
            return None;
        }
        acc = acc * 10 + d;
        i = i + 1;
    }
    assert(body.take(n - start) =~= body);
    if negative {
        if acc == 0x8000_0000_0000_0000_0000_0000_0000_0000 {
            Some(i128::MIN)
        } else {
            Some(-(acc as i128))
        }
    } else {
        Some(acc as i128)
    }
}

/// The character that writes the digit `d`.
pub open spec fn digit_char(d: nat) -> char {
    ((0x30 + d) as u32) as char
}

/// The digits of `n` in base ten, without leading zeros.
pub open spec fn digits_of(n: nat) -> Seq<char>
    decreases n,
{
    if n < 10 {
        seq![digit_char(n)]
    } else {
        digits_of(n / 10).push(digit_char(n % 10))
    }
}

/// The decimal text of an integer, with a minus sign where it is negative.
pub open spec fn decimal(v: int) -> Seq<char> {
    if v < 0 {
        seq!['-'] + digits_of((-v) as nat)
    } else {
        digits_of(v as nat)
    }
}

/// Appends the digits of `n` to `out`.
pub fn push_digits(n: u128, out: &mut Vec<char>)
    ensures
        final(out)@ == old(out)@ + digits_of(n as nat),
    decreases n,
{
    if n >= 10 {
        push_digits(n / 10, out);
    }
    let d = (n % 10) as u8;
    out.push((0x30 + d) as char);
    proof {
        if n < 10 {
            assert(final(out)@ =~= old(out)@ + digits_of(n as nat));
        } else {
            assert(final(out)@ =~= old(out)@ + digits_of(n as nat));
        }
    }
}

/// The decimal text of `v`.
pub fn decimal_chars(v: i128) -> (r: Vec<char>)
    ensures
        r@ == decimal(v as int),
{
    let mut out: Vec<char> = Vec::new();
    if v < 0 {
        out.push('-');
        let magnitude: u128 = if v == i128::MIN {
            0x8000_0000_0000_0000_0000_0000_0000_0000
        } else {
            (-v) as u128
        };
        push_digits(magnitude, &mut out);
        assert(out@ =~= seq!['-'] + digits_of((-v) as nat));
    } else {
        push_digits(v as u128, &mut out);
        assert(out@ =~= digits_of(v as nat));
    }
    out
}

/// Well-formed UTF-8 is read as the text it encodes.
pub open spec fn reads_well_formed(bytes: Seq<u8>) -> bool {
    valid_utf8(bytes) ==> utf8_lossy(bytes) == decode_utf8(bytes)
}

/// What `String::from_utf8_lossy` makes of a byte string: its text, each
/// ill-formed part replaced by U+FFFD.
pub uninterp spec fn utf8_lossy(bytes: Seq<u8>) -> Seq<char>;

/// What `str::to_lowercase` makes of a text: its lower-case form under the
/// Unicode case mappings.
pub uninterp spec fn lowercased(s: Seq<char>) -> Seq<char>;

/// `String::from_utf8_lossy`: the text of a byte string. Well-formed UTF-8
/// decodes to the text it encodes.
#[verifier::external_body]
pub(crate) fn lossy_text(bytes: &[u8]) -> (r: String)
    ensures
        r@ == utf8_lossy(bytes@),
        valid_utf8(bytes@) ==> r@ == decode_utf8(bytes@),
{
    String::from_utf8_lossy(bytes).into_owned()
}

/// `str::to_lowercase`.
#[verifier::external_body]
pub(crate) fn lowercase_text(s: &str) -> (r: String)
    ensures
        r@ == lowercased(s@),
{
    s.to_lowercase()
}

} // verus!
