//! From byte ranges to highlight coordinates.
//!
//! A capture range counts bytes of UTF-8 and may start or end inside a
//! grapheme cluster. A renderer counts UTF-16 code units and must not split a
//! cluster. [`byte_range_to_utf16_bounds`] widens a byte range to the cluster
//! boundaries around it and counts the code units in front of each end.

use crate::text::chars_of;
use unicode_segmentation::UnicodeSegmentation;
use vstd::prelude::*;
use vstd::utf8::{encode_scalar, encode_utf8};

verus! {

/// The byte offsets at which the extended grapheme clusters of a text start,
/// as the `unicode-segmentation` crate finds them.
pub uninterp spec fn grapheme_starts(text: Seq<char>) -> Seq<usize>;

/// `UnicodeSegmentation::grapheme_indices` with extended clusters: the byte
/// offset of each cluster of the text, in the order of the clusters.
#[verifier::external_body]
fn grapheme_offsets(text: &str) -> (r: Vec<usize>)
    ensures
        r@ == grapheme_starts(text@),
{
    text.grapheme_indices(true).map(|(i, _)| i).collect()
}

/// The number of bytes that a character takes in UTF-8.
pub open spec fn utf8_width(c: char) -> nat {
    let u = c as u32;
    if u < 0x80 {
        1
    } else if u < 0x800 {
        2
    } else if u < 0x10000 {
        3
    } else {
        4
    }
}

/// The number of code units that a character takes in UTF-16.
pub open spec fn utf16_width(c: char) -> nat {
    if (c as u32) < 0x10000 {
        1
    } else {
        2
    }
}

/// The number of bytes that a text takes in UTF-8.
pub open spec fn byte_len(chars: Seq<char>) -> nat {
    encode_utf8(chars).len()
}

/// The number of code units that a text takes in UTF-16.
pub open spec fn unit_len(chars: Seq<char>) -> nat
    decreases chars.len(),
{
    if chars.len() == 0 {
        0
    } else {
        unit_len(chars.drop_last()) + utf16_width(chars.last())
    }
}

/// How many characters from the start of a text end within its first `k`
/// bytes.
pub open spec fn chars_within(chars: Seq<char>, k: int) -> nat
    decreases chars.len(),
{
    if chars.len() == 0 {
        0
    } else if byte_len(chars) <= k {
        chars.len()
    } else {
        chars_within(chars.drop_last(), k)
    }
}

/// The number of UTF-16 code units of the characters that end within the
/// first `k` bytes of a text.
pub open spec fn units_before(chars: Seq<char>, k: int) -> nat {
    unit_len(chars.take(chars_within(chars, k) as int))
}

/// The greatest of the boundaries that is no greater than `x`, or 0 where
/// there is none.
pub open spec fn boundary_at_or_before(bounds: Seq<usize>, x: usize) -> usize
    decreases bounds.len(),
{
    if bounds.len() == 0 {
        0
    } else {
        let rest = boundary_at_or_before(bounds.drop_last(), x);
        if bounds.last() <= x && bounds.last() > rest {
            bounds.last()
        } else {
            rest
        }
    }
}

/// The least of the boundaries that is no less than `x`, or `len` where
/// there is none.
pub open spec fn boundary_at_or_after(bounds: Seq<usize>, x: usize, len: usize) -> usize
    decreases bounds.len(),
{
    if bounds.len() == 0 {
        len
    } else {
        let rest = boundary_at_or_after(bounds.drop_last(), x, len);
        if bounds.last() >= x && bounds.last() < rest {
            bounds.last()
        } else {
            rest
        }
    }
}

/// The range in UTF-16 code units that stands for the byte range
/// `start..end` of a text whose grapheme clusters start at `starts`: `start`
/// is moved down to the boundary at or before it and `end` up to the boundary
/// at or after it, the end of the text being a boundary too; each is then
/// replaced by the number of code units in front of it.
pub open spec fn map_range(chars: Seq<char>, starts: Seq<usize>, start: usize, end: usize) -> (
    usize,
    usize,
) {
    let len = byte_len(chars) as usize;
    let bounds = starts.push(len);
    (
        units_before(chars, boundary_at_or_before(bounds, start) as int) as usize,
        units_before(chars, boundary_at_or_after(bounds, end, len) as int) as usize,
    )
}

/// `x` is one of the boundaries.
pub open spec fn is_boundary(bounds: Seq<usize>, x: usize) -> bool {
    exists|i: int| 0 <= i < bounds.len() && bounds[i] == x
}

/// The boundary at or before `x` is a boundary, or 0; it is no greater than
/// `x`; and no boundary lies between it and `x`.
pub proof fn lemma_boundary_at_or_before(bounds: Seq<usize>, x: usize)
    ensures
        boundary_at_or_before(bounds, x) == 0 || is_boundary(
            bounds,
            boundary_at_or_before(bounds, x),
        ),
        boundary_at_or_before(bounds, x) <= x,
        forall|i: int|
            0 <= i < bounds.len() && #[trigger] bounds[i] <= x ==> bounds[i]
                <= boundary_at_or_before(bounds, x),
    decreases bounds.len(),
{
    if bounds.len() > 0 {
        let front = bounds.drop_last();
        lemma_boundary_at_or_before(front, x);
        let rest = boundary_at_or_before(front, x);
        let out = boundary_at_or_before(bounds, x);
        if out != 0 {
            if out == bounds.last() {
                assert(bounds[bounds.len() - 1] == out);
            } else {
                let i = choose|i: int| 0 <= i < front.len() && front[i] == rest;
                assert(bounds[i] == out);
            }
        }
        assert forall|i: int| 0 <= i < bounds.len() && #[trigger] bounds[i] <= x implies bounds[i]
            <= out by {
            if i < front.len() {
                assert(front[i] == bounds[i]);
            }
        }
    }
}

/// The boundary at or after `x` is a boundary, or `len`; it is no less than
/// `x` where `len` is no less than `x`; and no boundary lies between `x` and
/// it.
pub proof fn lemma_boundary_at_or_after(bounds: Seq<usize>, x: usize, len: usize)
    ensures
        boundary_at_or_after(bounds, x, len) == len || is_boundary(
            bounds,
            boundary_at_or_after(bounds, x, len),
        ),
        x <= len ==> x <= boundary_at_or_after(bounds, x, len),
        boundary_at_or_after(bounds, x, len) <= len,
        forall|i: int|
            0 <= i < bounds.len() && #[trigger] bounds[i] >= x ==> bounds[i]
                >= boundary_at_or_after(bounds, x, len),
    decreases bounds.len(),
{
    if bounds.len() > 0 {
        let front = bounds.drop_last();
        lemma_boundary_at_or_after(front, x, len);
        let rest = boundary_at_or_after(front, x, len);
        let out = boundary_at_or_after(bounds, x, len);
        if out != len {
            if out == bounds.last() {
                assert(bounds[bounds.len() - 1] == out);
            } else {
                let i = choose|i: int| 0 <= i < front.len() && front[i] == rest;
                assert(bounds[i] == out);
            }
        }
        assert forall|i: int| 0 <= i < bounds.len() && #[trigger] bounds[i] >= x implies bounds[i]
            >= out by {
            if i < front.len() {
                assert(front[i] == bounds[i]);
            }
        }
    }
}

proof fn lemma_scalar_width(c: char)
    ensures
        encode_scalar(c as u32).len() == utf8_width(c),
{
}

proof fn lemma_byte_len_push(s: Seq<char>, c: char)
    ensures
        byte_len(s.push(c)) == byte_len(s) + utf8_width(c),
    decreases s.len(),
{
    let t = s.push(c);
    lemma_scalar_width(c);
    if s.len() == 0 {
        assert(t.drop_first() =~= Seq::<char>::empty());
        assert(encode_utf8(t.drop_first()).len() == 0);
        assert(t[0] == c);
    } else {
        assert(t.drop_first() =~= s.drop_first().push(c));
        assert(t[0] == s[0]);
        lemma_byte_len_push(s.drop_first(), c);
    }
}

proof fn lemma_chars_within_bounds(chars: Seq<char>, k: int)
    ensures
        chars_within(chars, k) <= chars.len(),
    decreases chars.len(),
{
    if chars.len() > 0 && byte_len(chars) > k {
        lemma_chars_within_bounds(chars.drop_last(), k);
    }
}

proof fn lemma_units_before_step(chars: Seq<char>, i: int, k: int)
    requires
        0 <= i < chars.len(),
    ensures
        byte_len(chars.take(i + 1)) == byte_len(chars.take(i)) + utf8_width(chars[i]),
        unit_len(chars.take(i + 1)) == unit_len(chars.take(i)) + utf16_width(chars[i]),
        units_before(chars.take(i + 1), k) == if byte_len(chars.take(i + 1)) <= k {
            unit_len(chars.take(i + 1))
        } else {
            units_before(chars.take(i), k)
        },
{
    let shorter = chars.take(i);
    let longer = chars.take(i + 1);
    assert(longer =~= shorter.push(chars[i]));
    assert(longer.drop_last() =~= shorter);
    lemma_byte_len_push(shorter, chars[i]);
    if byte_len(longer) <= k {
        assert(longer.take(longer.len() as int) =~= longer);
    } else {
        let n = chars_within(shorter, k);
        lemma_chars_within_bounds(shorter, k);
        assert(longer.take(n as int) =~= shorter.take(n as int));
    }
}

/// The units in front of a boundary are no more than the bytes in front of
/// it, and no more than the units of the whole text.
proof fn lemma_units_before_bound(chars: Seq<char>, k: int)
    requires
        0 <= k,
    ensures
        units_before(chars, k) <= k,
        units_before(chars, k) <= unit_len(chars),
        byte_len(chars) <= k ==> units_before(chars, k) == unit_len(chars),
        unit_len(chars) <= byte_len(chars),
    decreases chars.len(),
{
    if chars.len() > 0 {
        let front = chars.drop_last();
        lemma_units_before_bound(front, k);
        assert(chars =~= front.push(chars.last()));
        lemma_byte_len_push(front, chars.last());
        if byte_len(chars) <= k {
            assert(chars.take(chars.len() as int) =~= chars);
        } else {
            let n = chars_within(front, k);
            lemma_chars_within_bounds(front, k);
            assert(chars.take(n as int) =~= front.take(n as int));
        }
    } else {
        assert(chars.take(0) =~= chars);
    }
}

/// More bytes have no fewer code units in front of them.
pub proof fn lemma_units_before_monotone(chars: Seq<char>, j: int, k: int)
    requires
        0 <= j <= k,
    ensures
        units_before(chars, j) <= units_before(chars, k),
    decreases chars.len(),
{
    if chars.len() > 0 {
        let front = chars.drop_last();
        lemma_units_before_monotone(front, j, k);
        lemma_chars_within_bounds(front, j);
        lemma_chars_within_bounds(front, k);
        lemma_units_before_bound(front, j);
        assert(chars.take(chars.len() as int) =~= chars);
        assert(chars.take(chars_within(front, j) as int) =~= front.take(
            chars_within(front, j) as int,
        ));
        assert(chars.take(chars_within(front, k) as int) =~= front.take(
            chars_within(front, k) as int,
        ));
        assert(unit_len(chars) == unit_len(front) + utf16_width(chars.last()));
    }
}

/// A mapped range never splits a grapheme cluster. Each end of the mapped
/// range counts the code units in front of a cluster boundary (the start of
/// the text and its end being boundaries too); the boundaries enclose the
/// byte range, as tightly as boundaries can; and the mapped range is in
/// order. This holds of every list of boundaries, and of every byte range
/// `start <= end` within the text.
pub proof fn lemma_mapped_range_is_cluster_aligned(
    chars: Seq<char>,
    starts: Seq<usize>,
    start: usize,
    end: usize,
)
    requires
        byte_len(chars) <= usize::MAX,
        start <= end <= byte_len(chars),
    ensures
        ({
            let len = byte_len(chars) as usize;
            let bounds = starts.push(len);
            let low = boundary_at_or_before(bounds, start);
            let high = boundary_at_or_after(bounds, end, len);
            &&& map_range(chars, starts, start, end) == (
                units_before(chars, low as int) as usize,
                units_before(chars, high as int) as usize,
            )
            &&& low == 0 || is_boundary(bounds, low)
            &&& is_boundary(bounds, high)
            &&& low <= start <= end <= high <= len
            &&& forall|i: int| 0 <= i < bounds.len() ==> !(low < #[trigger] bounds[i] <= start)
            &&& forall|i: int| 0 <= i < bounds.len() ==> !(end <= #[trigger] bounds[i] < high)
            &&& map_range(chars, starts, start, end).0 <= map_range(chars, starts, start, end).1
        }),
{
    let len = byte_len(chars) as usize;
    let bounds = starts.push(len);
    let low = boundary_at_or_before(bounds, start);
    let high = boundary_at_or_after(bounds, end, len);
    lemma_boundary_at_or_before(bounds, start);
    lemma_boundary_at_or_after(bounds, end, len);
    assert(bounds[bounds.len() - 1] == len);
    assert(is_boundary(bounds, len));
    lemma_units_before_monotone(chars, low as int, high as int);
    lemma_units_before_bound(chars, low as int);
    lemma_units_before_bound(chars, high as int);
}

/// `units` is the number of UTF-16 code units of some whole characters from
/// the start of the text.
pub open spec fn is_character_end(chars: Seq<char>, units: int) -> bool {
    exists|n: int| 0 <= n <= chars.len() && #[trigger] unit_len(chars.take(n)) == units
}

/// A mapped range splits no character: whatever the boundaries and the byte
/// range, each end of the mapped range stands behind a whole number of
/// characters, so never between the two halves of a surrogate pair, and
/// neither lies beyond the end of the text.
pub proof fn lemma_mapped_range_splits_no_character(
    chars: Seq<char>,
    starts: Seq<usize>,
    start: usize,
    end: usize,
)
    requires
        byte_len(chars) <= usize::MAX,
    ensures
        is_character_end(chars, map_range(chars, starts, start, end).0 as int),
        is_character_end(chars, map_range(chars, starts, start, end).1 as int),
        map_range(chars, starts, start, end).0 <= unit_len(chars),
        map_range(chars, starts, start, end).1 <= unit_len(chars),
{
    let len = byte_len(chars) as usize;
    let bounds = starts.push(len);
    let low = boundary_at_or_before(bounds, start);
    let high = boundary_at_or_after(bounds, end, len);
    lemma_units_before_bound(chars, low as int);
    lemma_units_before_bound(chars, high as int);
    lemma_chars_within_bounds(chars, low as int);
    lemma_chars_within_bounds(chars, high as int);
    assert(unit_len(chars.take(chars_within(chars, low as int) as int)) == units_before(
        chars,
        low as int,
    ));
    assert(unit_len(chars.take(chars_within(chars, high as int) as int)) == units_before(
        chars,
        high as int,
    ));
}

proof fn lemma_unit_len_grows(chars: Seq<char>, m: int, n: int)
    requires
        0 <= m < n <= chars.len(),
    ensures
        unit_len(chars.take(m)) < unit_len(chars.take(n)),
        byte_len(chars.take(m)) < byte_len(chars.take(n)),
    decreases n - m,
{
    assert(chars.take(n).drop_last() =~= chars.take(n - 1));
    assert(chars.take(n) =~= chars.take(n - 1).push(chars[n - 1]));
    lemma_byte_len_push(chars.take(n - 1), chars[n - 1]);
    if m < n - 1 {
        lemma_unit_len_grows(chars, m, n - 1);
    }
}

proof fn lemma_chars_within_is_greatest(chars: Seq<char>, k: int, n: int)
    requires
        0 <= n <= chars.len(),
        byte_len(chars.take(n)) <= k,
    ensures
        n <= chars_within(chars, k) <= chars.len(),
        byte_len(chars.take(chars_within(chars, k) as int)) <= k || chars_within(chars, k) == 0,
    decreases chars.len(),
{
    if chars.len() > 0 {
        if byte_len(chars) <= k {
            assert(chars.take(chars.len() as int) =~= chars);
        } else {
            let front = chars.drop_last();
            if n == chars.len() {
                assert(chars.take(n) =~= chars);
            }
            assert(front.take(n) =~= chars.take(n));
            lemma_chars_within_is_greatest(front, k, n);
            assert(chars.take(chars_within(front, k) as int) =~= front.take(
                chars_within(front, k) as int,
            ));
        }
    }
}

/// Where the boundaries are ends of characters, as cluster boundaries are, a
/// byte range that is not empty maps to a range that is not empty: if the
/// boundary at or after `end` is the end of some character, the mapped range
/// of `start < end` holds at least one code unit.
pub proof fn lemma_mapped_range_is_not_empty(
    chars: Seq<char>,
    starts: Seq<usize>,
    start: usize,
    end: usize,
    n: int,
)
    requires
        byte_len(chars) <= usize::MAX,
        start < end <= byte_len(chars),
        0 <= n <= chars.len(),
        byte_len(chars.take(n)) == boundary_at_or_after(
            starts.push(byte_len(chars) as usize),
            end,
            byte_len(chars) as usize,
        ),
    ensures
        map_range(chars, starts, start, end).0 < map_range(chars, starts, start, end).1,
{
    let len = byte_len(chars) as usize;
    let bounds = starts.push(len);
    let low = boundary_at_or_before(bounds, start);
    let high = boundary_at_or_after(bounds, end, len);
    lemma_boundary_at_or_before(bounds, start);
    lemma_boundary_at_or_after(bounds, end, len);
    lemma_units_before_bound(chars, low as int);
    lemma_units_before_bound(chars, high as int);
    lemma_chars_within_bounds(chars, low as int);
    let m = chars_within(chars, low as int) as int;
    assert(chars.take(0) =~= Seq::<char>::empty());
    lemma_chars_within_is_greatest(chars, low as int, 0);
    lemma_chars_within_is_greatest(chars, high as int, n);
    let top = chars_within(chars, high as int) as int;
    // the characters within `low` end before `high`, so they are fewer than `n`
    if m >= n {
        if m > n {
            lemma_unit_len_grows(chars, n, m);
        }
        assert(byte_len(chars.take(m)) >= byte_len(chars.take(n)));
        assert(m == 0 || byte_len(chars.take(m)) <= low);
    }
    assert(m < n);
    lemma_unit_len_grows(chars, m, n);
    if n < top {
        lemma_unit_len_grows(chars, n, top);
    }
}

fn width_utf8(c: char) -> (w: usize)
    ensures
        w == utf8_width(c),
{
    let u = c as u32;
    if u < 0x80 {
        1
    } else if u < 0x800 {
        2
    } else if u < 0x10000 {
        3
    } else {
        4
    }
}

fn width_utf16(c: char) -> (w: usize)
    ensures
        w == utf16_width(c),
{
    if (c as u32) < 0x10000 {
        1
    } else {
        2
    }
}

fn widen(starts: &Vec<usize>, start: usize, end: usize, len: usize) -> (r: (usize, usize))
    ensures
        r.0 == boundary_at_or_before(starts@.push(len), start),
        r.1 == boundary_at_or_after(starts@.push(len), end, len),
{
    let mut low: usize = 0;
    let mut high: usize = len;
    let mut i: usize = 0;
    while i < starts.len()
        invariant
            i <= starts.len(),
            low == boundary_at_or_before(starts@.take(i as int), start),
            high == boundary_at_or_after(starts@.take(i as int), end, len),
        decreases starts.len() - i,
    {
        proof {
            assert(starts@.take(i + 1).drop_last() =~= starts@.take(i as int));
        }
        let b = starts[i];
        if b <= start && b > low {
            low = b;
        }
        if b >= end && b < high {
            high = b;
        }
        i = i + 1;
    }
    proof {
        assert(starts@.take(i as int) =~= starts@);
        assert(starts@.push(len).drop_last() =~= starts@);
    }
    if len <= start && len > low {
        low = len;
    }
    if len >= end && len < high {
        high = len;
    }
    (low, high)
}

fn count_units(chars: &Vec<char>, low: usize, high: usize) -> (r: (usize, usize))
    requires
        byte_len(chars@) <= usize::MAX,
    ensures
        r.0 == units_before(chars@, low as int),
        r.1 == units_before(chars@, high as int),
{
    let mut bytes: usize = 0;
    let mut units: usize = 0;
    let mut su: usize = 0;
    let mut eu: usize = 0;
    let mut i: usize = 0;
    proof {
        assert(chars@.take(0) =~= Seq::<char>::empty());
        assert(chars@.take(0).take(0) =~= Seq::<char>::empty());
    }
    while i < chars.len()
        invariant
            i <= chars.len(),
            byte_len(chars@) <= usize::MAX,
            bytes == byte_len(chars@.take(i as int)),
            units == unit_len(chars@.take(i as int)),
            units <= bytes,
            su == units_before(chars@.take(i as int), low as int),
            eu == units_before(chars@.take(i as int), high as int),
        decreases chars.len() - i,
    {
        proof {
            lemma_units_before_step(chars@, i as int, low as int);
            lemma_units_before_step(chars@, i as int, high as int);
            lemma_byte_len_prefix(chars@, i + 1);
        }
        bytes = bytes + width_utf8(chars[i]);
        units = units + width_utf16(chars[i]);
        if bytes <= low {
            su = units;
        }
        if bytes <= high {
            eu = units;
        }
        i = i + 1;
    }
    assert(chars@.take(i as int) =~= chars@);
    (su, eu)
}

proof fn lemma_byte_len_prefix(chars: Seq<char>, n: int)
    requires
        0 <= n <= chars.len(),
    ensures
        byte_len(chars.take(n)) <= byte_len(chars),
    decreases chars.len() - n,
{
    if n < chars.len() {
        lemma_byte_len_prefix(chars, n + 1);
        assert(chars.take(n + 1) =~= chars.take(n).push(chars[n]));
        lemma_byte_len_push(chars.take(n), chars[n]);
    } else {
        assert(chars.take(n) =~= chars);
    }
}

/// Maps the byte range `start..end` of `text`, whose grapheme clusters start
/// at `starts`, to a range in UTF-16 code units.
pub fn map_range_with(text: &str, starts: &Vec<usize>, start: usize, end: usize) -> (r: (
    usize,
    usize,
))
    ensures
        r == map_range(text@, starts@, start, end),
{
    let len = text.as_bytes().len();
    let (low, high) = widen(starts, start, end, len);
    let chars = chars_of(text);
    count_units(&chars, low, high)
}

/// Maps the byte range `start..end` of `text` to a range in UTF-16 code
/// units whose ends stand at grapheme cluster boundaries.
pub fn byte_range_to_utf16_bounds(text: &str, start: usize, end: usize) -> (r: (usize, usize))
    ensures
        r == map_range(text@, grapheme_starts(text@), start, end),
{
    let starts = grapheme_offsets(text);
    map_range_with(text, &starts, start, end)
}

/// The ranges of `ranges`, each mapped.
pub open spec fn map_ranges(chars: Seq<char>, starts: Seq<usize>, ranges: Seq<(usize, usize)>) -> Seq<
    (usize, usize),
> {
    Seq::new(ranges.len(), |i: int| map_range(chars, starts, ranges[i].0, ranges[i].1))
}

/// Maps each byte range of `ranges` to a range in UTF-16 code units.
pub fn map_ranges_with(text: &str, starts: &Vec<usize>, ranges: &Vec<(usize, usize)>) -> (out: Vec<
    (usize, usize),
>)
    ensures
        out@ == map_ranges(text@, starts@, ranges@),
{
    let len = text.as_bytes().len();
    let chars = chars_of(text);
    let mut out: Vec<(usize, usize)> = Vec::new();
    let mut i: usize = 0;
    while i < ranges.len()
        invariant
            i <= ranges.len(),
            chars@ == text@,
            len == byte_len(text@),
            out.len() == i,
            forall|k: int|
                0 <= k < i ==> #[trigger] out[k] == map_range(
                    text@,
                    starts@,
                    ranges[k].0,
                    ranges[k].1,
                ),
        decreases ranges.len() - i,
    {
        let (low, high) = widen(starts, ranges[i].0, ranges[i].1, len);
        out.push(count_units(&chars, low, high));
        i = i + 1;
    }
    assert(out@ =~= map_ranges(text@, starts@, ranges@));
    out
}

/// The grapheme cluster starts of `text`.
pub fn cluster_starts(text: &str) -> (r: Vec<usize>)
    ensures
        r@ == grapheme_starts(text@),
{
    grapheme_offsets(text)
}

} // verus!
