//! Normal form of capture ranges: sorted, and merged where they overlap or
//! touch.

use vstd::prelude::*;

verus! {

/// `s`, which is sorted by start, with `r` put behind the last range that
/// starts no later than `r`.
pub open spec fn insert_sorted(s: Seq<(usize, usize)>, r: (usize, usize)) -> Seq<(usize, usize)>
    decreases s.len(),
{
    if s.len() == 0 {
        seq![r]
    } else if s.last().0 <= r.0 {
        s.push(r)
    } else {
        insert_sorted(s.drop_last(), r).push(s.last())
    }
}

/// The ranges of `s` in the order of their starts; ranges with one start
/// keep their order.
pub open spec fn sorted_by_start(s: Seq<(usize, usize)>) -> Seq<(usize, usize)>
    decreases s.len(),
{
    if s.len() == 0 {
        s
    } else {
        insert_sorted(sorted_by_start(s.drop_last()), s.last())
    }
}

/// `acc` with `r` taken in: merged into the last range of `acc` where `r`
/// starts within it or right at its end, else put behind it.
pub open spec fn absorb(acc: Seq<(usize, usize)>, r: (usize, usize)) -> Seq<(usize, usize)> {
    if acc.len() > 0 && r.0 <= acc.last().1 {
        let last = acc.last();
        acc.drop_last().push(
            (
                last.0,
                if r.1 > last.1 {
                    r.1
                } else {
                    last.1
                },
            ),
        )
    } else {
        acc.push(r)
    }
}

/// The ranges of `s` taken in one after the other.
pub open spec fn merged(s: Seq<(usize, usize)>) -> Seq<(usize, usize)>
    decreases s.len(),
{
    if s.len() == 0 {
        s
    } else {
        absorb(merged(s.drop_last()), s.last())
    }
}

/// The normal form of a list of ranges.
pub open spec fn normalized(s: Seq<(usize, usize)>) -> Seq<(usize, usize)> {
    merged(sorted_by_start(s))
}

/// Every range ends no earlier than it starts.
pub open spec fn well_formed(s: Seq<(usize, usize)>) -> bool {
    forall|i: int| 0 <= i < s.len() ==> (#[trigger] s[i]).0 <= s[i].1
}

/// The ranges are in ascending order and neither overlap nor touch.
pub open spec fn separated(s: Seq<(usize, usize)>) -> bool {
    forall|i: int, j: int| 0 <= i < j < s.len() ==> (#[trigger] s[i]).1 < (#[trigger] s[j]).0
}

/// The starts of the ranges ascend.
pub open spec fn starts_ascend(s: Seq<(usize, usize)>) -> bool {
    forall|i: int, j: int| 0 <= i <= j < s.len() ==> (#[trigger] s[i]).0 <= (#[trigger] s[j]).0
}

/// Some range of `s` holds the range `r`.
pub open spec fn holds_range(s: Seq<(usize, usize)>, r: (usize, usize)) -> bool {
    exists|k: int| 0 <= k < s.len() && (#[trigger] s[k]).0 <= r.0 && r.1 <= s[k].1
}

/// Some range of `s` holds the position `x`.
pub open spec fn covers(s: Seq<(usize, usize)>, x: int) -> bool {
    exists|k: int| 0 <= k < s.len() && (#[trigger] s[k]).0 <= x < s[k].1
}

/// Some range of `s` starts at `a`.
pub open spec fn starts_at(s: Seq<(usize, usize)>, a: usize) -> bool {
    exists|k: int| 0 <= k < s.len() && (#[trigger] s[k]).0 == a
}

/// Some range of `s` ends at `b`.
pub open spec fn ends_at(s: Seq<(usize, usize)>, b: usize) -> bool {
    exists|k: int| 0 <= k < s.len() && (#[trigger] s[k]).1 == b
}

/// `out` is the normal form of `s`: its ranges are well formed, in ascending
/// order, and neither overlap nor touch; every range of `s` lies within one
/// of `out`; every position within a range of `out` lies within one of `s`;
/// and every range of `out` starts where one of `s` starts and ends where one
/// of `s` ends.
pub open spec fn is_normal_form_of(out: Seq<(usize, usize)>, s: Seq<(usize, usize)>) -> bool {
    &&& well_formed(out)
    &&& separated(out)
    &&& forall|j: int| 0 <= j < s.len() ==> #[trigger] holds_range(out, s[j])
    &&& forall|x: int| #[trigger] covers(out, x) ==> covers(s, x)
    &&& forall|k: int| 0 <= k < out.len() ==> #[trigger] starts_at(s, out[k].0)
    &&& forall|k: int| 0 <= k < out.len() ==> #[trigger] ends_at(s, out[k].1)
}

/// `b` holds the ranges of `a`, and no others.
pub open spec fn same_ranges(a: Seq<(usize, usize)>, b: Seq<(usize, usize)>) -> bool {
    &&& forall|i: int| 0 <= i < a.len() ==> b.contains(#[trigger] a[i])
    &&& forall|i: int| 0 <= i < b.len() ==> a.contains(#[trigger] b[i])
}

proof fn lemma_insert_sorted(s: Seq<(usize, usize)>, r: (usize, usize))
    requires
        starts_ascend(s),
    ensures
        starts_ascend(insert_sorted(s, r)),
        same_ranges(s.push(r), insert_sorted(s, r)),
    decreases s.len(),
{
    let out = insert_sorted(s, r);
    let all = s.push(r);
    if s.len() == 0 {
        assert(out =~= all);
        assert forall|i: int| 0 <= i < all.len() implies out.contains(#[trigger] all[i]) by {
            assert(out[i] == all[i]);
        }
        assert forall|i: int| 0 <= i < out.len() implies all.contains(#[trigger] out[i]) by {
            assert(all[i] == out[i]);
        }
    } else if s.last().0 <= r.0 {
        assert(out =~= all);
        assert forall|i: int| 0 <= i < all.len() implies out.contains(#[trigger] all[i]) by {
            assert(out[i] == all[i]);
        }
        assert forall|i: int| 0 <= i < out.len() implies all.contains(#[trigger] out[i]) by {
            assert(all[i] == out[i]);
        }
        assert forall|i: int, j: int| 0 <= i <= j < out.len() implies (#[trigger] out[i]).0 <= (
        #[trigger] out[j]).0 by {
            if j == s.len() {
                if i < s.len() {
                    assert(s[i].0 <= s[s.len() - 1].0);
                }
            } else {
                assert(s[i].0 <= s[j].0);
            }
        }
    } else {
        let front = s.drop_last();
        let last = s.last();
        assert(starts_ascend(front)) by {
            assert forall|i: int, j: int| 0 <= i <= j < front.len() implies (#[trigger] front[i]).0
                <= (#[trigger] front[j]).0 by {
                assert(s[i].0 <= s[j].0);
            }
        }
        lemma_insert_sorted(front, r);
        let inner = insert_sorted(front, r);
        let inner_all = front.push(r);
        assert(out == inner.push(last));
        // every range of `inner` starts no later than `last`
        assert forall|i: int| 0 <= i < inner.len() implies (#[trigger] inner[i]).0 <= last.0 by {
            assert(inner_all.contains(inner[i]));
            let m = choose|m: int| 0 <= m < inner_all.len() && inner_all[m] == inner[i];
            if m < front.len() {
                assert(s[m].0 <= s[s.len() - 1].0);
            }
        }
        assert forall|i: int, j: int| 0 <= i <= j < out.len() implies (#[trigger] out[i]).0 <= (
        #[trigger] out[j]).0 by {
            if j < inner.len() {
                assert(inner[i].0 <= inner[j].0);
            } else if i < inner.len() {
                assert(inner[i].0 <= last.0);
            }
        }
        assert forall|i: int| 0 <= i < all.len() implies out.contains(#[trigger] all[i]) by {
            if i == s.len() {
                assert(inner_all[front.len() as int] == r);
                assert(inner.contains(inner_all[front.len() as int]));
                let m = choose|m: int| 0 <= m < inner.len() && inner[m] == r;
                assert(out[m] == r);
            } else if i == s.len() - 1 {
                assert(out[out.len() - 1] == last);
            } else {
                assert(inner_all[i] == all[i]);
                assert(inner.contains(inner_all[i]));
                let m = choose|m: int| 0 <= m < inner.len() && inner[m] == all[i];
                assert(out[m] == all[i]);
            }
        }
        assert forall|i: int| 0 <= i < out.len() implies all.contains(#[trigger] out[i]) by {
            if i < inner.len() {
                assert(inner[i] == out[i]);
                assert(inner_all.contains(inner[i]));
                let m = choose|m: int| 0 <= m < inner_all.len() && inner_all[m] == inner[i];
                if m < front.len() {
                    assert(all[m] == out[i]);
                } else {
                    assert(all[s.len() as int] == out[i]);
                }
            } else {
                assert(all[s.len() - 1] == out[i]);
            }
        }
    }
}

proof fn lemma_sorted_by_start(s: Seq<(usize, usize)>)
    ensures
        starts_ascend(sorted_by_start(s)),
        same_ranges(s, sorted_by_start(s)),
    decreases s.len(),
{
    if s.len() > 0 {
        let front = s.drop_last();
        let last = s.last();
        lemma_sorted_by_start(front);
        let mid = sorted_by_start(front);
        lemma_insert_sorted(mid, last);
        let out = sorted_by_start(s);
        let mid_all = mid.push(last);
        assert forall|i: int| 0 <= i < s.len() implies out.contains(#[trigger] s[i]) by {
            if i < front.len() {
                assert(front[i] == s[i]);
                assert(mid.contains(front[i]));
                let m = choose|m: int| 0 <= m < mid.len() && mid[m] == s[i];
                assert(mid_all[m] == s[i]);
                assert(out.contains(mid_all[m]));
            } else {
                assert(mid_all[mid.len() as int] == s[i]);
                assert(out.contains(mid_all[mid.len() as int]));
            }
        }
        assert forall|i: int| 0 <= i < out.len() implies s.contains(#[trigger] out[i]) by {
            assert(mid_all.contains(out[i]));
            let m = choose|m: int| 0 <= m < mid_all.len() && mid_all[m] == out[i];
            if m < mid.len() {
                assert(mid[m] == out[i]);
                assert(front.contains(mid[m]));
                let k = choose|k: int| 0 <= k < front.len() && front[k] == out[i];
                assert(s[k] == out[i]);
            } else {
                assert(s[s.len() - 1] == out[i]);
            }
        }
    }
}

/// What taking in one more range keeps: `acc` is the normal form of `front`,
/// and `r` starts no earlier than any range of `front`.
proof fn lemma_absorb(acc: Seq<(usize, usize)>, front: Seq<(usize, usize)>, r: (usize, usize))
    requires
        is_normal_form_of(acc, front),
        front.len() == 0 ==> acc.len() == 0,
        front.len() > 0 ==> acc.len() > 0,
        forall|i: int| 0 <= i < front.len() ==> (#[trigger] front[i]).0 <= r.0,
        r.0 <= r.1,
    ensures
        is_normal_form_of(absorb(acc, r), front.push(r)),
        absorb(acc, r).len() > 0,
{
    let out = absorb(acc, r);
    let t = front.push(r);
    let n = acc.len() as int;
    let merge = acc.len() > 0 && r.0 <= acc.last().1;
    let top = out.len() - 1;
    assert(out.len() > 0);
    assert(forall|k: int| 0 <= k < top ==> #[trigger] out[k] == acc[k]);
    assert(t[front.len() as int] == r);
    assert(forall|j: int| 0 <= j < front.len() ==> #[trigger] t[j] == front[j]);
    // the last range of `acc` starts where a range of `front` starts, so no later than `r`
    if n > 0 {
        assert(starts_at(front, acc[n - 1].0));
        let a = choose|a: int| 0 <= a < front.len() && (#[trigger] front[a]).0 == acc[n - 1].0;
        assert(front[a].0 <= r.0);
        assert(acc[n - 1].0 <= acc[n - 1].1);
    }
    assert(out[top].0 <= r.0 && r.1 <= out[top].1);
    assert(merge ==> out[top].0 == acc[n - 1].0 && out[top].1 >= acc[n - 1].1);
    assert(well_formed(out)) by {
        assert forall|i: int| 0 <= i < out.len() implies (#[trigger] out[i]).0 <= out[i].1 by {
            if i < top {
                assert(acc[i].0 <= acc[i].1);
            }
        }
    }
    assert(separated(out)) by {
        assert forall|i: int, j: int| 0 <= i < j < out.len() implies (#[trigger] out[i]).1 < (
        #[trigger] out[j]).0 by {
            if j < top {
                assert(acc[i].1 < acc[j].0);
            } else if merge {
                assert(acc[i].1 < acc[n - 1].0);
            } else if i < n - 1 {
                assert(acc[i].1 < acc[n - 1].0);
            }
        }
    }
    assert forall|j: int| 0 <= j < t.len() implies #[trigger] holds_range(out, t[j]) by {
        if j < front.len() {
            assert(holds_range(acc, front[j]));
            let k = choose|k: int|
                0 <= k < acc.len() && (#[trigger] acc[k]).0 <= front[j].0 && front[j].1 <= acc[k].1;
            if k < top {
                assert(out[k].0 <= t[j].0 && t[j].1 <= out[k].1);
            } else {
                assert(out[top].0 <= t[j].0 && t[j].1 <= out[top].1);
            }
        } else {
            assert(out[top].0 <= t[j].0 && t[j].1 <= out[top].1);
        }
    }
    assert forall|x: int| covers(out, x) implies covers(t, x) by {
        let k = choose|k: int| 0 <= k < out.len() && (#[trigger] out[k]).0 <= x < out[k].1;
        if k < top || (merge && x < acc[n - 1].1) {
            assert(acc[k].0 <= x < acc[k].1);
            assert(covers(acc, x));
            assert(covers(front, x));
            let m = choose|m: int| 0 <= m < front.len() && (#[trigger] front[m]).0 <= x < front[m].1;
            assert(t[m].0 <= x < t[m].1);
        } else {
            assert(t[front.len() as int].0 <= x < t[front.len() as int].1);
        }
    }
    assert forall|k: int| 0 <= k < out.len() implies #[trigger] starts_at(t, out[k].0) by {
        if k < top || merge {
            assert(starts_at(front, acc[k].0));
            let a = choose|a: int| 0 <= a < front.len() && (#[trigger] front[a]).0 == acc[k].0;
            assert(t[a].0 == out[k].0);
        } else {
            assert(t[front.len() as int].0 == out[k].0);
        }
    }
    assert forall|k: int| 0 <= k < out.len() implies #[trigger] ends_at(t, out[k].1) by {
        if k < top || (merge && r.1 <= acc[n - 1].1) {
            assert(ends_at(front, acc[k].1));
            let b = choose|b: int| 0 <= b < front.len() && (#[trigger] front[b]).1 == acc[k].1;
            assert(t[b].1 == out[k].1);
        } else {
            assert(t[front.len() as int].1 == out[k].1);
        }
    }
}

proof fn lemma_merged(t: Seq<(usize, usize)>)
    requires
        starts_ascend(t),
        well_formed(t),
    ensures
        is_normal_form_of(merged(t), t),
        t.len() > 0 ==> merged(t).len() > 0,
        t.len() == 0 ==> merged(t).len() == 0,
    decreases t.len(),
{
    if t.len() > 0 {
        let front = t.drop_last();
        let r = t.last();
        assert(starts_ascend(front) && well_formed(front)) by {
            assert forall|i: int, j: int| 0 <= i <= j < front.len() implies (#[trigger] front[i]).0
                <= (#[trigger] front[j]).0 by {
                assert(t[i].0 <= t[j].0);
            }
            assert forall|i: int| 0 <= i < front.len() implies (#[trigger] front[i]).0
                <= front[i].1 by {
                assert(t[i].0 <= t[i].1);
            }
        }
        lemma_merged(front);
        assert forall|i: int| 0 <= i < front.len() implies (#[trigger] front[i]).0 <= r.0 by {
            assert(t[i].0 <= t[t.len() - 1].0);
        }
        assert(t[t.len() - 1].0 <= t[t.len() - 1].1);
        lemma_absorb(merged(front), front, r);
        assert(front.push(r) =~= t);
    }
}

/// Normalized ranges are sorted and neither overlap nor touch, and they
/// cover what the given ranges cover: `normalized(s)` is the normal form of
/// any list `s` of well-formed ranges.
pub proof fn lemma_normalized_is_normal_form(s: Seq<(usize, usize)>)
    requires
        well_formed(s),
    ensures
        is_normal_form_of(normalized(s), s),
{
    lemma_sorted_by_start(s);
    let t = sorted_by_start(s);
    assert(well_formed(t)) by {
        assert forall|i: int| 0 <= i < t.len() implies (#[trigger] t[i]).0 <= t[i].1 by {
            assert(s.contains(t[i]));
            let k = choose|k: int| 0 <= k < s.len() && s[k] == t[i];
            assert(s[k].0 <= s[k].1);
        }
    }
    lemma_merged(t);
    let out = normalized(s);
    assert forall|j: int| 0 <= j < s.len() implies #[trigger] holds_range(out, s[j]) by {
        assert(t.contains(s[j]));
        let k = choose|k: int| 0 <= k < t.len() && t[k] == s[j];
        assert(holds_range(out, t[k]));
    }
    assert forall|x: int| covers(out, x) implies covers(s, x) by {
        assert(covers(t, x));
        let k = choose|k: int| 0 <= k < t.len() && (#[trigger] t[k]).0 <= x < t[k].1;
        assert(s.contains(t[k]));
        let m = choose|m: int| 0 <= m < s.len() && s[m] == t[k];
        assert(s[m].0 <= x < s[m].1);
    }
    assert forall|k: int| 0 <= k < out.len() implies #[trigger] starts_at(s, out[k].0) by {
        assert(starts_at(t, out[k].0));
        let a = choose|a: int| 0 <= a < t.len() && (#[trigger] t[a]).0 == out[k].0;
        assert(s.contains(t[a]));
        let m = choose|m: int| 0 <= m < s.len() && s[m] == t[a];
        assert(s[m].0 == out[k].0);
    }
    assert forall|k: int| 0 <= k < out.len() implies #[trigger] ends_at(s, out[k].1) by {
        assert(ends_at(t, out[k].1));
        let b = choose|b: int| 0 <= b < t.len() && (#[trigger] t[b]).1 == out[k].1;
        assert(s.contains(t[b]));
        let n = choose|n: int| 0 <= n < s.len() && s[n] == t[b];
        assert(s[n].1 == out[k].1);
    }
}

/// Normalizing keeps every range within the text that the given ranges lie
/// in.
pub proof fn lemma_normalized_within(s: Seq<(usize, usize)>, len: nat)
    requires
        forall|i: int| 0 <= i < s.len() ==> (#[trigger] s[i]).0 <= s[i].1 <= len,
    ensures
        forall|k: int|
            0 <= k < normalized(s).len() ==> (#[trigger] normalized(s)[k]).0 <= normalized(s)[k].1
                <= len,
{
    assert(well_formed(s));
    lemma_normalized_is_normal_form(s);
    let out = normalized(s);
    assert forall|k: int| 0 <= k < out.len() implies (#[trigger] out[k]).0 <= out[k].1 <= len by {
        assert(ends_at(s, out[k].1));
        let b = choose|b: int| 0 <= b < s.len() && (#[trigger] s[b]).1 == out[k].1;
        assert(s[b].0 <= s[b].1 <= len);
    }
}

fn insert_by_start(v: &mut Vec<(usize, usize)>, r: (usize, usize))
    ensures
        final(v)@ == insert_sorted(old(v)@, r),
{
    let mut p: usize = v.len();
    proof {
        assert(v@.take(p as int) =~= v@);
        assert(insert_sorted(v@, r) + v@.skip(p as int) =~= insert_sorted(v@, r));
    }
    while p > 0 && v[p - 1].0 > r.0
        invariant
            p <= v.len(),
            v@ == old(v)@,
            insert_sorted(v@, r) == insert_sorted(v@.take(p as int), r) + v@.skip(p as int),
        decreases p,
    {
        proof {
            let head = v@.take(p as int);
            assert(head.last() == v[p - 1]);
            assert(head.drop_last() =~= v@.take(p - 1));
            assert(insert_sorted(head, r) == insert_sorted(v@.take(p - 1), r).push(v[p - 1]));
            assert(insert_sorted(v@.take(p - 1), r).push(v[p - 1]) + v@.skip(p as int)
                =~= insert_sorted(v@.take(p - 1), r) + v@.skip(p - 1));
        }
        p = p - 1;
    }
    proof {
        let head = v@.take(p as int);
        if p > 0 {
            assert(head.last() == v[p - 1]);
        }
        assert(insert_sorted(head, r) == head.push(r));
        assert(head.push(r) + v@.skip(p as int) =~= v@.insert(p as int, r));
    }
    v.insert(p, r);
}

/// Sorts the ranges by their starts and merges those that overlap or touch.
pub fn normalize_ranges(ranges: Vec<(usize, usize)>) -> (out: Vec<(usize, usize)>)
    ensures
        out@ == normalized(ranges@),
        well_formed(ranges@) ==> is_normal_form_of(out@, ranges@),
{
    let mut sorted: Vec<(usize, usize)> = Vec::new();
    let mut i: usize = 0;
    while i < ranges.len()
        invariant
            i <= ranges.len(),
            sorted@ == sorted_by_start(ranges@.take(i as int)),
        decreases ranges.len() - i,
    {
        proof {
            assert(ranges@.take(i + 1).drop_last() =~= ranges@.take(i as int));
        }
        insert_by_start(&mut sorted, ranges[i]);
        i = i + 1;
    }
    assert(ranges@.take(i as int) =~= ranges@);
    let mut out: Vec<(usize, usize)> = Vec::new();
    let mut k: usize = 0;
    while k < sorted.len()
        invariant
            k <= sorted.len(),
            out@ == merged(sorted@.take(k as int)),
        decreases sorted.len() - k,
    {
        proof {
            assert(sorted@.take(k + 1).drop_last() =~= sorted@.take(k as int));
        }
        let r = sorted[k];
        let n = out.len();
        if n > 0 && r.0 <= out[n - 1].1 {
            let last = out[n - 1];
            let end = if r.1 > last.1 {
                r.1
            } else {
                last.1
            };
            out.set(n - 1, (last.0, end));
            assert(out@ =~= absorb(merged(sorted@.take(k as int)), r));
        } else {
            out.push(r);
        }
        k = k + 1;
    }
    assert(sorted@.take(k as int) =~= sorted@);
    proof {
        if well_formed(ranges@) {
            lemma_normalized_is_normal_form(ranges@);
        }
    }
    out
}

} // verus!
