//! The serialized form of highlights.
//!
//! Highlights travel as a JSON array with one object for each metadata
//! entry: `{"field":"name","ranges":[[0,3],[5,8]]}`, with `null` for an entry
//! without a field. A field name is written between the quotes as it is.

use crate::query::matcher::{field_model, metas_model, MatchMeta, MetaModel};
use crate::text::{chars_of, digits_of, push_digits, string_of};
use vstd::prelude::*;

verus! {

/// `[start,end]`.
pub open spec fn range_json(r: (usize, usize)) -> Seq<char> {
    seq!['['] + digits_of(r.0 as nat) + seq![','] + digits_of(r.1 as nat) + seq![']']
}

/// The ranges, each as `[start,end]`, with commas between them.
pub open spec fn ranges_json(rs: Seq<(usize, usize)>) -> Seq<char>
    decreases rs.len(),
{
    if rs.len() == 0 {
        Seq::empty()
    } else if rs.len() == 1 {
        range_json(rs[0])
    } else {
        ranges_json(rs.drop_last()) + seq![','] + range_json(rs.last())
    }
}

/// The field name in quotes, or `null`.
pub open spec fn field_json(f: Option<Seq<char>>) -> Seq<char> {
    match f {
        Some(s) => seq!['"'] + s + seq!['"'],
        None => "null"@,
    }
}

/// `{"field":..,"ranges":[..]}`.
pub open spec fn meta_json(m: MetaModel) -> Seq<char> {
    "{\"field\":"@ + field_json(m.field) + ",\"ranges\":["@ + ranges_json(m.ranges) + "]}"@
}

/// The entries, each as an object, with commas between them.
pub open spec fn metas_json(ms: Seq<MetaModel>) -> Seq<char>
    decreases ms.len(),
{
    if ms.len() == 0 {
        Seq::empty()
    } else if ms.len() == 1 {
        meta_json(ms[0])
    } else {
        metas_json(ms.drop_last()) + seq![','] + meta_json(ms.last())
    }
}

/// The JSON array of the entries.
pub open spec fn highlights_json(ms: Seq<MetaModel>) -> Seq<char> {
    seq!['['] + metas_json(ms) + seq![']']
}

fn push_text(out: &mut Vec<char>, s: &str)
    ensures
        final(out)@ == old(out)@ + s@,
{
    let chars = chars_of(s);
    let mut i: usize = 0;
    while i < chars.len()
        invariant
            i <= chars.len(),
            chars@ == s@,
            out@ == old(out)@ + chars@.take(i as int),
        decreases chars.len() - i,
    {
        out.push(chars[i]);
        assert(out@ =~= old(out)@ + chars@.take(i + 1));
        i = i + 1;
    }
    assert(chars@.take(i as int) =~= chars@);
}

fn push_range(out: &mut Vec<char>, r: (usize, usize))
    ensures
        final(out)@ == old(out)@ + range_json(r),
{
    out.push('[');
    push_digits(r.0 as u128, out);
    out.push(',');
    push_digits(r.1 as u128, out);
    out.push(']');
    assert(out@ =~= old(out)@ + range_json(r));
}

fn push_ranges(out: &mut Vec<char>, rs: &Vec<(usize, usize)>)
    ensures
        final(out)@ == old(out)@ + ranges_json(rs@),
{
    let mut i: usize = 0;
    assert(rs@.take(0) =~= Seq::<(usize, usize)>::empty());
    assert(out@ =~= old(out)@ + ranges_json(rs@.take(0)));
    while i < rs.len()
        invariant
            i <= rs.len(),
            out@ == old(out)@ + ranges_json(rs@.take(i as int)),
        decreases rs.len() - i,
    {
        proof {
            assert(rs@.take(i + 1).drop_last() =~= rs@.take(i as int));
            assert(rs@.take(i + 1).last() == rs[i as int]);
            assert(rs@.take(i + 1)[0] == rs[0]);
        }
        if i > 0 {
            out.push(',');
        }
        push_range(out, rs[i]);
        assert(out@ =~= old(out)@ + ranges_json(rs@.take(i + 1)));
        i = i + 1;
    }
    assert(rs@.take(i as int) =~= rs@);
}

fn push_meta(out: &mut Vec<char>, m: &MatchMeta)
    ensures
        final(out)@ == old(out)@ + meta_json(m@),
{
    push_text(out, "{\"field\":");
    let ghost after_key = out@;
    match &m.field {
        Some(f) => {
            out.push('"');
            push_text(out, f.as_str());
            out.push('"');
            assert(out@ =~= after_key + field_json(field_model(m.field)));
        },
        None => {
            push_text(out, "null");
        },
    }
    push_text(out, ",\"ranges\":[");
    push_ranges(out, &m.ranges);
    push_text(out, "]}");
    assert(out@ =~= old(out)@ + meta_json(m@));
}

/// Serializes metadata entries as a JSON array.
pub fn highlights_to_json(metas: &Vec<MatchMeta>) -> (r: String)
    ensures
        r@ == highlights_json(metas_model(metas@)),
{
    let mut out: Vec<char> = Vec::new();
    out.push('[');
    let ghost models = metas_model(metas@);
    let mut i: usize = 0;
    assert(models.take(0) =~= Seq::<MetaModel>::empty());
    assert(out@ =~= seq!['['] + metas_json(models.take(0)));
    while i < metas.len()
        invariant
            i <= metas.len(),
            models == metas_model(metas@),
            out@ == seq!['['] + metas_json(models.take(i as int)),
        decreases metas.len() - i,
    {
        proof {
            assert(models.take(i + 1).drop_last() =~= models.take(i as int));
            assert(models.take(i + 1).last() == metas[i as int]@);
            assert(models.take(i + 1)[0] == models[0]);
        }
        if i > 0 {
            out.push(',');
        }
        push_meta(&mut out, &metas[i]);
        assert(out@ =~= seq!['['] + metas_json(models.take(i + 1)));
        i = i + 1;
    }
    assert(models.take(i as int) =~= models);
    out.push(']');
    let r = string_of(&out, 0, out.len());
    assert(out@.subrange(0, out.len() as int) =~= out@);
    r
}

} // verus!
