//! Holding ranges against the length of a representation.
use vstd::prelude::*;

use crate::range::types::{RangeError, RangeSpec};

verus! {

/// The first and last byte that a range takes from `total_len` bytes, if it takes any.
pub open spec fn resolve(spec: RangeSpec, total_len: u64) -> Option<(u64, u64)> {
    match (spec.start, spec.end) {
        (Some(first), Some(last)) => if first < total_len && first <= last {
            Some((first, if last < total_len { last } else { (total_len - 1) as u64 }))
        } else {
            None
        },
        (Some(first), None) => if first < total_len {
            Some((first, (total_len - 1) as u64))
        } else {
            None
        },
        (None, Some(length)) => if total_len > 0 && length > 0 {
            Some((if length < total_len { (total_len - length) as u64 } else { 0 }, (total_len - 1) as u64))
        } else {
            None
        },
        (None, None) => None,
    }
}

/// What the ranges of a list resolve to, in order, without those that take nothing.
pub open spec fn resolve_all(specs: Seq<RangeSpec>, total_len: u64) -> Seq<(u64, u64)>
    decreases specs.len(),
{
    if specs.len() == 0 {
        Seq::empty()
    } else {
        let before = resolve_all(specs.drop_last(), total_len);
        match resolve(specs.last(), total_len) {
            Some(range) => before.push(range),
            None => before,
        }
    }
}

/// Whether a range asks for the byte at `pos` of `total_len` bytes.
pub open spec fn asks_for(spec: RangeSpec, pos: int, total_len: u64) -> bool {
    match (spec.start, spec.end) {
        (Some(first), Some(last)) => first <= pos <= last,
        (Some(first), None) => first <= pos,
        (None, Some(length)) => total_len - length <= pos,
        (None, None) => false,
    }
}

fn resolve_one(spec: &RangeSpec, total_len: u64) -> (r: Option<(u64, u64)>)
    requires
        total_len > 0,
    ensures
        r == resolve(*spec, total_len),
{
    let (start, end): (u64, u64) = match (spec.start, spec.end) {
        (Some(first), Some(last)) => (first, last),
        (Some(first), None) => {
            if first >= total_len {
                return None;
            }
            (first, total_len - 1)
        },
        (None, Some(length)) => {
            if length == 0 {
                return None;
            }
            if length >= total_len {
                (0, total_len - 1)
            } else {
                (total_len - length, total_len - 1)
            }
        },
        (None, None) => {
            return None;
        },
    };
    if start >= total_len {
        return None;
    }
    let end: u64 = if end < total_len {
        end
    } else {
        total_len - 1
    };
    if end < start {
        return None;
    }
    Some((start, end))
}

/// Resolves a list of ranges; fails if none of them takes a byte.
pub fn evaluate_specs(specs: &[RangeSpec], total_len: u64) -> (r: Result<
    Vec<(u64, u64)>,
    RangeError,
>)
    ensures
        if resolve_all(specs@, total_len).len() == 0 {
            r matches Err(e) && e == RangeError::Unsatisfiable
        } else {
            r matches Ok(v) && v@ == resolve_all(specs@, total_len)
        },
{
    if total_len == 0 {
        proof {
            lemma_nothing_in_empty(specs@);
        }
        return Err(RangeError::Unsatisfiable);
    }
    let mut out: Vec<(u64, u64)> = Vec::with_capacity(specs.len());
    for i in 0..specs.len()
        invariant
            total_len > 0,
            out@ == resolve_all(specs@.take(i as int), total_len),
    {
        assert(specs@.take(i + 1).drop_last() =~= specs@.take(i as int));
        match resolve_one(&specs[i], total_len) {
            Some(range) => {
                out.push(range);
            },
            None => {},
        }
    }
    assert(specs@.take(specs@.len() as int) =~= specs@);
    if out.is_empty() {
        Err(RangeError::Unsatisfiable)
    } else {
        Ok(out)
    }
}

proof fn lemma_nothing_in_empty(specs: Seq<RangeSpec>)
    ensures
        resolve_all(specs, 0).len() == 0,
    decreases specs.len(),
{
    if specs.len() > 0 {
        lemma_nothing_in_empty(specs.drop_last());
    }
}

/// A range resolves to exactly the bytes it asks for that exist, and to nothing if there is none.
pub proof fn law_resolve_takes_what_is_asked(spec: RangeSpec, total_len: u64, pos: int)
    ensures
        (0 <= pos < total_len && asks_for(spec, pos, total_len)) <==> (resolve(
            spec,
            total_len,
        ) matches Some((first, last)) && first <= pos <= last),
{
}

/// Every resolved range is non-empty and lies within the representation.
pub proof fn law_resolved_in_bounds(specs: Seq<RangeSpec>, total_len: u64)
    ensures
        forall|i: int|
            0 <= i < resolve_all(specs, total_len).len() ==> (#[trigger] resolve_all(
                specs,
                total_len,
            )[i]).0 <= resolve_all(specs, total_len)[i].1 < total_len,
    decreases specs.len(),
{
    if specs.len() > 0 {
        let before = resolve_all(specs.drop_last(), total_len);
        law_resolved_in_bounds(specs.drop_last(), total_len);
        let all = resolve_all(specs, total_len);
        assert forall|i: int| 0 <= i < all.len() implies (#[trigger] all[i]).0 <= all[i].1
            < total_len by {
            if i < before.len() {
                assert(all[i] == before[i]);
            } else {
                assert(Some(all[i]) == resolve(specs.last(), total_len));
            }
        }
    }
}

/// There are at most as many resolved ranges as ranges asked for.
pub proof fn law_resolved_count(specs: Seq<RangeSpec>, total_len: u64)
    ensures
        resolve_all(specs, total_len).len() <= specs.len(),
    decreases specs.len(),
{
    if specs.len() > 0 {
        law_resolved_count(specs.drop_last(), total_len);
    }
}

/// A list of ranges is unsatisfiable exactly when no byte of the representation is asked for.
pub proof fn law_unsatisfiable_when_nothing_asked(specs: Seq<RangeSpec>, total_len: u64)
    ensures
        resolve_all(specs, total_len).len() == 0 <==> forall|i: int, pos: int|
            0 <= i < specs.len() && 0 <= pos < total_len ==> !(#[trigger] asks_for(
                specs[i],
                pos,
                total_len,
            )),
    decreases specs.len(),
{
    if specs.len() > 0 {
        let before = specs.drop_last();
        law_unsatisfiable_when_nothing_asked(before, total_len);
        let last = specs.last();
        assert(specs[specs.len() - 1] == last);
        match resolve(last, total_len) {
            Some((first, _)) => {
                assert(asks_for(last, first as int, total_len));
            },
            None => {
                assert forall|pos: int| 0 <= pos < total_len implies !(#[trigger] asks_for(
                    last,
                    pos,
                    total_len,
                )) by {
                    law_resolve_takes_what_is_asked(last, total_len, pos);
                }
                assert forall|i: int| 0 <= i < before.len() implies before[i] == specs[i] by {}
                if resolve_all(before, total_len).len() == 0 {
                    assert forall|i: int, pos: int|
                        0 <= i < specs.len() && 0 <= pos < total_len implies !(#[trigger] asks_for(
                        specs[i],
                        pos,
                        total_len,
                    )) by {
                        if i < before.len() {
                            assert(!asks_for(before[i], pos, total_len));
                        }
                    }
                } else {
                    let (i, pos) = choose|i: int, pos: int|
                        0 <= i < before.len() && 0 <= pos < total_len && (#[trigger] asks_for(
                            before[i],
                            pos,
                            total_len,
                        ));
                    assert(asks_for(specs[i], pos, total_len));
                }
            },
        }
    }
}

/// A range takes exactly the bytes that it names and that exist: those from the first to the last,
/// those from the first on, or the last so many. It resolves to a range if and only if there is
/// such a byte, and the range is not empty.
pub proof fn law_resolve_is_exact(spec: RangeSpec, total_len: u64)
    ensures
        forall|pos: int|
            #![trigger covered(resolve(spec, total_len), pos)]
            covered(resolve(spec, total_len), pos) <==> 0 <= pos < total_len && match (
                spec.start,
                spec.end,
            ) {
                (Some(first), Some(last)) => first <= pos && pos <= last,
                (Some(first), None) => first <= pos,
                (None, Some(length)) => pos >= total_len - length,
                (None, None) => false,
            },
        resolve(spec, total_len) matches Some((first, last)) ==> first <= last < total_len,
        forall|pos: int|
            #![trigger covered(resolve(spec, total_len), pos)]
            covered(resolve(spec, total_len), pos) <==> (resolve(spec, total_len) matches Some(
                (first, last),
            ) && first <= pos <= last),
{
}

/// Whether a position lies in a resolved range.
pub open spec fn covered(range: Option<(u64, u64)>, pos: int) -> bool {
    range matches Some((first, last)) && first <= pos <= last
}

/// Lists resolve one after the other: nothing is merged, dropped or put elsewhere because of what
/// stands around it.
pub proof fn law_lists_resolve_in_order(a: Seq<RangeSpec>, b: Seq<RangeSpec>, total_len: u64)
    ensures
        resolve_all(a + b, total_len) == resolve_all(a, total_len) + resolve_all(b, total_len),
    decreases b.len(),
{
    if b.len() == 0 {
        assert(a + b =~= a);
        assert(resolve_all(a, total_len) + resolve_all(b, total_len) =~= resolve_all(a, total_len));
    } else {
        let rest = b.drop_last();
        law_lists_resolve_in_order(a, rest, total_len);
        assert((a + b).drop_last() =~= a + rest);
        assert(resolve_all(a + b, total_len) =~= resolve_all(a, total_len) + resolve_all(
            b,
            total_len,
        ));
    }
}

/// A list of one range resolves to what that range resolves to, and a range added to a list adds
/// what it resolves to at its end.
pub proof fn law_every_range_is_listed(specs: Seq<RangeSpec>, spec: RangeSpec, total_len: u64)
    ensures
        resolve_all(Seq::empty(), total_len).len() == 0,
        resolve(spec, total_len) matches Some(range) ==> resolve_all(specs.push(spec), total_len)
            == resolve_all(specs, total_len).push(range),
        resolve(spec, total_len) is None ==> resolve_all(specs.push(spec), total_len)
            == resolve_all(specs, total_len),
{
    assert(specs.push(spec).drop_last() =~= specs);
}

/// There are as many resolved ranges as ranges that resolve.
pub proof fn law_count_of_resolved(specs: Seq<RangeSpec>, total_len: u64)
    ensures
        Set::new(|i: int| 0 <= i < specs.len() && resolve(specs[i], total_len) is Some).finite(),
        resolve_all(specs, total_len).len() == Set::new(
            |i: int| 0 <= i < specs.len() && resolve(specs[i], total_len) is Some,
        ).len(),
    decreases specs.len(),
{
    let all = Set::new(|i: int| 0 <= i < specs.len() && resolve(specs[i], total_len) is Some);
    if specs.len() == 0 {
        assert(all =~= Set::<int>::empty());
    } else {
        let rest = specs.drop_last();
        let n = rest.len() as int;
        let before = Set::new(|i: int| 0 <= i < rest.len() && resolve(rest[i], total_len) is Some);
        law_count_of_resolved(rest, total_len);
        if resolve(specs.last(), total_len) is Some {
            assert(all =~= before.insert(n));
        } else {
            assert(all =~= before);
        }
    }
}

/// A byte of the representation is in some resolved range exactly if some range asks for it.
pub proof fn law_resolved_bytes_are_those_asked_for(
    specs: Seq<RangeSpec>,
    total_len: u64,
    pos: int,
)
    ensures
        (exists|k: int|
            0 <= k < resolve_all(specs, total_len).len() && (#[trigger] resolve_all(
                specs,
                total_len,
            )[k]).0 <= pos <= resolve_all(specs, total_len)[k].1) <==> (0 <= pos < total_len && (
        exists|i: int|
            0 <= i < specs.len() && (match ((#[trigger] specs[i]).start, specs[i].end) {
                (Some(first), Some(last)) => first <= pos && pos <= last,
                (Some(first), None) => first <= pos,
                (None, Some(length)) => pos >= total_len - length,
                (None, None) => false,
            }))),
    decreases specs.len(),
{
    if specs.len() > 0 {
        let rest = specs.drop_last();
        let last = specs.last();
        let before = resolve_all(rest, total_len);
        let all = resolve_all(specs, total_len);
        law_resolved_bytes_are_those_asked_for(rest, total_len, pos);
        law_resolve_is_exact(last, total_len);
        assert(covered(resolve(last, total_len), pos) || !covered(resolve(last, total_len), pos));
        assert(specs[specs.len() - 1] == last);
        assert(forall|i: int| 0 <= i < rest.len() ==> rest[i] == specs[i]);
        assert(forall|k: int| 0 <= k < before.len() ==> before[k] == all[k]);
        if resolve(last, total_len) is Some {
            assert(all[all.len() - 1] == resolve(last, total_len)->0);
        }
        if exists|k: int| 0 <= k < all.len() && (#[trigger] all[k]).0 <= pos <= all[k].1 {
            let k = choose|k: int| 0 <= k < all.len() && (#[trigger] all[k]).0 <= pos <= all[k].1;
            if k < before.len() {
                assert(before[k] == all[k]);
                let i = choose|i: int|
                    0 <= i < rest.len() && (match ((#[trigger] rest[i]).start, rest[i].end) {
                        (Some(first), Some(last)) => first <= pos && pos <= last,
                        (Some(first), None) => first <= pos,
                        (None, Some(length)) => pos >= total_len - length,
                        (None, None) => false,
                    });
                assert(specs[i] == rest[i]);
            }
        }
        if 0 <= pos < total_len {
            if exists|i: int|
                0 <= i < specs.len() && (match ((#[trigger] specs[i]).start, specs[i].end) {
                    (Some(first), Some(last)) => first <= pos && pos <= last,
                    (Some(first), None) => first <= pos,
                    (None, Some(length)) => pos >= total_len - length,
                    (None, None) => false,
                }) {
                let i = choose|i: int|
                    0 <= i < specs.len() && (match ((#[trigger] specs[i]).start, specs[i].end) {
                        (Some(first), Some(last)) => first <= pos && pos <= last,
                        (Some(first), None) => first <= pos,
                        (None, Some(length)) => pos >= total_len - length,
                        (None, None) => false,
                    });
                if i < rest.len() {
                    assert(rest[i] == specs[i]);
                    let k = choose|k: int|
                        0 <= k < before.len() && (#[trigger] before[k]).0 <= pos <= before[k].1;
                    assert(all[k] == before[k]);
                }
            }
        }
    }
}

} // verus!
