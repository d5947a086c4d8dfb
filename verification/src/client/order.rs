//! The order in which the responses of a run were complete, and how it agrees with their urgency.
use vstd::prelude::*;

use crate::client::stat::Stat;

verus! {

/// Nanoseconds from sending a request to the end of its response.
pub open spec fn finish_delay(s: Stat) -> int {
    match s.t_fin {
        Some(t) => if t > s.t_sent {
            t - s.t_sent
        } else {
            0
        },
        None => 0,
    }
}

/// The number of complete responses.
pub open spec fn finished_count(rows: Seq<Stat>) -> nat
    decreases rows.len(),
{
    if rows.len() == 0 {
        0
    } else {
        finished_count(rows.drop_last()) + if rows.last().t_fin is Some {
            1nat
        } else {
            0
        }
    }
}

/// Whether the faster of two complete responses is the less urgent one. A lower number is more
/// urgent; of two equally fast ones, the one listed first counts as the faster.
pub open spec fn inverted(first: Stat, second: Stat) -> bool {
    &&& first.t_fin is Some
    &&& second.t_fin is Some
    &&& if finish_delay(first) <= finish_delay(second) {
        first.urgency > second.urgency
    } else {
        second.urgency > first.urgency
    }
}

/// The number of rows that are inverted with a row listed after them.
pub open spec fn inversions_with(rows: Seq<Stat>, later: Stat) -> nat
    decreases rows.len(),
{
    if rows.len() == 0 {
        0
    } else {
        inversions_with(rows.drop_last(), later) + if inverted(rows.last(), later) {
            1nat
        } else {
            0
        }
    }
}

/// The number of inverted pairs.
pub open spec fn inversions(rows: Seq<Stat>) -> nat
    decreases rows.len(),
{
    if rows.len() == 0 {
        0
    } else {
        inversions(rows.drop_last()) + inversions_with(rows.drop_last(), rows.last())
    }
}

/// The number of pairs among `n` things.
pub open spec fn pair_count(n: nat) -> nat {
    if n == 0 {
        0
    } else {
        (n * (n - 1) / 2) as nat
    }
}

proof fn lemma_inversions_with_bound(rows: Seq<Stat>, later: Stat)
    ensures
        inversions_with(rows, later) <= finished_count(rows),
        later.t_fin is None ==> inversions_with(rows, later) == 0,
    decreases rows.len(),
{
    if rows.len() > 0 {
        lemma_inversions_with_bound(rows.drop_last(), later);
    }
}

proof fn lemma_even_product(n: int)
    requires
        n >= 0,
    ensures
        (n * (n - 1)) % 2 == 0,
{
    let k = n / 2;
    if n % 2 == 0 {
        assert(n * (n - 1) == 2 * (k * (n - 1))) by (nonlinear_arith)
            requires
                n == 2 * k,
        ;
    } else {
        assert(n * (n - 1) == 2 * (n * k)) by (nonlinear_arith)
            requires
                n == 2 * k + 1,
        ;
    }
}

proof fn lemma_pair_count_step(n: nat)
    ensures
        pair_count(n + 1) == pair_count(n) + n,
        2 * pair_count(n) == n * (n - 1),
{
    let m = n as int;
    let product = m * (m - 1);
    let next = (m + 1) * m;
    lemma_even_product(m);
    assert(next == product + 2 * m) by (nonlinear_arith)
        requires
            product == m * (m - 1),
            next == (m + 1) * m,
    ;
    assert((n + 1) * ((n + 1) - 1) == next);
    assert(n > 0 ==> product >= 0) by (nonlinear_arith)
        requires
            m == n,
            product == m * (m - 1),
    ;
    assert(n == 0 ==> product == 0);
    assert(pair_count(n + 1) == next / 2);
    assert(n > 0 ==> pair_count(n) == product / 2);
}

/// There are no more inversions than pairs of complete responses.
pub proof fn law_inversions_are_pairs(rows: Seq<Stat>)
    ensures
        inversions(rows) <= pair_count(finished_count(rows)),
    decreases rows.len(),
{
    if rows.len() > 0 {
        let rest = rows.drop_last();
        law_inversions_are_pairs(rest);
        lemma_inversions_with_bound(rest, rows.last());
        lemma_pair_count_step(finished_count(rest));
    }
}

proof fn lemma_no_inversions_with(rows: Seq<Stat>, later: Stat)
    ensures
        inversions_with(rows, later) == 0 <==> forall|i: int|
            0 <= i < rows.len() ==> !inverted(#[trigger] rows[i], later),
    decreases rows.len(),
{
    if rows.len() > 0 {
        let rest = rows.drop_last();
        lemma_no_inversions_with(rest, later);
        assert(forall|i: int| 0 <= i < rest.len() ==> rest[i] == rows[i]);
        if forall|i: int| 0 <= i < rest.len() ==> !inverted(#[trigger] rest[i], later) {
            assert forall|i: int| 0 <= i < rows.len() - 1 implies !inverted(
                #[trigger] rows[i],
                later,
            ) by {
                assert(rest[i] == rows[i]);
            }
        } else {
            let i = choose|i: int| 0 <= i < rest.len() && inverted(#[trigger] rest[i], later);
            assert(inverted(rows[i], later));
        }
        assert(rows.last() == rows[rows.len() - 1]);
    }
}

/// There is no inversion exactly if no less urgent response was faster than a more urgent one,
/// where of two equally fast ones the first listed counts as the faster.
pub proof fn law_no_inversions(rows: Seq<Stat>)
    ensures
        inversions(rows) == 0 <==> forall|i: int, j: int|
            0 <= i < j < rows.len() ==> !inverted(#[trigger] rows[i], #[trigger] rows[j]),
    decreases rows.len(),
{
    if rows.len() > 0 {
        let rest = rows.drop_last();
        let last = rows.last();
        law_no_inversions(rest);
        lemma_no_inversions_with(rest, last);
        assert(forall|i: int| 0 <= i < rest.len() ==> rest[i] == rows[i]);
        if inversions(rows) == 0 {
            assert forall|i: int, j: int| 0 <= i < j < rows.len() implies !inverted(
                #[trigger] rows[i],
                #[trigger] rows[j],
            ) by {
                assert(rest[i] == rows[i]);
                if j < rest.len() {
                    assert(rest[j] == rows[j]);
                }
            }
        } else if inversions(rest) != 0 {
            let (i, j) = choose|i: int, j: int|
                0 <= i < j < rest.len() && inverted(#[trigger] rest[i], #[trigger] rest[j]);
            assert(inverted(rows[i], rows[j]));
        } else {
            let i = choose|i: int| 0 <= i < rest.len() && inverted(#[trigger] rest[i], last);
            assert(inverted(rows[i], rows[rows.len() - 1]));
        }
    }
}

/// A run whose delays grow strictly with the urgency number is free of inversions.
pub proof fn law_honored_priorities_have_no_inversions(rows: Seq<Stat>)
    requires
        forall|i: int, j: int|
            0 <= i < rows.len() && 0 <= j < rows.len() && rows[i].t_fin is Some
                && rows[j].t_fin is Some && rows[i].urgency < rows[j].urgency ==> finish_delay(
                #[trigger] rows[i],
            ) < finish_delay(#[trigger] rows[j]),
    ensures
        inversions(rows) == 0,
{
    law_no_inversions(rows);
}

fn delay_of(s: &Stat) -> (r: u128)
    ensures
        r == finish_delay(*s),
{
    match s.t_fin {
        Some(t) => {
            if t > s.t_sent {
                t - s.t_sent
            } else {
                0
            }
        },
        None => 0,
    }
}

fn is_inverted(first: &Stat, second: &Stat) -> (r: bool)
    ensures
        r == inverted(*first, *second),
{
    if first.t_fin.is_none() || second.t_fin.is_none() {
        return false;
    }
    if delay_of(first) <= delay_of(second) {
        first.urgency > second.urgency
    } else {
        second.urgency > first.urgency
    }
}

fn count_inversions_with(rows: &[Stat], n: usize, later: &Stat) -> (r: usize)
    requires
        n <= rows@.len(),
    ensures
        r == inversions_with(rows@.take(n as int), *later),
{
    let mut count: usize = 0;
    for i in 0..n
        invariant
            n <= rows@.len(),
            count <= i,
            count == inversions_with(rows@.take(i as int), *later),
    {
        assert(rows@.take(i + 1).drop_last() =~= rows@.take(i as int));
        if is_inverted(&rows[i], later) {
            count = count + 1;
        }
    }
    count
}

/// No more responses are complete than are listed, and no fewer when more are listed.
pub proof fn law_finished_count_grows(rows: Seq<Stat>, n: int)
    requires
        0 <= n <= rows.len(),
    ensures
        finished_count(rows.take(n)) <= finished_count(rows) <= rows.len(),
    decreases rows.len(),
{
    if n == rows.len() {
        assert(rows.take(n) =~= rows);
        if n > 0 {
            law_finished_count_grows(rows.drop_last(), n - 1);
        }
    } else {
        assert(rows.drop_last().take(n) =~= rows.take(n));
        law_finished_count_grows(rows.drop_last(), n);
    }
}

/// Counts the pairs of complete responses, and those in which the faster response is the less
/// urgent one. Lower urgency numbers should finish earlier if priorities are honored.
pub fn finish_order_vs_urgency(rows: &[Stat]) -> (r: (usize, usize))
    requires
        finished_count(rows@) * (finished_count(rows@) - 1) <= usize::MAX,
    ensures
        r.0 == pair_count(finished_count(rows@)),
        r.1 == inversions(rows@),
{
    let ghost all = finished_count(rows@);
    let mut finished: usize = 0;
    let mut count: usize = 0;
    for i in 0..rows.len()
        invariant
            all == finished_count(rows@),
            all * (all - 1) <= usize::MAX,
            finished == finished_count(rows@.take(i as int)),
            finished <= i,
            count == inversions(rows@.take(i as int)),
    {
        let ghost seen = rows@.take(i + 1);
        assert(seen.drop_last() =~= rows@.take(i as int));
        assert(seen.last() == rows@[i as int]);
        proof {
            law_inversions_are_pairs(seen);
            law_finished_count_grows(rows@, i + 1);
            lemma_pair_bound(finished_count(seen), all);
        }
        count = count + count_inversions_with(rows, i, &rows[i]);
        if rows[i].t_fin.is_some() {
            finished = finished + 1;
        }
    }
    assert(rows@.take(rows@.len() as int) =~= rows@);
    if finished == 0 {
        return (0, count);
    }
    assert((finished - 1) >= 0);
    (finished * (finished - 1) / 2, count)
}

proof fn lemma_pair_bound(n: nat, all: nat)
    requires
        n <= all,
        all * (all - 1) <= usize::MAX,
    ensures
        pair_count(n) <= usize::MAX,
{
    lemma_pair_count_step(n);
    let n = n as int;
    let all = all as int;
    if n > 0 {
        assert(n * (n - 1) <= all * (all - 1)) by (nonlinear_arith)
            requires
                0 < n <= all,
        ;
    }
}

/// Whether row `a` was complete before row `b`. Of two that were complete at the same time, the one
/// listed first counts as the earlier.
pub open spec fn earlier(rows: Seq<Stat>, a: int, b: int) -> bool {
    match (rows[a].t_fin, rows[b].t_fin) {
        (Some(x), Some(y)) => x < y || (x == y && a < b),
        _ => false,
    }
}

/// Whether `order` lists the complete rows, each once, the earlier ones first.
pub open spec fn is_finish_order(rows: Seq<Stat>, order: Seq<int>) -> bool {
    &&& forall|i: int|
        0 <= i < order.len() ==> 0 <= #[trigger] order[i] < rows.len()
            && rows[order[i]].t_fin is Some
    &&& forall|i: int, j: int|
        0 <= i < j < order.len() ==> earlier(rows, #[trigger] order[i], #[trigger] order[j])
    &&& forall|a: int| 0 <= a < rows.len() && (#[trigger] rows[a]).t_fin is Some ==> order.contains(a)
}

/// Whether a row is the first one that was complete.
pub open spec fn is_first(rows: Seq<Stat>, a: int) -> bool {
    &&& 0 <= a < rows.len()
    &&& rows[a].t_fin is Some
    &&& forall|b: int|
        0 <= b < rows.len() && b != a && (#[trigger] rows[b]).t_fin is Some ==> earlier(rows, a, b)
}

/// Whether `r` names the tag and the urgency of the first complete row, or nothing if no row is
/// complete.
pub open spec fn names_first(rows: Seq<Stat>, r: Option<(&'static str, u8)>) -> bool {
    match r {
        Some((tag, urgency)) => exists|a: int| #[trigger]
            is_first(rows, a) && tag == rows[a].tag && urgency == rows[a].urgency,
        None => forall|a: int| 0 <= a < rows.len() ==> (#[trigger] rows[a]).t_fin is None,
    }
}

/// Row numbers as mathematical integers.
pub open spec fn positions(order: Seq<usize>) -> Seq<int> {
    order.map_values(|a: usize| a as int)
}

/// Lists the complete rows, the earlier ones first.
pub fn finish_order(rows: &[Stat]) -> (r: Vec<usize>)
    ensures
        is_finish_order(rows@, positions(r@)),
{
    let mut out: Vec<usize> = Vec::new();
    for b in 0..rows.len()
        invariant
            is_finish_order(rows@.take(b as int), positions(out@)),
    {
        let ghost seen = rows@.take(b as int);
        let ghost now = rows@.take(b + 1);
        let ghost before = out@;
        assert(forall|a: int| 0 <= a < b ==> seen[a] == now[a]);
        assert forall|i: int| 0 <= i < before.len() implies #[trigger] before[i] < b
            && now[before[i] as int] == seen[before[i] as int] && seen[before[i] as int].t_fin is Some by {
            assert(positions(before)[i] == before[i] as int);
        }
        match rows[b].t_fin {
            Some(t) => {
                let mut p: usize = out.len();
                while p > 0 && after(rows, out[p - 1], t)
                    invariant
                        p <= out@.len(),
                        out@ == before,
                        b < rows@.len(),
                        forall|i: int| 0 <= i < before.len() ==> #[trigger] before[i] < b,
                        forall|i: int|
                            p <= i < before.len() ==> (rows@[(#[trigger] before[i]) as int].t_fin
                                matches Some(x) && x > t),
                    decreases p,
                {
                    p = p - 1;
                }
                out.insert(p, b);
                proof {
                    lemma_insert_keeps_order(rows@, b as int, before, p as int, t);
                }
                assert(out@ =~= before.insert(p as int, b));
            },
            None => {
                assert(is_finish_order(now, positions(before)));
            },
        }
    }
    assert(rows@.take(rows@.len() as int) =~= rows@);
    out
}

fn after(rows: &[Stat], a: usize, t: u128) -> (r: bool)
    requires
        a < rows@.len(),
    ensures
        r == (rows@[a as int].t_fin matches Some(x) && x > t),
{
    match rows[a].t_fin {
        Some(x) => x > t,
        None => false,
    }
}

proof fn lemma_insert_keeps_order(rows: Seq<Stat>, b: int, before: Seq<usize>, p: int, t: u128)
    requires
        0 <= b < rows.len(),
        b <= usize::MAX,
        0 <= p <= before.len(),
        is_finish_order(rows.take(b), positions(before)),
        rows[b].t_fin == Some(t),
        forall|i: int|
            p <= i < before.len() ==> (rows[(#[trigger] before[i]) as int].t_fin matches Some(x) && x
                > t),
        p > 0 ==> !(rows[before[p - 1] as int].t_fin matches Some(x) && x > t),
    ensures
        is_finish_order(rows.take(b + 1), positions(before.insert(p, b as usize))),
{
    let seen = rows.take(b);
    let now = rows.take(b + 1);
    let old_order = positions(before);
    let after = before.insert(p, b as usize);
    let order = positions(after);
    assert forall|i: int| 0 <= i < before.len() implies 0 <= #[trigger] old_order[i] < b
        && old_order[i] == before[i] && now[old_order[i]] == rows[old_order[i]]
        && seen[old_order[i]] == rows[old_order[i]] && rows[old_order[i]].t_fin is Some by {}
    assert forall|i: int| 0 <= i < order.len() implies #[trigger] order[i] == if i < p {
        old_order[i]
    } else if i == p {
        b
    } else {
        old_order[i - 1]
    } by {}
    assert forall|i: int, j: int| 0 <= i < j < old_order.len() implies earlier(
        rows,
        #[trigger] old_order[i],
        #[trigger] old_order[j],
    ) by {
        assert(earlier(seen, old_order[i], old_order[j]));
    }
    assert forall|i: int| 0 <= i < p implies earlier(rows, #[trigger] old_order[i], b) by {
        assert(old_order[p - 1] == before[p - 1]);
        if i < p - 1 {
            assert(earlier(rows, old_order[i], old_order[p - 1]));
        }
    }
    assert forall|i: int| p <= i < old_order.len() implies earlier(
        rows,
        b,
        #[trigger] old_order[i],
    ) by {
        assert(old_order[i] == before[i]);
    }
    assert forall|i: int, j: int| 0 <= i < j < order.len() implies earlier(
        now,
        #[trigger] order[i],
        #[trigger] order[j],
    ) by {
        assert(earlier(rows, order[i], order[j]));
    }
    assert forall|a: int| 0 <= a < now.len() && (#[trigger] now[a]).t_fin is Some implies order.contains(
        a,
    ) by {
        if a == b {
            assert(order[p] == b);
        } else {
            assert(seen[a] == now[a]);
            assert(old_order.contains(a));
            let i = old_order.index_of(a);
            if i < p {
                assert(order[i] == a);
            } else {
                assert(order[i + 1] == a);
            }
        }
    }
}

/// Finds the tag and the urgency of the first response that was complete.
pub fn first_finisher(rows: &[Stat]) -> (r: Option<(&'static str, u8)>)
    ensures
        names_first(rows@, r),
{
    let mut best: Option<usize> = None;
    for b in 0..rows.len()
        invariant
            match best {
                Some(a) => a < b && is_first(rows@.take(b as int), a as int),
                None => forall|a: int| 0 <= a < b ==> (#[trigger] rows@[a]).t_fin is None,
            },
    {
        let ghost seen = rows@.take(b as int);
        let ghost now = rows@.take(b + 1);
        assert(forall|a: int| 0 <= a < b ==> seen[a] == now[a] && now[a] == rows@[a]);
        if let Some(t) = rows[b].t_fin {
            match best {
                Some(a) => {
                    if after(rows, a, t) {
                        assert forall|c: int|
                            0 <= c < now.len() && c != b && (#[trigger] now[c]).t_fin is Some implies earlier(
                            now,
                            b as int,
                            c,
                        ) by {
                            assert(seen[c].t_fin is Some);
                            if c != a {
                                assert(earlier(seen, a as int, c));
                            }
                        }
                        best = Some(b);
                    } else {
                        assert forall|c: int|
                            0 <= c < now.len() && c != a && (#[trigger] now[c]).t_fin is Some implies earlier(
                            now,
                            a as int,
                            c,
                        ) by {
                            if c < b {
                                assert(seen[c].t_fin is Some);
                                assert(earlier(seen, a as int, c));
                            }
                        }
                    }
                },
                None => {
                    best = Some(b);
                },
            }
        } else if let Some(a) = best {
            assert forall|c: int|
                0 <= c < now.len() && c != a && (#[trigger] now[c]).t_fin is Some implies earlier(
                now,
                a as int,
                c,
            ) by {
                assert(seen[c].t_fin is Some);
                assert(earlier(seen, a as int, c));
            }
        }
    }
    assert(rows@.take(rows@.len() as int) =~= rows@);
    match best {
        Some(a) => Some((rows[a].tag, rows[a].urgency)),
        None => None,
    }
}

/// There is only one finish order.
pub proof fn law_finish_order_is_unique(rows: Seq<Stat>, x: Seq<int>, y: Seq<int>)
    requires
        is_finish_order(rows, x),
        is_finish_order(rows, y),
    ensures
        x == y,
{
    lemma_orders_agree(rows, x, y, if x.len() < y.len() {
        x.len()
    } else {
        y.len()
    });
    if x.len() < y.len() {
        let a = y[x.len() as int];
        assert(rows[a].t_fin is Some);
        assert(x.contains(a));
        let q = x.index_of(a);
        assert(x[q] == y[q]);
        assert(earlier(rows, y[q], y[x.len() as int]));
    } else if y.len() < x.len() {
        let a = x[y.len() as int];
        assert(rows[a].t_fin is Some);
        assert(y.contains(a));
        let q = y.index_of(a);
        assert(x[q] == y[q]);
        assert(earlier(rows, x[q], x[y.len() as int]));
    }
    assert(x =~= y);
}

proof fn lemma_orders_agree(rows: Seq<Stat>, x: Seq<int>, y: Seq<int>, n: nat)
    requires
        is_finish_order(rows, x),
        is_finish_order(rows, y),
        n <= x.len(),
        n <= y.len(),
    ensures
        forall|i: int| 0 <= i < n ==> x[i] == y[i],
    decreases n,
{
    if n > 0 {
        let k = n - 1;
        lemma_orders_agree(rows, x, y, k as nat);
        let a = x[k];
        let b = y[k];
        assert(rows[a].t_fin is Some && rows[b].t_fin is Some);
        if a != b {
            assert(y.contains(a) && x.contains(b));
            let p = y.index_of(a);
            let q = x.index_of(b);
            if p < k {
                assert(x[p] == a);
                assert(earlier(rows, x[p], x[k]));
            }
            if q < k {
                assert(y[q] == b);
                assert(earlier(rows, y[q], y[k]));
            }
            assert(earlier(rows, y[k], y[p]));
            assert(earlier(rows, x[k], x[q]));
        }
    }
}

/// The first response that was complete is the first in the finish order.
pub proof fn law_first_finisher_leads_the_order(rows: Seq<Stat>, order: Seq<int>, a: int)
    requires
        is_finish_order(rows, order),
    ensures
        is_first(rows, a) <==> order.len() > 0 && order[0] == a,
{
    if is_first(rows, a) {
        assert(order.contains(a));
        let i = order.index_of(a);
        if i > 0 {
            assert(earlier(rows, order[0], order[i]));
            assert(rows[order[0]].t_fin is Some);
            assert(earlier(rows, a, order[0]));
        }
    }
    if order.len() > 0 && order[0] == a {
        assert forall|b: int|
            0 <= b < rows.len() && b != a && (#[trigger] rows[b]).t_fin is Some implies earlier(
            rows,
            a,
            b,
        ) by {
            assert(order.contains(b));
            let j = order.index_of(b);
            assert(earlier(rows, order[0], order[j]));
        }
    }
}

/// At most one answer names the first response that was complete.
pub proof fn law_first_finisher_is_unique(
    rows: Seq<Stat>,
    x: Option<(&'static str, u8)>,
    y: Option<(&'static str, u8)>,
)
    requires
        names_first(rows, x),
        names_first(rows, y),
    ensures
        x == y,
{
    match (x, y) {
        (Some(_), Some(_)) => {
            let a = choose|a: int| #[trigger]
                is_first(rows, a) && x == Some((rows[a].tag, rows[a].urgency));
            let b = choose|b: int| #[trigger]
                is_first(rows, b) && y == Some((rows[b].tag, rows[b].urgency));
            if a != b {
                assert(earlier(rows, a, b));
                assert(earlier(rows, b, a));
            }
        },
        _ => {},
    }
}

/// A finish order is as long as there are complete responses.
pub proof fn law_finish_order_is_complete(rows: Seq<Stat>, order: Seq<int>)
    requires
        is_finish_order(rows, order),
    ensures
        order.len() == finished_count(rows),
    decreases rows.len(),
{
    if rows.len() == 0 {
        if order.len() > 0 {
            assert(0 <= order[0] < rows.len());
        }
    } else {
        let rest = rows.drop_last();
        let n = rest.len() as int;
        assert(forall|a: int| 0 <= a < n ==> rest[a] == rows[a]);
        if rows.last().t_fin is Some {
            assert(rows[n].t_fin is Some);
            assert(order.contains(n));
            let p = order.index_of(n);
            let shorter = order.remove(p);
            assert forall|i: int| 0 <= i < shorter.len() implies 0 <= #[trigger] shorter[i] < n
                && rest[shorter[i]].t_fin is Some by {
                let k = if i < p {
                    i
                } else {
                    i + 1
                };
                assert(shorter[i] == order[k]);
                if k < p {
                    assert(earlier(rows, order[k], order[p]));
                } else {
                    assert(earlier(rows, order[p], order[k]));
                }
            }
            assert forall|i: int, j: int| 0 <= i < j < shorter.len() implies earlier(
                rest,
                #[trigger] shorter[i],
                #[trigger] shorter[j],
            ) by {
                let k = if i < p {
                    i
                } else {
                    i + 1
                };
                let l = if j < p {
                    j
                } else {
                    j + 1
                };
                assert(earlier(rows, order[k], order[l]));
            }
            assert forall|a: int|
                0 <= a < rest.len() && (#[trigger] rest[a]).t_fin is Some implies shorter.contains(
                a,
            ) by {
                assert(rows[a].t_fin is Some);
                assert(order.contains(a));
                let k = order.index_of(a);
                if k < p {
                    assert(shorter[k] == a);
                } else {
                    assert(shorter[k - 1] == a);
                }
            }
            law_finish_order_is_complete(rest, shorter);
        } else {
            assert forall|i: int| 0 <= i < order.len() implies 0 <= #[trigger] order[i] < n
                && rest[order[i]].t_fin is Some by {
                assert(rows[order[i]].t_fin is Some);
            }
            assert forall|i: int, j: int| 0 <= i < j < order.len() implies earlier(
                rest,
                #[trigger] order[i],
                #[trigger] order[j],
            ) by {
                assert(earlier(rows, order[i], order[j]));
            }
            assert forall|a: int|
                0 <= a < rest.len() && (#[trigger] rest[a]).t_fin is Some implies order.contains(
                a,
            ) by {
                assert(rows[a].t_fin is Some);
            }
            law_finish_order_is_complete(rest, order);
        }
    }
}

/// The complete rows, in the order in which they are listed.
pub open spec fn finished_rows(rows: Seq<Stat>) -> Seq<Stat> {
    rows.filter(|s: Stat| s.t_fin is Some)
}

/// Whether complete responses that were equally fast are equally urgent.
pub open spec fn ties_are_equally_urgent(rows: Seq<Stat>) -> bool {
    forall|i: int, j: int|
        0 <= i < rows.len() && 0 <= j < rows.len() && rows[i].t_fin is Some && rows[j].t_fin is Some
            && finish_delay(#[trigger] rows[i]) == finish_delay(#[trigger] rows[j])
            ==> rows[i].urgency == rows[j].urgency
}

proof fn lemma_finished_rows_step(rows: Seq<Stat>)
    requires
        rows.len() > 0,
    ensures
        finished_rows(rows) == if rows.last().t_fin is Some {
            finished_rows(rows.drop_last()).push(rows.last())
        } else {
            finished_rows(rows.drop_last())
        },
{
    reveal(Seq::filter);
}

proof fn lemma_inversions_with_finished_rows(rows: Seq<Stat>, later: Stat)
    ensures
        inversions_with(finished_rows(rows), later) == inversions_with(rows, later),
    decreases rows.len(),
{
    if rows.len() == 0 {
        reveal(Seq::filter);
    } else {
        let rest = rows.drop_last();
        lemma_finished_rows_step(rows);
        lemma_inversions_with_finished_rows(rest, later);
        assert(finished_rows(rest).push(rows.last()).drop_last() =~= finished_rows(rest));
    }
}

/// Rows without a complete response do not matter, wherever and however many they are: the counts
/// are those of the complete rows alone.
pub proof fn law_unfinished_rows_do_not_matter(rows: Seq<Stat>)
    ensures
        finished_count(rows) == finished_rows(rows).len(),
        finished_count(finished_rows(rows)) == finished_count(rows),
        inversions(finished_rows(rows)) == inversions(rows),
    decreases rows.len(),
{
    if rows.len() == 0 {
        reveal(Seq::filter);
    } else {
        let rest = rows.drop_last();
        lemma_finished_rows_step(rows);
        law_unfinished_rows_do_not_matter(rest);
        lemma_inversions_with_finished_rows(rest, rows.last());
        lemma_inversions_with_bound(rest, rows.last());
        assert(finished_rows(rest).push(rows.last()).drop_last() =~= finished_rows(rest));
    }
}

proof fn lemma_inversions_with_remove(rows: Seq<Stat>, p: int, other: Stat)
    requires
        0 <= p < rows.len(),
    ensures
        inversions_with(rows, other) == inversions_with(rows.remove(p), other) + if inverted(
            rows[p],
            other,
        ) {
            1nat
        } else {
            0
        },
    decreases rows.len(),
{
    let rest = rows.drop_last();
    if p == rest.len() {
        assert(rows.remove(p) =~= rest);
    } else {
        lemma_inversions_with_remove(rest, p, other);
        assert(rows.remove(p).drop_last() =~= rest.remove(p));
        assert(rows.remove(p).last() == rows.last());
    }
}

proof fn lemma_inversions_remove(rows: Seq<Stat>, p: int)
    requires
        0 <= p < rows.len(),
        ties_are_equally_urgent(rows),
    ensures
        inversions(rows) == inversions(rows.remove(p)) + inversions_with(rows.remove(p), rows[p]),
    decreases rows.len(),
{
    let rest = rows.drop_last();
    if p == rest.len() {
        assert(rows.remove(p) =~= rest);
    } else {
        let last = rows.last();
        assert(forall|i: int| 0 <= i < rest.len() ==> rest[i] == rows[i]);
        assert(ties_are_equally_urgent(rest));
        lemma_inversions_remove(rest, p);
        lemma_inversions_with_remove(rest, p, last);
        assert(rows.remove(p).drop_last() =~= rest.remove(p));
        assert(rows.remove(p).last() == last);
        assert(last == rows[rows.len() - 1]);
        assert(inverted(rows[p], last) == inverted(last, rows[p]));
    }
}

proof fn lemma_same_rows_step(x: Seq<Stat>, y: Seq<Stat>) -> (p: int)
    requires
        x.len() > 0,
        x.to_multiset() == y.to_multiset(),
    ensures
        0 <= p < y.len(),
        y[p] == x.last(),
        x.drop_last().to_multiset() == y.remove(p).to_multiset(),
{
    x.to_multiset_ensures();
    y.to_multiset_ensures();
    let last = x.last();
    assert(x[x.len() - 1] == last);
    assert(x.contains(last));
    assert(y.to_multiset().count(last) > 0);
    assert(y.contains(last));
    let p = y.index_of(last);
    assert(x.remove(x.len() - 1) =~= x.drop_last());
    p
}

proof fn lemma_inversions_with_same_rows(x: Seq<Stat>, y: Seq<Stat>, other: Stat)
    requires
        x.to_multiset() == y.to_multiset(),
    ensures
        inversions_with(x, other) == inversions_with(y, other),
    decreases x.len(),
{
    if x.len() == 0 {
        x.to_multiset_ensures();
        y.to_multiset_ensures();
    } else {
        let p = lemma_same_rows_step(x, y);
        lemma_inversions_with_same_rows(x.drop_last(), y.remove(p), other);
        lemma_inversions_with_remove(y, p, other);
    }
}

proof fn lemma_inversions_same_rows(x: Seq<Stat>, y: Seq<Stat>)
    requires
        x.to_multiset() == y.to_multiset(),
        ties_are_equally_urgent(y),
    ensures
        inversions(x) == inversions(y),
    decreases x.len(),
{
    if x.len() == 0 {
        x.to_multiset_ensures();
        y.to_multiset_ensures();
    } else {
        let p = lemma_same_rows_step(x, y);
        let shorter = y.remove(p);
        assert forall|i: int| 0 <= i < shorter.len() implies #[trigger] shorter[i] == y[if i < p {
            i
        } else {
            i + 1
        }] by {}
        assert(ties_are_equally_urgent(shorter));
        lemma_inversions_same_rows(x.drop_last(), shorter);
        lemma_inversions_with_same_rows(x.drop_last(), shorter, x.last());
        lemma_inversions_remove(y, p);
    }
}

/// Neither the order of the rows nor rows without a complete response matter: two lists with the
/// same complete rows give the same counts. This leaves out complete responses that were equally
/// fast and differ in urgency, since of those the one listed first counts as the faster; where all
/// delays differ there are none.
pub proof fn law_listing_does_not_matter(x: Seq<Stat>, y: Seq<Stat>)
    requires
        finished_rows(x).to_multiset() == finished_rows(y).to_multiset(),
        ties_are_equally_urgent(x),
    ensures
        finished_count(x) == finished_count(y),
        pair_count(finished_count(x)) == pair_count(finished_count(y)),
        inversions(x) == inversions(y),
{
    let a = finished_rows(x);
    let b = finished_rows(y);
    law_unfinished_rows_do_not_matter(x);
    law_unfinished_rows_do_not_matter(y);
    a.to_multiset_ensures();
    b.to_multiset_ensures();
    assert forall|i: int, j: int|
        0 <= i < a.len() && 0 <= j < a.len() && a[i].t_fin is Some && a[j].t_fin is Some
            && finish_delay(#[trigger] a[i]) == finish_delay(#[trigger] a[j]) implies a[i].urgency
        == a[j].urgency by {
        let complete = |s: Stat| s.t_fin is Some;
        assert(a.contains(a[i]) && a.contains(a[j]));
        x.lemma_filter_contains_rev(complete, a[i]);
        x.lemma_filter_contains_rev(complete, a[j]);
        let k = x.index_of(a[i]);
        let l = x.index_of(a[j]);
        assert(x[k] == a[i] && x[l] == a[j]);
    }
    lemma_inversions_same_rows(b, a);
}

/// The delay of a complete response is the time from sending to finishing, and none if the clock
/// went back.
pub proof fn law_finish_delay(s: Stat, fin: u128)
    requires
        s.t_fin == Some(fin),
    ensures
        fin >= s.t_sent ==> s.t_sent + finish_delay(s) == fin,
        fin < s.t_sent ==> finish_delay(s) == 0,
{
}

/// Two complete responses are inverted exactly if one was faster and has the higher urgency
/// number, or both were equally fast and the first listed has it. Incomplete ones never are.
pub proof fn law_inverted(first: Stat, second: Stat)
    ensures
        inverted(first, second) <==> {
            &&& first.t_fin is Some
            &&& second.t_fin is Some
            &&& {
                ||| finish_delay(first) < finish_delay(second) && first.urgency > second.urgency
                ||| finish_delay(second) < finish_delay(first) && second.urgency > first.urgency
                ||| finish_delay(first) == finish_delay(second) && first.urgency > second.urgency
            }
        },
{
}

/// The complete responses are counted one by one.
pub proof fn law_finished_are_counted(rows: Seq<Stat>)
    ensures
        Set::new(|i: int| 0 <= i < rows.len() && rows[i].t_fin is Some).finite(),
        finished_count(rows) == Set::new(
            |i: int| 0 <= i < rows.len() && rows[i].t_fin is Some,
        ).len(),
    decreases rows.len(),
{
    let all = Set::new(|i: int| 0 <= i < rows.len() && rows[i].t_fin is Some);
    if rows.len() == 0 {
        assert(all =~= Set::<int>::empty());
    } else {
        let rest = rows.drop_last();
        let before = Set::new(|i: int| 0 <= i < rest.len() && rest[i].t_fin is Some);
        law_finished_are_counted(rest);
        if rows.last().t_fin is Some {
            assert(all =~= before.insert(rest.len() as int));
        } else {
            assert(all =~= before);
        }
    }
}

proof fn lemma_inversions_with_counted(rows: Seq<Stat>, n: int, j: int)
    requires
        0 <= n <= j < rows.len(),
    ensures
        Set::new(|p: (int, int)| p.1 == j && 0 <= p.0 < n && inverted(rows[p.0], rows[j])).finite(),
        inversions_with(rows.take(n), rows[j]) == Set::new(
            |p: (int, int)| p.1 == j && 0 <= p.0 < n && inverted(rows[p.0], rows[j]),
        ).len(),
    decreases n,
{
    let all = Set::new(|p: (int, int)| p.1 == j && 0 <= p.0 < n && inverted(rows[p.0], rows[j]));
    if n == 0 {
        assert(all =~= Set::<(int, int)>::empty());
    } else {
        let before = Set::new(
            |p: (int, int)| p.1 == j && 0 <= p.0 < n - 1 && inverted(rows[p.0], rows[j]),
        );
        lemma_inversions_with_counted(rows, n - 1, j);
        assert(rows.take(n).drop_last() =~= rows.take(n - 1));
        if inverted(rows[n - 1], rows[j]) {
            assert(all =~= before.insert((n - 1, j)));
        } else {
            assert(all =~= before);
        }
    }
}

proof fn lemma_inversions_counted(rows: Seq<Stat>, n: int)
    requires
        0 <= n <= rows.len(),
    ensures
        Set::new(|p: (int, int)| 0 <= p.0 < p.1 < n && inverted(rows[p.0], rows[p.1])).finite(),
        inversions(rows.take(n)) == Set::new(
            |p: (int, int)| 0 <= p.0 < p.1 < n && inverted(rows[p.0], rows[p.1]),
        ).len(),
    decreases n,
{
    let all = Set::new(|p: (int, int)| 0 <= p.0 < p.1 < n && inverted(rows[p.0], rows[p.1]));
    if n == 0 {
        assert(all =~= Set::<(int, int)>::empty());
    } else {
        let j = n - 1;
        let before = Set::new(
            |p: (int, int)| 0 <= p.0 < p.1 < j && inverted(rows[p.0], rows[p.1]),
        );
        let with = Set::new(
            |p: (int, int)| p.1 == j && 0 <= p.0 < j && inverted(rows[p.0], rows[j]),
        );
        lemma_inversions_counted(rows, j);
        lemma_inversions_with_counted(rows, j, j);
        assert(rows.take(n).drop_last() =~= rows.take(j));
        assert(rows.take(n).last() == rows[j]);
        assert(all =~= before + with);
        assert(before.disjoint(with));
        vstd::set_lib::lemma_set_disjoint_lens(before, with);
    }
}

/// The inversions are counted pair by pair, each pair of rows once.
pub proof fn law_inversions_are_counted(rows: Seq<Stat>)
    ensures
        Set::new(
            |p: (int, int)| 0 <= p.0 < p.1 < rows.len() && inverted(rows[p.0], rows[p.1]),
        ).finite(),
        inversions(rows) == Set::new(
            |p: (int, int)| 0 <= p.0 < p.1 < rows.len() && inverted(rows[p.0], rows[p.1]),
        ).len(),
{
    assert(rows.take(rows.len() as int) =~= rows);
    lemma_inversions_counted(rows, rows.len() as int);
}

/// Of `n` things there are half of `n * (n - 1)` pairs.
pub proof fn law_pair_count(n: nat)
    ensures
        2 * pair_count(n) == n * (n - 1),
        pair_count(n + 1) == pair_count(n) + n,
{
    lemma_pair_count_step(n);
}

/// What a finish order says: it lists every complete row, nothing else, nothing twice, and by
/// ascending time, rows of the same time as they are listed.
pub proof fn law_finish_order_means(rows: Seq<Stat>, order: Seq<int>)
    requires
        is_finish_order(rows, order),
    ensures
        forall|i: int|
            0 <= i < order.len() ==> 0 <= #[trigger] order[i] < rows.len()
                && rows[order[i]].t_fin is Some,
        forall|a: int|
            0 <= a < rows.len() && (#[trigger] rows[a]).t_fin is Some ==> order.contains(a),
        forall|i: int, j: int|
            0 <= i < j < order.len() ==> {
                let a = #[trigger] order[i];
                let b = #[trigger] order[j];
                ||| rows[a].t_fin->0 < rows[b].t_fin->0
                ||| rows[a].t_fin->0 == rows[b].t_fin->0 && a < b
            },
{
    assert forall|i: int, j: int| 0 <= i < j < order.len() implies {
        let a = #[trigger] order[i];
        let b = #[trigger] order[j];
        ||| rows[a].t_fin->0 < rows[b].t_fin->0
        ||| rows[a].t_fin->0 == rows[b].t_fin->0 && a < b
    } by {
        assert(earlier(rows, order[i], order[j]));
    }
}

/// Row numbers are seen as the numbers they are.
pub proof fn law_positions(order: Seq<usize>)
    ensures
        positions(order).len() == order.len(),
        forall|i: int| 0 <= i < order.len() ==> #[trigger] positions(order)[i] == order[i],
{
}

/// What naming the first finisher says: nothing only if no row is complete; otherwise the tag and
/// the urgency of a complete row that no complete row precedes in time, nor in the list at the same
/// time.
pub proof fn law_first_finisher_means(rows: Seq<Stat>, r: Option<(&'static str, u8)>)
    requires
        names_first(rows, r),
    ensures
        match r {
            Some((tag, urgency)) => exists|a: int|
                #![trigger rows[a]]
                {
                    &&& 0 <= a < rows.len()
                    &&& rows[a].t_fin is Some
                    &&& rows[a].tag == tag
                    &&& rows[a].urgency == urgency
                    &&& forall|b: int|
                        0 <= b < rows.len() && (#[trigger] rows[b]).t_fin is Some
                            ==> rows[a].t_fin->0 <= rows[b].t_fin->0
                    &&& forall|b: int|
                        0 <= b < a && (#[trigger] rows[b]).t_fin is Some ==> rows[a].t_fin->0
                            < rows[b].t_fin->0
                },
            None => forall|a: int| 0 <= a < rows.len() ==> (#[trigger] rows[a]).t_fin is None,
        },
{
    if let Some((tag, urgency)) = r {
        let a = choose|a: int| #[trigger]
            is_first(rows, a) && tag == rows[a].tag && urgency == rows[a].urgency;
        assert forall|b: int|
            0 <= b < rows.len() && (#[trigger] rows[b]).t_fin is Some implies rows[a].t_fin->0
            <= rows[b].t_fin->0 && (b < a ==> rows[a].t_fin->0 < rows[b].t_fin->0) by {
            if b != a {
                assert(earlier(rows, a, b));
            }
        }
    }
}

/// The complete rows of a list are those of its rows that are complete, in the same order: a
/// further row is added at the end if it is complete.
pub proof fn law_finished_rows(rows: Seq<Stat>, row: Stat)
    ensures
        finished_rows(Seq::empty()).len() == 0,
        finished_rows(rows.push(row)) == if row.t_fin is Some {
            finished_rows(rows).push(row)
        } else {
            finished_rows(rows)
        },
{
    reveal(Seq::filter);
    lemma_finished_rows_step(rows.push(row));
    assert(rows.push(row).drop_last() =~= rows);
}

} // verus!
