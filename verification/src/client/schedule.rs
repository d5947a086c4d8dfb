//! Priority updates that are sent once, some time after the start of a run.
use vstd::prelude::*;

verus! {

/// The priority of a request.
#[derive(Debug, Clone, Copy, PartialEq, Eq, Structural)]
pub struct Priority {
    pub urgency: u8,
    pub incremental: bool,
}

/// A change of priority that is announced some time into a run.
#[derive(Debug, Clone, Copy, PartialEq, Eq, Structural)]
pub struct PriorityUpdate {
    /// The number of the request whose priority changes.
    pub request: usize,
    pub priority: Priority,
    /// Nanoseconds from the start of the run.
    pub delay: u128,
}

/// Whether an update is to be dealt with now: its time has come and it has not been dealt with.
pub open spec fn is_due(
    updates: Seq<PriorityUpdate>,
    fired: Seq<bool>,
    now: u128,
    k: int,
) -> bool {
    !fired[k] && now >= updates[k].delay
}

/// The first `n` updates that are due and whose request has a stream: their number and the stream.
pub open spec fn due_among(
    updates: Seq<PriorityUpdate>,
    fired: Seq<bool>,
    sids: Seq<u64>,
    now: u128,
    n: nat,
) -> Seq<(usize, u64)>
    decreases n,
{
    if n == 0 {
        Seq::empty()
    } else {
        let k = n - 1;
        let before = due_among(updates, fired, sids, now, k as nat);
        if is_due(updates, fired, now, k) && updates[k].request < sids.len() {
            before.push((k as usize, sids[updates[k].request as int]))
        } else {
            before
        }
    }
}

/// The updates to send now.
pub open spec fn due_updates(
    updates: Seq<PriorityUpdate>,
    fired: Seq<bool>,
    sids: Seq<u64>,
    now: u128,
) -> Seq<(usize, u64)> {
    due_among(updates, fired, sids, now, updates.len())
}

/// Which updates have been dealt with after a sweep.
pub open spec fn fired_after(
    updates: Seq<PriorityUpdate>,
    fired: Seq<bool>,
    now: u128,
) -> Seq<bool> {
    Seq::new(fired.len(), |k: int| fired[k] || now >= updates[k].delay)
}

/// Collects the updates that are due and marks them as dealt with, those without a stream too.
pub fn sweep(
    updates: &[PriorityUpdate],
    fired: &mut Vec<bool>,
    sids: &[u64],
    now: u128,
) -> (due: Vec<(usize, u64)>)
    requires
        old(fired)@.len() == updates@.len(),
    ensures
        due@ == due_updates(updates@, old(fired)@, sids@, now),
        final(fired)@ == fired_after(updates@, old(fired)@, now),
{
    let ghost before = fired@;
    let mut due: Vec<(usize, u64)> = Vec::new();
    for k in 0..updates.len()
        invariant
            before.len() == updates@.len(),
            fired@.len() == before.len(),
            due@ == due_among(updates@, before, sids@, now, k as nat),
            forall|j: int|
                0 <= j < k ==> fired@[j] == (before[j] || now >= (#[trigger] updates@[j]).delay),
            forall|j: int| k <= j < before.len() ==> fired@[j] == before[j],
    {
        let update = updates[k];
        if !fired[k] && now >= update.delay {
            if update.request < sids.len() {
                due.push((k, sids[update.request]));
            }
            fired[k] = true;
        }
    }
    assert(fired@ =~= fired_after(updates@, before, now));
    due
}

proof fn lemma_due_members(
    updates: Seq<PriorityUpdate>,
    fired: Seq<bool>,
    sids: Seq<u64>,
    now: u128,
    n: nat,
)
    requires
        n <= updates.len() == fired.len(),
        updates.len() <= usize::MAX,
    ensures
        forall|i: int|
            #![trigger due_among(updates, fired, sids, now, n)[i]]
            0 <= i < due_among(updates, fired, sids, now, n).len() ==> {
                let (k, sid) = due_among(updates, fired, sids, now, n)[i];
                k < n && is_due(updates, fired, now, k as int) && updates[k as int].request
                    < sids.len() && sid == sids[updates[k as int].request as int]
            },
        forall|k: int|
            0 <= k < n && #[trigger] is_due(updates, fired, now, k) && updates[k].request
                < sids.len() ==> due_among(updates, fired, sids, now, n).contains(
                (k as usize, sids[updates[k].request as int]),
            ),
    decreases n,
{
    if n > 0 {
        let k = n - 1;
        lemma_due_members(updates, fired, sids, now, k as nat);
        let before = due_among(updates, fired, sids, now, k as nat);
        let all = due_among(updates, fired, sids, now, n);
        assert forall|i: int| 0 <= i < all.len() implies {
            let (j, sid) = #[trigger] all[i];
            j < n && is_due(updates, fired, now, j as int) && updates[j as int].request
                < sids.len() && sid == sids[updates[j as int].request as int]
        } by {
            if i < before.len() {
                assert(all[i] == before[i]);
            }
        }
        assert forall|j: int|
            0 <= j < n && #[trigger] is_due(updates, fired, now, j) && updates[j].request
                < sids.len() implies all.contains(
            (j as usize, sids[updates[j].request as int]),
        ) by {
            let item = (j as usize, sids[updates[j].request as int]);
            if j < k {
                let i = before.index_of(item);
                assert(before.contains(item));
                assert(all[i] == item);
            } else {
                assert(all[all.len() - 1] == item);
            }
        }
    }
}

/// An update is sent exactly when its time has come, it has not been dealt with, and its request
/// has a stream; it is sent on that stream.
pub proof fn law_what_is_sent(
    updates: Seq<PriorityUpdate>,
    fired: Seq<bool>,
    sids: Seq<u64>,
    now: u128,
    k: usize,
    sid: u64,
)
    requires
        updates.len() == fired.len(),
        updates.len() <= usize::MAX,
    ensures
        due_updates(updates, fired, sids, now).contains((k, sid)) <==> k < updates.len() && is_due(
            updates,
            fired,
            now,
            k as int,
        ) && updates[k as int].request < sids.len() && sid == sids[updates[k as int].request as int],
{
    lemma_due_members(updates, fired, sids, now, updates.len());
    let all = due_updates(updates, fired, sids, now);
    if all.contains((k, sid)) {
        let i = all.index_of((k, sid));
        assert(all[i] == (k, sid));
    }
}

/// An update is sent at most once: what one sweep sends, no later sweep sends.
pub proof fn law_update_is_sent_once(
    updates: Seq<PriorityUpdate>,
    fired: Seq<bool>,
    sids: Seq<u64>,
    later_sids: Seq<u64>,
    now: u128,
    later: u128,
    k: usize,
    sid: u64,
    later_sid: u64,
)
    requires
        updates.len() == fired.len(),
        updates.len() <= usize::MAX,
        due_updates(updates, fired, sids, now).contains((k, sid)),
    ensures
        !due_updates(updates, fired_after(updates, fired, now), later_sids, later).contains(
            (k, later_sid),
        ),
        fired_after(updates, fired, now)[k as int],
{
    law_what_is_sent(updates, fired, sids, now, k, sid);
    law_what_is_sent(
        updates,
        fired_after(updates, fired, now),
        later_sids,
        later,
        k,
        later_sid,
    );
}

/// What has been dealt with stays so.
pub proof fn law_dealt_with_stays(updates: Seq<PriorityUpdate>, fired: Seq<bool>, now: u128, k: int)
    requires
        0 <= k < fired.len(),
        fired[k],
    ensures
        fired_after(updates, fired, now)[k],
{
}

} // verus!
