//! What holds of every state of a run with several requests, from its start on.
use vstd::prelude::*;

use crate::client::driver::Event;
use crate::client::multi;
use crate::client::multi::MultiView;

verus! {

/// The state after some events, each with its time, from a given state on.
pub open spec fn state_after(start: MultiView, inputs: Seq<(Event, u128)>) -> MultiView
    decreases inputs.len(),
{
    if inputs.len() == 0 {
        start
    } else {
        let (event, now) = inputs.last();
        state_after(start, inputs.drop_last()).after(event, now)
    }
}

/// Whether the events can happen one after the other from the start of a run on.
pub open spec fn is_run(start: MultiView, inputs: Seq<(Event, u128)>) -> bool {
    &&& start.is_start()
    &&& forall|i: int|
        0 <= i < inputs.len() ==> state_after(start, inputs.take(i)).accepts(
            (#[trigger] inputs[i]).0,
        )
}

/// Whether the times of the events never go back.
pub open spec fn times_never_go_back(inputs: Seq<(Event, u128)>) -> bool {
    forall|i: int, j: int|
        0 <= i <= j < inputs.len() ==> (#[trigger] inputs[i]).1 <= (#[trigger] inputs[j]).1
}

proof fn lemma_prefix_of_run(start: MultiView, inputs: Seq<(Event, u128)>, n: int)
    requires
        is_run(start, inputs),
        0 <= n <= inputs.len(),
    ensures
        is_run(start, inputs.take(n)),
{
    let prefix = inputs.take(n);
    assert forall|i: int| 0 <= i < prefix.len() implies state_after(
        start,
        prefix.take(i),
    ).accepts((#[trigger] prefix[i]).0) by {
        assert(prefix.take(i) =~= inputs.take(i));
        assert(prefix[i] == inputs[i]);
    }
}

proof fn lemma_last_of_run(start: MultiView, inputs: Seq<(Event, u128)>)
    requires
        is_run(start, inputs),
        inputs.len() > 0,
    ensures
        is_run(start, inputs.drop_last()),
        state_after(start, inputs.drop_last()).accepts(inputs.last().0),
{
    let n = inputs.len() - 1;
    lemma_prefix_of_run(start, inputs, n);
    assert(inputs.take(n) =~= inputs.drop_last());
    assert(inputs[n] == inputs.last());
}

/// Every state of a run is consistent, and the requests and updates stay those of its start.
pub proof fn law_a_run_stays_consistent(start: MultiView, inputs: Seq<(Event, u128)>)
    requires
        is_run(start, inputs),
    ensures
        state_after(start, inputs).wf(),
        state_after(start, inputs).reqs == start.reqs,
        state_after(start, inputs).updates == start.updates,
    decreases inputs.len(),
{
    if inputs.len() > 0 {
        lemma_last_of_run(start, inputs);
        law_a_run_stays_consistent(start, inputs.drop_last());
        let (event, now) = inputs.last();
        multi::law_steps_keep_the_state_consistent(
            state_after(start, inputs.drop_last()),
            event,
            now,
        );
    }
}

/// In every state of a run whose streams differ, the record of the stream on which a request was
/// sent has the tag and the priority of that request.
pub proof fn law_records_name_their_request(start: MultiView, inputs: Seq<(Event, u128)>)
    requires
        is_run(start, inputs),
        state_after(start, inputs).sids.no_duplicates(),
    ensures
        ({
            let m = state_after(start, inputs);
            &&& m.sids.len() <= start.reqs.len()
            &&& forall|i: int|
                0 <= i < m.sids.len() ==> {
                    let sid = #[trigger] m.sids[i];
                    let stat = m.stats[sid];
                    let req = start.reqs[i];
                    &&& m.stats.contains_key(sid)
                    &&& stat.sid == sid
                    &&& stat.tag == req.tag
                    &&& stat.urgency == req.urgency
                    &&& stat.incremental == req.incremental
                }
        }),
    decreases inputs.len(),
{
    law_a_run_stays_consistent(start, inputs);
    if inputs.len() > 0 {
        let rest = inputs.drop_last();
        let before = state_after(start, rest);
        let m = state_after(start, inputs);
        let (event, now) = inputs.last();
        lemma_last_of_run(start, inputs);
        law_a_run_stays_consistent(start, rest);
        assert(forall|i: int| 0 <= i < before.sids.len() ==> before.sids[i] == m.sids[i]);
        assert(before.sids.no_duplicates());
        law_records_name_their_request(start, rest);
        assert forall|i: int| 0 <= i < m.sids.len() implies {
            let sid = #[trigger] m.sids[i];
            let stat = m.stats[sid];
            let req = start.reqs[i];
            &&& m.stats.contains_key(sid)
            &&& stat.sid == sid
            &&& stat.tag == req.tag
            &&& stat.urgency == req.urgency
            &&& stat.incremental == req.incremental
        } by {
            if i < before.sids.len() {
                let sid = before.sids[i];
                assert(before.stats.contains_key(sid));
                if event == Event::RequestSent(sid) {
                    assert(m.sids[before.sids.len() as int] == sid);
                } else {
                    multi::law_records_follow_their_stream(before, event, now, sid);
                }
            } else {
                multi::law_a_request_starts_its_record(before, m.sids[i], now);
            }
        }
    }
}

/// In every state of a run whose clock never goes back, no response starts or is complete before
/// its request was sent.
pub proof fn law_responses_follow_their_request(start: MultiView, inputs: Seq<(Event, u128)>)
    requires
        is_run(start, inputs),
        times_never_go_back(inputs),
    ensures
        forall|sid: u64|
            #[trigger] state_after(start, inputs).stats.contains_key(sid) ==> {
                let stat = state_after(start, inputs).stats[sid];
                &&& inputs.len() > 0 && stat.t_sent <= inputs.last().1
                &&& stat.t_first matches Some(t) ==> stat.t_sent <= t
                &&& stat.t_fin matches Some(t) ==> stat.t_sent <= t
            },
    decreases inputs.len(),
{
    if inputs.len() > 0 {
        let rest = inputs.drop_last();
        let before = state_after(start, rest);
        let m = state_after(start, inputs);
        let (event, now) = inputs.last();
        lemma_last_of_run(start, inputs);
        law_a_run_stays_consistent(start, rest);
        assert(forall|i: int| 0 <= i < rest.len() ==> rest[i] == inputs[i]);
        law_responses_follow_their_request(start, rest);
        if rest.len() > 0 {
            assert(inputs[rest.len() - 1].1 <= inputs[rest.len() as int].1);
        }
        assert forall|sid: u64| #[trigger] m.stats.contains_key(sid) implies {
            let stat = m.stats[sid];
            &&& stat.t_sent <= now
            &&& stat.t_first matches Some(t) ==> stat.t_sent <= t
            &&& stat.t_fin matches Some(t) ==> stat.t_sent <= t
        } by {
            if event == Event::RequestSent(sid) {
                multi::law_a_request_starts_its_record(before, sid, now);
            } else {
                assert(before.stats.contains_key(sid));
                multi::law_records_follow_their_stream(before, event, now, sid);
            }
        }
    }
}

/// Whether an event of a run is followed by the sending of a priority update.
pub open spec fn update_follows(
    start: MultiView,
    inputs: Seq<(Event, u128)>,
    i: int,
    k: usize,
) -> bool {
    &&& state_after(start, inputs.take(i)).sweeps(inputs[i].0)
    &&& exists|sid: u64| #[trigger]
        state_after(start, inputs.take(i + 1)).due.contains((k, sid))
}

proof fn lemma_step_of_run(start: MultiView, inputs: Seq<(Event, u128)>, i: int)
    requires
        is_run(start, inputs),
        0 <= i < inputs.len(),
    ensures
        state_after(start, inputs.take(i)).wf(),
        state_after(start, inputs.take(i)).updates == start.updates,
        state_after(start, inputs.take(i)).accepts(inputs[i].0),
        state_after(start, inputs.take(i + 1)) == state_after(start, inputs.take(i)).after(
            inputs[i].0,
            inputs[i].1,
        ),
{
    lemma_prefix_of_run(start, inputs, i);
    law_a_run_stays_consistent(start, inputs.take(i));
    assert(inputs.take(i + 1).drop_last() =~= inputs.take(i));
}

proof fn lemma_fired_stays(start: MultiView, inputs: Seq<(Event, u128)>, i: int, j: int, k: int)
    requires
        is_run(start, inputs),
        0 <= i <= j <= inputs.len(),
        0 <= k < start.updates.len(),
        state_after(start, inputs.take(i)).fired[k],
    ensures
        state_after(start, inputs.take(j)).fired[k],
    decreases j - i,
{
    if i < j {
        lemma_step_of_run(start, inputs, i);
        multi::law_fired_updates_stay_fired(
            state_after(start, inputs.take(i)),
            inputs[i].0,
            inputs[i].1,
            k,
        );
        lemma_fired_stays(start, inputs, i + 1, j, k);
    }
}

/// No priority update is sent before its time, and each is sent on the stream of its request.
pub proof fn law_no_update_is_early(
    start: MultiView,
    inputs: Seq<(Event, u128)>,
    i: int,
    k: usize,
    sid: u64,
)
    requires
        is_run(start, inputs),
        0 <= i < inputs.len(),
        state_after(start, inputs.take(i)).sweeps(inputs[i].0),
        state_after(start, inputs.take(i + 1)).due.contains((k, sid)),
    ensures
        k < start.updates.len(),
        inputs[i].1 >= start.updates[k as int].delay,
        sid == state_after(start, inputs.take(i + 1)).sids[start.updates[k as int].request as int],
{
    lemma_step_of_run(start, inputs, i);
    multi::law_updates_are_sent_once(
        state_after(start, inputs.take(i)),
        inputs[i].0,
        inputs[i].1,
        k,
        sid,
    );
}

/// Each priority update is sent at most once in a run.
pub proof fn law_each_update_is_sent_at_most_once(
    start: MultiView,
    inputs: Seq<(Event, u128)>,
    i: int,
    j: int,
    k: usize,
)
    requires
        is_run(start, inputs),
        0 <= i < j < inputs.len(),
        update_follows(start, inputs, i, k),
    ensures
        !update_follows(start, inputs, j, k),
{
    lemma_step_of_run(start, inputs, i);
    lemma_step_of_run(start, inputs, j);
    let sid = choose|sid: u64| #[trigger]
        state_after(start, inputs.take(i + 1)).due.contains((k, sid));
    multi::law_updates_are_sent_once(
        state_after(start, inputs.take(i)),
        inputs[i].0,
        inputs[i].1,
        k,
        sid,
    );
    lemma_fired_stays(start, inputs, i + 1, j, k as int);
    if update_follows(start, inputs, j, k) {
        let again = choose|again: u64| #[trigger]
            state_after(start, inputs.take(j + 1)).due.contains((k, again));
        multi::law_updates_are_sent_once(
            state_after(start, inputs.take(j)),
            inputs[j].0,
            inputs[j].1,
            k,
            again,
        );
    }
}

} // verus!
