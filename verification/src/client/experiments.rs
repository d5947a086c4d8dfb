//! What the experiments ask for, and how their outcome is judged.
use vstd::prelude::*;

use crate::client::order;
use crate::client::request::{Req, ReqView};
use crate::client::schedule::{Priority, PriorityUpdate};
use crate::client::stat::Stat;
use crate::client::verdict;

verus! {

/// How often an experiment is repeated.
pub const TRIALS: usize = 1;

/// Milliseconds from the start of a run to its priority updates.
pub const UPDATE_DELAY_MS: u64 = 100;

/// Requests as values.
pub open spec fn req_views(reqs: Seq<Req>) -> Seq<ReqView> {
    reqs.map_values(|r: Req| r@)
}

/// The requests of the experiment on initial priorities: the least urgent one first.
pub open spec fn ladder(path: Seq<u8>) -> Seq<ReqView> {
    seq![
        ReqView { path, urgency: 7, incremental: false, tag: "u7"@ },
        ReqView { path, urgency: 6, incremental: false, tag: "u6"@ },
        ReqView { path, urgency: 3, incremental: false, tag: "u3"@ },
        ReqView { path, urgency: 0, incremental: false, tag: "u0"@ },
    ]
}

/// The requests of the experiment on priority updates: A is to finish first, C last.
pub open spec fn trio(path: Seq<u8>) -> Seq<ReqView> {
    seq![
        ReqView { path, urgency: 0, incremental: true, tag: "A"@ },
        ReqView { path, urgency: 3, incremental: true, tag: "B"@ },
        ReqView { path, urgency: 7, incremental: true, tag: "C"@ },
    ]
}

/// An update for one of the trio.
pub open spec fn trio_update(request: usize, urgency: u8) -> PriorityUpdate {
    PriorityUpdate {
        request,
        priority: Priority { urgency, incremental: true },
        delay: (UPDATE_DELAY_MS * 1_000_000) as u128,
    }
}

/// The updates that reverse the trio: C is to finish first, A last. That of B repeats its urgency.
pub open spec fn reversal() -> Seq<PriorityUpdate> {
    seq![trio_update(0, 7), trio_update(1, 3), trio_update(2, 0)]
}

/// The requests of the experiment on initial priorities.
pub fn ladder_requests(path: &[u8]) -> (r: Vec<Req>)
    ensures
        req_views(r@) == ladder(path@),
{
    let mut out: Vec<Req> = Vec::new();
    out.push(Req::new(path, 7, false, "u7"));
    out.push(Req::new(path, 6, false, "u6"));
    out.push(Req::new(path, 3, false, "u3"));
    out.push(Req::new(path, 0, false, "u0"));
    assert(req_views(out@) =~= ladder(path@));
    out
}

/// The requests of the experiment on priority updates.
pub fn trio_requests(path: &[u8]) -> (r: Vec<Req>)
    ensures
        req_views(r@) == trio(path@),
{
    let mut out: Vec<Req> = Vec::new();
    out.push(Req::new(path, 0, true, "A"));
    out.push(Req::new(path, 3, true, "B"));
    out.push(Req::new(path, 7, true, "C"));
    assert(req_views(out@) =~= trio(path@));
    out
}

/// The updates of the experiment on priority updates.
pub fn reversal_updates() -> (r: Vec<PriorityUpdate>)
    ensures
        r@ == reversal(),
{
    let delay: u128 = UPDATE_DELAY_MS as u128 * 1_000_000;
    let mut out: Vec<PriorityUpdate> = Vec::new();
    out.push(
        PriorityUpdate {
            request: 0,
            priority: Priority { urgency: 7, incremental: true },
            delay,
        },
    );
    out.push(
        PriorityUpdate {
            request: 1,
            priority: Priority { urgency: 3, incremental: true },
            delay,
        },
    );
    out.push(
        PriorityUpdate {
            request: 2,
            priority: Priority { urgency: 0, incremental: true },
            delay,
        },
    );
    assert(out@ =~= reversal());
    out
}

/// How one trial of the experiment on initial priorities turned out.
#[derive(Debug, Clone, Copy)]
pub struct Trial {
    /// Pairs of complete responses.
    pub pairs: usize,
    /// Pairs in which the faster response is the less urgent one.
    pub inversions: usize,
    /// The tag and the urgency of the first complete response.
    pub first: Option<(&'static str, u8)>,
    pub verdict: &'static str,
}

/// Judges a trial by the records of its run.
pub fn judge(rows: &[Stat]) -> (t: Trial)
    requires
        order::finished_count(rows@) * (order::finished_count(rows@) - 1) <= usize::MAX,
    ensures
        t.pairs == order::pair_count(order::finished_count(rows@)),
        t.inversions == order::inversions(rows@),
        order::names_first(rows@, t.first),
        t.verdict@ == verdict::verdict(t.pairs as nat, t.inversions as nat),
{
    let (pairs, inversions) = order::finish_order_vs_urgency(rows);
    Trial {
        pairs,
        inversions,
        first: order::first_finisher(rows),
        verdict: verdict::verdict_from_ratio(pairs, inversions),
    }
}

/// The trials of the experiment on initial priorities, taken together.
#[derive(Debug, Clone, Copy, PartialEq, Eq, Structural)]
pub struct Tally {
    pub pairs: usize,
    pub inversions: usize,
    /// Trials that had pairs and no inversions.
    pub clean_trials: usize,
}

impl Tally {
    /// No trials.
    pub fn new() -> (t: Tally)
        ensures
            t == (Tally { pairs: 0, inversions: 0, clean_trials: 0 }),
    {
        Tally { pairs: 0, inversions: 0, clean_trials: 0 }
    }

    /// Adds a trial.
    pub fn record(&mut self, pairs: usize, inversions: usize)
        requires
            old(self).pairs + pairs <= usize::MAX,
            old(self).inversions + inversions <= usize::MAX,
            old(self).clean_trials < usize::MAX,
        ensures
            final(self).pairs == old(self).pairs + pairs,
            final(self).inversions == old(self).inversions + inversions,
            final(self).clean_trials == old(self).clean_trials + if inversions == 0 && pairs > 0 {
                1int
            } else {
                0
            },
    {
        self.pairs = self.pairs + pairs;
        self.inversions = self.inversions + inversions;
        if inversions == 0 && pairs > 0 {
            self.clean_trials = self.clean_trials + 1;
        }
    }

    /// The verdict on all trials together.
    pub fn conclusion(&self) -> (r: &'static str)
        ensures
            r@ == verdict::verdict(self.pairs as nat, self.inversions as nat),
    {
        verdict::verdict_from_ratio(self.pairs, self.inversions)
    }
}

/// The tags of the rows that an order lists.
pub open spec fn tags_in(rows: Seq<Stat>, order: Seq<int>) -> Seq<&'static str> {
    order.map_values(|a: int| rows[a].tag)
}

/// The tags of the complete responses, the earlier ones first.
pub fn finish_tags(rows: &[Stat]) -> (r: Vec<&'static str>)
    ensures
        exists|o: Seq<int>| #[trigger]
            order::is_finish_order(rows@, o) && r@ == tags_in(rows@, o),
{
    let listed = order::finish_order(rows);
    let ghost o = order::positions(listed@);
    let mut out: Vec<&'static str> = Vec::new();
    for i in 0..listed.len()
        invariant
            o == order::positions(listed@),
            order::is_finish_order(rows@, o),
            out@ == tags_in(rows@, o).take(i as int),
    {
        assert(o[i as int] == listed@[i as int]);
        out.push(rows[listed[i]].tag);
        assert(out@ =~= tags_in(rows@, o).take(i + 1));
    }
    assert(out@ =~= tags_in(rows@, o));
    out
}

/// Whether an order starts with C, B, A.
pub open spec fn starts_with_cba(tags: Seq<&'static str>) -> bool {
    &&& tags.len() >= 3
    &&& tags[0]@ == "C"@
    &&& tags[1]@ == "B"@
    &&& tags[2]@ == "A"@
}

/// Tells whether a finish order is the one that the updates ask for.
pub fn matches_target(tags: &[&'static str]) -> (r: bool)
    ensures
        r == starts_with_cba(tags@),
{
    tags.len() >= 3 && tags[0].to_owned() == "C".to_owned() && tags[1].to_owned() == "B".to_owned()
        && tags[2].to_owned() == "A".to_owned()
}

} // verus!
