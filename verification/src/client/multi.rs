//! Several GET requests with priorities on one connection.
use vstd::prelude::*;

use crate::client::driver;
use crate::client::driver::{BodyRead, Event, Polled, Rules, Task};
use crate::client::request;
use crate::client::request::Req;
use crate::client::schedule;
use crate::client::schedule::PriorityUpdate;
use crate::client::stat;
use crate::client::stat::{MultiResult, Stat, StatTable};
use crate::header;

verus! {

/// The state of a run with several requests.
pub struct MultiGet {
    reqs: Vec<Req>,
    updates: Vec<PriorityUpdate>,
    task: Task,
    session_open: bool,
    stats: StatTable,
    sids: Vec<u64>,
    fired: Vec<bool>,
    due: Vec<(usize, u64)>,
}

/// The state of a run with several requests, as values.
#[verifier::ext_equal]
pub struct MultiView {
    pub reqs: Seq<Req>,
    pub updates: Seq<PriorityUpdate>,
    pub task: Task,
    pub session_open: bool,
    /// The record of each stream.
    pub stats: Map<u64, Stat>,
    /// The stream of each request that was sent.
    pub sids: Seq<u64>,
    /// Which priority updates have been dealt with.
    pub fired: Seq<bool>,
    /// The priority updates of the last sweep, each with its stream.
    pub due: Seq<(usize, u64)>,
}

impl View for MultiGet {
    type V = MultiView;

    closed spec fn view(&self) -> MultiView {
        MultiView {
            reqs: self.reqs@,
            updates: self.updates@,
            task: self.task,
            session_open: self.session_open,
            stats: self.stats@,
            sids: self.sids@,
            fired: self.fired@,
            due: self.due@,
        }
    }
}

/// The records after body bytes, a status or the end of a response arrived on a stream. Streams
/// without a record are ignored.
pub open spec fn record(
    stats: Map<u64, Stat>,
    sid: u64,
    change: spec_fn(Stat) -> Stat,
) -> Map<u64, Stat> {
    if stats.contains_key(sid) {
        stats.insert(sid, change(stats[sid]))
    } else {
        stats
    }
}

impl MultiView {
    /// How several requests are run: a rejected datagram ends the run, and the connection stays
    /// open when one response is complete.
    pub open spec fn rules(self) -> Rules {
        Rules {
            requests: self.reqs.len() as usize,
            abort_on_bad_datagram: true,
            close_when_finished: false,
        }
    }

    /// Whether the state is one that a run can be in.
    pub open spec fn wf(self) -> bool {
        &&& self.reqs.len() <= usize::MAX
        &&& self.updates.len() <= usize::MAX
        &&& self.fired.len() == self.updates.len()
        &&& stat::filed(self.stats)
        &&& if let Task::SendRequest(i) = self.task {
            self.session_open && i == self.sids.len() && i < self.reqs.len()
        } else {
            self.sids.len() == if self.session_open {
                self.reqs.len()
            } else {
                0
            }
        }
        &&& self.task is UpdatePriorities || self.task is PollSession || self.task is ReadBody
            || self.task is CloseConnection ==> self.session_open
        &&& self.task is OpenSession || self.task is CheckEstablished ==> !self.session_open
        &&& forall|sid: u64| #[trigger] self.stats.contains_key(sid) <==> self.sids.contains(sid)
    }

    /// Whether nothing has happened yet.
    pub open spec fn is_start(self) -> bool {
        &&& self.wf()
        &&& self.task is Wait
        &&& !self.session_open
        &&& self.stats == Map::<u64, Stat>::empty()
        &&& self.sids.len() == 0
        &&& forall|k: int| 0 <= k < self.updates.len() ==> !(#[trigger] self.fired[k])
        &&& self.due.len() == 0
    }

    /// Whether an event can happen in this state. A body is never longer than 64 bits can count.
    pub open spec fn accepts(self, event: Event) -> bool {
        &&& driver::answers(event, self.task)
        &&& match (event, self.task) {
            (Event::BodyRead(BodyRead::Bytes(n)), Task::ReadBody(sid)) => self.stats.contains_key(
                sid,
            ) ==> self.stats[sid].bytes + n <= u64::MAX,
            _ => true,
        }
    }

    /// The records after an event.
    pub open spec fn stats_after(self, event: Event, now: u128) -> Map<u64, Stat> {
        match event {
            Event::RequestSent(sid) => {
                let req = self.reqs[self.sids.len() as int];
                self.stats.insert(
                    sid,
                    stat::fresh_stat(sid, req.tag, req.urgency, req.incremental, now),
                )
            },
            Event::Polled(Polled::Headers { sid, list }) => if request::status_of(
                header::header_views(list@),
            ) is Some {
                record(self.stats, sid, |s: Stat| s.touched(now))
            } else {
                self.stats
            },
            Event::BodyRead(BodyRead::Bytes(n)) => match self.task {
                Task::ReadBody(sid) => if n > 0 {
                    record(self.stats, sid, |s: Stat| s.with_bytes(n as nat, now))
                } else {
                    self.stats
                },
                _ => self.stats,
            },
            Event::Polled(Polled::Finished(sid)) => record(
                self.stats,
                sid,
                |s: Stat| s.finished(now),
            ),
            _ => self.stats,
        }
    }

    /// The streams of the requests after an event.
    pub open spec fn sids_after(self, event: Event) -> Seq<u64> {
        match event {
            Event::RequestSent(sid) => self.sids.push(sid),
            _ => self.sids,
        }
    }

    /// Whether the priority updates are gone through after an event.
    pub open spec fn sweeps(self, event: Event) -> bool {
        driver::reaches_session(self.rules(), self.task, self.session_open, event)
    }

    /// Whether there are requests and all their responses are complete.
    pub open spec fn complete(self) -> bool {
        (exists|sid: u64| #[trigger] self.stats.contains_key(sid)) && stat::all_finished(
            self.stats,
        )
    }

    /// The state after an event.
    pub open spec fn after(self, event: Event, now: u128) -> MultiView {
        let sids = self.sids_after(event);
        let due = if self.sweeps(event) {
            schedule::due_updates(self.updates, self.fired, sids, now)
        } else {
            self.due
        };
        MultiView {
            task: driver::next(
                self.rules(),
                self.task,
                self.session_open,
                event,
                due.len() > 0,
                self.complete(),
            ),
            session_open: self.session_open || event is SessionOpened,
            stats: self.stats_after(event, now),
            sids,
            fired: if self.sweeps(event) {
                schedule::fired_after(self.updates, self.fired, now)
            } else {
                self.fired
            },
            due,
            ..self
        }
    }
}

impl MultiGet {
    /// The start of a run.
    pub fn new(reqs: Vec<Req>, updates: Vec<PriorityUpdate>) -> (m: MultiGet)
        ensures
            m@.is_start(),
            m@.reqs == reqs@,
            m@.updates == updates@,
    {
        let mut fired: Vec<bool> = Vec::new();
        for k in 0..updates.len()
            invariant
                fired@.len() == k,
                forall|j: int| 0 <= j < k ==> !(#[trigger] fired@[j]),
        {
            fired.push(false);
        }
        let m = MultiGet {
            reqs,
            updates,
            task: Task::Wait,
            session_open: false,
            stats: StatTable::new(),
            sids: Vec::new(),
            fired,
            due: Vec::new(),
        };
        assert(m.reqs.len() == m@.reqs.len());
        assert(m.updates.len() == m@.updates.len());
        m
    }

    /// The pending task.
    pub fn task(&self) -> (r: Task)
        ensures
            r == self@.task,
    {
        self.task
    }

    /// The request with the given number.
    pub fn request(&self, i: usize) -> (r: &Req)
        requires
            i < self@.reqs.len(),
        ensures
            *r == self@.reqs[i as int],
    {
        &self.reqs[i]
    }

    /// The priority updates to send: the priority and the stream of each.
    pub fn due_updates(&self) -> (r: &Vec<(usize, u64)>)
        ensures
            r@ == self@.due,
    {
        &self.due
    }

    /// The record of a stream.
    pub fn stat(&self, sid: u64) -> (r: Option<Stat>)
        ensures
            r == if self@.stats.contains_key(sid) {
                Some(self@.stats[sid])
            } else {
                None
            },
    {
        self.stats.get(sid)
    }

    fn record_event(&mut self, event: &Event, now: u128)
        requires
            old(self)@.wf(),
            old(self)@.accepts(*event),
        ensures
            final(self)@ == (MultiView {
                stats: old(self)@.stats_after(*event, now),
                sids: old(self)@.sids_after(*event),
                ..old(self)@
            }),
    {
        let ghost before = self@;
        match event {
            Event::RequestSent(sid) => {
                if let Task::SendRequest(i) = self.task {
                    let tag = self.reqs[i].tag;
                    let urgency = self.reqs[i].urgency;
                    let incremental = self.reqs[i].incremental;
                    self.stats.insert(Stat::sent_at(*sid, tag, urgency, incremental, now));
                    self.sids.push(*sid);
                }
            },
            Event::Polled(Polled::Headers { sid, list }) => {
                if request::response_status(list.as_slice()).is_some() {
                    if let Some(s) = self.stats.get(*sid) {
                        let mut s = s;
                        if s.t_first.is_none() {
                            s.t_first = Some(now);
                        }
                        self.stats.insert(s);
                    }
                }
            },
            Event::BodyRead(BodyRead::Bytes(n)) => {
                if let Task::ReadBody(sid) = self.task {
                    if *n > 0 {
                        if let Some(s) = self.stats.get(sid) {
                            let mut s = s;
                            s.bytes = s.bytes + *n as u64;
                            if s.t_first.is_none() {
                                s.t_first = Some(now);
                            }
                            self.stats.insert(s);
                        }
                    }
                }
            },
            Event::Polled(Polled::Finished(sid)) => {
                if let Some(s) = self.stats.get(*sid) {
                    let mut s = s;
                    s.t_fin = Some(now);
                    self.stats.insert(s);
                }
            },
            _ => {},
        }
        assert(self@ =~= MultiView {
            stats: before.stats_after(*event, now),
            sids: before.sids_after(*event),
            ..before
        });
    }

    /// Takes the outcome of the pending task at time `now` and finds the next task.
    pub fn step(&mut self, event: Event, now: u128)
        requires
            old(self)@.wf(),
            old(self)@.accepts(event),
        ensures
            final(self)@ == old(self)@.after(event, now),
            final(self)@.wf(),
    {
        let ghost before = self@;
        let rules = Rules {
            requests: self.reqs.len(),
            abort_on_bad_datagram: true,
            close_when_finished: false,
        };
        let complete = !self.stats.is_empty() && self.stats.all_finished();
        let sweeps = driver::session_follows(&rules, self.task, self.session_open, &event);
        self.record_event(&event, now);
        if sweeps {
            self.due = schedule::sweep(
                self.updates.as_slice(),
                &mut self.fired,
                self.sids.as_slice(),
                now,
            );
        }
        let next = driver::next_task(
            &rules,
            self.task,
            self.session_open,
            &event,
            !self.due.is_empty(),
            complete,
        );
        match &event {
            Event::SessionOpened => {
                self.session_open = true;
            },
            _ => {},
        }
        self.task = next;
        assert(self@ =~= before.after(event, now));
        proof {
            law_steps_keep_the_state_consistent(before, event, now);
        }
    }

    /// The records of the run, ordered by stream.
    pub fn result(&self) -> (r: MultiResult)
        requires
            self@.wf(),
        ensures
            stat::lists(self@.stats, r.rows@),
    {
        MultiResult { rows: self.stats.rows() }
    }
}

/// Every step leads from a state that a run can be in to another: each request is sent once and in
/// order, every record belongs to a request that was sent and is filed under its stream, and the
/// session is used only after all requests were sent.
pub proof fn law_steps_keep_the_state_consistent(m: MultiView, event: Event, now: u128)
    requires
        m.wf(),
        m.accepts(event),
    ensures
        m.after(event, now).wf(),
        m.after(event, now).reqs == m.reqs,
        m.after(event, now).updates == m.updates,
{
    let a = m.after(event, now);
    match event {
        Event::RequestSent(new) => {
            assert forall|sid: u64| #[trigger] a.stats.contains_key(sid) implies a.sids.contains(
                sid,
            ) by {
                if sid == new {
                    assert(a.sids[a.sids.len() - 1] == sid);
                } else {
                    let i = m.sids.index_of(sid);
                    assert(m.sids.contains(sid));
                    assert(a.sids[i] == sid);
                }
            }
            assert forall|sid: u64| a.sids.contains(sid) implies #[trigger] a.stats.contains_key(
                sid,
            ) by {
                let i = a.sids.index_of(sid);
                if i < m.sids.len() {
                    assert(m.sids[i] == sid);
                    assert(m.sids.contains(sid));
                    assert(m.stats.contains_key(sid));
                }
            }
        },
        _ => {
            assert(a.sids == m.sids);
            assert forall|sid: u64| #[trigger] a.stats.contains_key(sid) <==> m.stats.contains_key(
                sid,
            ) by {}
        },
    }
}

/// What a record says of its request never changes, its bytes are exactly those read from its
/// stream, the time of its first response is set once, and its finish is set by nothing but the
/// end of its response.
pub proof fn law_records_follow_their_stream(m: MultiView, event: Event, now: u128, sid: u64)
    requires
        m.wf(),
        m.accepts(event),
        m.stats.contains_key(sid),
        event != Event::RequestSent(sid),
    ensures
        ({
            let before = m.stats[sid];
            let after = m.after(event, now).stats[sid];
            let read: int = match event {
                Event::BodyRead(BodyRead::Bytes(n)) => if m.task == Task::ReadBody(sid) {
                    n as int
                } else {
                    0
                },
                _ => 0,
            };
            &&& m.after(event, now).stats.contains_key(sid)
            &&& after.sid == before.sid && after.tag == before.tag && after.urgency
                == before.urgency && after.incremental == before.incremental && after.t_sent
                == before.t_sent
            &&& after.bytes == before.bytes + read
            &&& before.t_first is Some ==> after.t_first == before.t_first
            &&& read > 0 ==> after.t_first is Some
            &&& after.t_fin == if event == Event::Polled(Polled::Finished(sid)) {
                Some(now)
            } else {
                before.t_fin
            }
        }),
{
}

/// The record of a request starts when the request is sent, with the request's tag and priority.
pub proof fn law_a_request_starts_its_record(m: MultiView, sid: u64, now: u128)
    requires
        m.wf(),
        m.accepts(Event::RequestSent(sid)),
    ensures
        ({
            let a = m.after(Event::RequestSent(sid), now);
            let req = m.reqs[m.sids.len() as int];
            &&& a.sids == m.sids.push(sid)
            &&& a.stats.contains_key(sid)
            &&& a.stats[sid] == stat::fresh_stat(sid, req.tag, req.urgency, req.incremental, now)
        }),
{
}

/// A run that stops without the connection being closed has requests, and all their responses are
/// complete.
pub proof fn law_a_run_stops_complete(m: MultiView, event: Event, now: u128)
    requires
        m.wf(),
        m.accepts(event),
        m.after(event, now).task is Stop,
        event != Event::Closed(true),
    ensures
        m.after(event, now).complete(),
{
    let sid = choose|sid: u64| #[trigger] m.stats.contains_key(sid);
    assert(m.after(event, now).stats.contains_key(sid));
}

/// A priority update is sent only if it was not dealt with before, not before its time, and is
/// dealt with from then on.
pub proof fn law_updates_are_sent_once(m: MultiView, event: Event, now: u128, k: usize, sid: u64)
    requires
        m.wf(),
        m.accepts(event),
        m.sweeps(event),
        m.after(event, now).due.contains((k, sid)),
    ensures
        k < m.updates.len(),
        !m.fired[k as int],
        now >= m.updates[k as int].delay,
        m.after(event, now).fired[k as int],
        sid == m.after(event, now).sids[m.updates[k as int].request as int],
{
    schedule::law_what_is_sent(m.updates, m.fired, m.sids_after(event), now, k, sid);
}

/// Updates that were dealt with stay so.
pub proof fn law_fired_updates_stay_fired(m: MultiView, event: Event, now: u128, k: int)
    requires
        m.wf(),
        m.accepts(event),
        0 <= k < m.updates.len(),
        m.fired[k],
    ensures
        m.after(event, now).fired[k],
{
}

} // verus!
