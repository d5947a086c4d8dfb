//! One GET request with progress reports.
use vstd::prelude::*;

use crate::client::driver;
use crate::client::driver::{BodyRead, Event, Polled, Rules, Task};
use crate::client::request;
use crate::header;

verus! {

/// Nanoseconds between progress reports.
pub const REPORT_INTERVAL: u128 = 250_000_000;

/// The state of a run with one request.
pub struct SingleGet {
    pub task: Task,
    pub session_open: bool,
    /// The stream of the request, once it was sent.
    pub sent_sid: Option<u64>,
    /// Body bytes received.
    pub received: u64,
    /// The announced length of the body.
    pub content_len: Option<u64>,
    /// When progress was last reported.
    pub last_report: u128,
}

/// What is worth telling the user about an event.
pub enum Notice {
    Nothing,
    /// A response header with this status arrived.
    Status { sid: u64, status: Vec<u8> },
    /// Body bytes arrived, and the last report was long enough ago.
    Progress(u64),
    /// The response is complete.
    Finished(u64),
}

/// How a single request is run: a rejected datagram is tolerated, and the connection is closed
/// when the response is complete.
pub open spec fn single_rules() -> Rules {
    Rules { requests: 1, abort_on_bad_datagram: false, close_when_finished: true }
}

/// Whether a progress report is due.
pub open spec fn report_due(last_report: u128, now: u128) -> bool {
    now - last_report >= REPORT_INTERVAL
}

impl SingleGet {
    /// Whether the state is one that a run can be in.
    pub open spec fn wf(self) -> bool {
        &&& if let Task::SendRequest(i) = self.task {
            i == 0 && self.session_open && self.sent_sid is None
        } else {
            self.sent_sid is Some <==> self.session_open
        }
        &&& self.task is PollSession || self.task is ReadBody || self.task is CloseConnection
            ==> self.session_open
        &&& self.task is OpenSession || self.task is CheckEstablished ==> !self.session_open
        &&& !(self.task is UpdatePriorities)
        &&& self.sent_sid is None ==> self.received == 0 && self.content_len is None
    }

    /// Whether an event can happen in this state. A body is never longer than 64 bits can count.
    pub open spec fn accepts(self, event: Event) -> bool {
        &&& driver::answers(event, self.task)
        &&& event matches Event::BodyRead(BodyRead::Bytes(n)) ==> self.received + n <= u64::MAX
    }

    /// The state after an event.
    pub open spec fn after(self, event: Event, now: u128) -> SingleGet {
        let moved = SingleGet {
            task: driver::next(
                single_rules(),
                self.task,
                self.session_open,
                event,
                false,
                false,
            ),
            ..self
        };
        match event {
            Event::SessionOpened => SingleGet { session_open: true, ..moved },
            Event::RequestSent(sid) => SingleGet { sent_sid: Some(sid), ..moved },
            Event::Polled(Polled::Headers { sid, list }) => SingleGet {
                content_len: request::content_length_after(
                    header::header_views(list@),
                    self.content_len,
                ),
                ..moved
            },
            Event::BodyRead(BodyRead::Bytes(n)) => if n > 0 {
                SingleGet {
                    received: (self.received + n) as u64,
                    last_report: if report_due(self.last_report, now) {
                        now
                    } else {
                        self.last_report
                    },
                    ..moved
                }
            } else {
                moved
            },
            _ => moved,
        }
    }

    /// Whether a notice is the one for an event.
    pub open spec fn notice_fits(self, event: Event, now: u128, notice: Notice) -> bool {
        match event {
            Event::Polled(Polled::Headers { sid, list }) => match request::status_of(
                header::header_views(list@),
            ) {
                Some(status) => notice matches Notice::Status { sid: s, status: v } && s == sid
                    && v@ == status,
                None => notice is Nothing,
            },
            Event::BodyRead(BodyRead::Bytes(n)) => if n > 0 && report_due(self.last_report, now) {
                self.task matches Task::ReadBody(sid) && notice == Notice::Progress(sid)
            } else {
                notice is Nothing
            },
            Event::Polled(Polled::Finished(sid)) => notice == Notice::Finished(sid),
            _ => notice is Nothing,
        }
    }

    /// The start of a run.
    pub fn new(now: u128) -> (s: SingleGet)
        ensures
            s == (SingleGet {
                task: Task::Wait,
                session_open: false,
                sent_sid: None,
                received: 0,
                content_len: None,
                last_report: now,
            }),
            s.wf(),
    {
        SingleGet {
            task: Task::Wait,
            session_open: false,
            sent_sid: None,
            received: 0,
            content_len: None,
            last_report: now,
        }
    }

    /// Takes the outcome of the pending task at time `now` and finds the next task.
    pub fn step(&mut self, event: Event, now: u128) -> (notice: Notice)
        requires
            old(self).wf(),
            old(self).accepts(event),
        ensures
            *final(self) == old(self).after(event, now),
            final(self).wf(),
            old(self).notice_fits(event, now, notice),
    {
        let rules = Rules {
            requests: 1,
            abort_on_bad_datagram: false,
            close_when_finished: true,
        };
        let next = driver::next_task(&rules, self.task, self.session_open, &event, false, false);
        let mut notice = Notice::Nothing;
        match &event {
            Event::SessionOpened => {
                self.session_open = true;
            },
            Event::RequestSent(sid) => {
                self.sent_sid = Some(*sid);
            },
            Event::Polled(Polled::Headers { sid, list }) => {
                self.content_len = request::response_content_length(
                    list.as_slice(),
                    self.content_len,
                );
                if let Some(status) = request::response_status(list.as_slice()) {
                    notice = Notice::Status { sid: *sid, status };
                }
            },
            Event::BodyRead(BodyRead::Bytes(n)) => {
                if *n > 0 {
                    self.received = self.received + *n as u64;
                    if now >= self.last_report && now - self.last_report >= REPORT_INTERVAL {
                        self.last_report = now;
                        if let Task::ReadBody(sid) = self.task {
                            notice = Notice::Progress(sid);
                        }
                    }
                }
            },
            Event::Polled(Polled::Finished(sid)) => {
                notice = Notice::Finished(*sid);
            },
            _ => {},
        }
        self.task = next;
        notice
    }
}

/// The request is sent at most once: from then on its stream stays the same, and the session is
/// neither opened nor given a request again.
pub proof fn law_one_request(s: SingleGet, event: Event, now: u128)
    requires
        s.wf(),
        s.accepts(event),
        s.sent_sid is Some,
    ensures
        s.after(event, now).sent_sid == s.sent_sid,
        !(s.after(event, now).task is OpenSession),
        !(s.after(event, now).task is SendRequest),
{
}

/// Nothing counts as received before the request was sent.
pub proof fn law_nothing_before_the_request(s: SingleGet, event: Event, now: u128)
    requires
        s.wf(),
        s.accepts(event),
        s.after(event, now).sent_sid is None,
    ensures
        s.after(event, now).received == 0,
        s.after(event, now).content_len is None,
{
}

/// The connection is closed by the client exactly when a response is complete.
pub proof fn law_closed_when_complete(s: SingleGet, event: Event, now: u128)
    requires
        s.wf(),
        s.accepts(event),
    ensures
        s.after(event, now).task is CloseConnection <==> (event matches Event::Polled(p)
            && p is Finished),
{
}

/// What counts as received never shrinks, and grows by exactly the bytes that are read.
pub proof fn law_received_counts_bytes(s: SingleGet, event: Event, now: u128)
    requires
        s.wf(),
        s.accepts(event),
    ensures
        s.after(event, now).received == s.received + match event {
            Event::BodyRead(BodyRead::Bytes(n)) => n as int,
            _ => 0,
        },
{
}

/// Two progress reports are at least the interval apart.
pub proof fn law_reports_are_spaced(s: SingleGet, event: Event, now: u128)
    requires
        s.wf(),
        s.accepts(event),
    ensures
        s.after(event, now).last_report != s.last_report ==> s.after(event, now).last_report == now
            && now >= s.last_report + REPORT_INTERVAL,
{
}

} // verus!
