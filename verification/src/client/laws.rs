//! What requests say, what responses are read as, and what each event leads to.
use vstd::prelude::*;
use vstd::utf8::*;

use crate::client::driver;
use crate::client::driver::{BodyRead, Event, Failure, Packet, Polled, Reception, Rules, Task};
use crate::client::experiments;
use crate::client::multi::MultiView;
use crate::client::request;
use crate::client::request::{Req, ReqView};
use crate::client::schedule;
use crate::client::schedule::PriorityUpdate;
use crate::client::single::{Notice, SingleGet};
use crate::client::stat;
use crate::client::stat::Stat;
use crate::client::target;
use crate::header;
use crate::header::HeaderView;
use crate::number;

verus! {

/// The priority field reads back: it is `u=`, digits whose value is the urgency, and `,i` exactly
/// if the request is incremental.
pub proof fn law_priority_reads_back(urgency: u8, incremental: bool)
    ensures
        exists|digits: Seq<u8>|
            #![trigger number::parse_u64(decode_utf8(digits))]
            {
                &&& request::priority_value(urgency, incremental) == seq![117u8, 61u8] + digits + (
                if incremental {
                    seq![44u8, 105u8]
                } else {
                    Seq::<u8>::empty()
                })
                &&& forall|i: int| 0 <= i < digits.len() ==> 48 <= #[trigger] digits[i] <= 57
                &&& valid_utf8(digits)
                &&& number::parse_u64(decode_utf8(digits)) == Some(urgency as u64)
                &&& digits.len() > 1 ==> digits[0] != 48
            },
{
    let digits = number::decimal(urgency as nat);
    number::law_decimal_reads_back(urgency as u64);
    number::law_decimal_is_canonical(urgency as nat);
    reveal_strlit("u=");
    reveal_strlit(",i");
    is_ascii_chars_encode_utf8("u="@);
    is_ascii_chars_encode_utf8(",i"@);
    assert(encode_utf8("u="@) =~= seq![117u8, 61u8]);
    assert(encode_utf8(",i"@) =~= seq![44u8, 105u8]);
    let tail = if incremental {
        seq![44u8, 105u8]
    } else {
        Seq::<u8>::empty()
    };
    assert(request::priority_value(urgency, incremental) =~= seq![117u8, 61u8] + digits + tail);
    if urgency == 0 {
        assert(digits == seq![48u8]);
    }
}

/// Different priorities are announced differently.
pub proof fn law_priority_is_unambiguous(
    urgency: u8,
    incremental: bool,
    other_urgency: u8,
    other_incremental: bool,
)
    requires
        request::priority_value(urgency, incremental) == request::priority_value(
            other_urgency,
            other_incremental,
        ),
    ensures
        urgency == other_urgency,
        incremental == other_incremental,
{
    let a = number::decimal(urgency as nat);
    let b = number::decimal(other_urgency as nat);
    number::law_decimal_is_canonical(urgency as nat);
    number::law_decimal_is_canonical(other_urgency as nat);
    reveal_strlit("u=");
    reveal_strlit(",i");
    is_ascii_chars_encode_utf8("u="@);
    is_ascii_chars_encode_utf8(",i"@);
    assert(encode_utf8("u="@) =~= seq![117u8, 61u8]);
    assert(encode_utf8(",i"@) =~= seq![44u8, 105u8]);
    let s = request::priority_value(urgency, incremental);
    let t = request::priority_value(other_urgency, other_incremental);
    if incremental {
        assert(s.last() == 105);
    } else {
        assert(s.last() == a.last());
        assert(a[a.len() - 1] <= 57);
    }
    if other_incremental {
        assert(t.last() == 105);
    } else {
        assert(t.last() == b.last());
        assert(b[b.len() - 1] <= 57);
    }
    let n: int = if incremental {
        s.len() - 2
    } else {
        s.len() as int
    };
    assert(s.subrange(2, n) =~= a);
    assert(t.subrange(2, n) =~= b);
    number::law_decimal_is_unambiguous(urgency as nat, other_urgency as nat);
}

/// A plain request asks for the path at the authority, by GET over https, and names the client.
pub proof fn law_plain_request_fields(authority: Seq<u8>, path: Seq<u8>)
    ensures
        ({
            let h = request::plain_get(authority, path);
            &&& h.len() == 5
            &&& h[0] == (encode_utf8(":method"@), encode_utf8("GET"@))
            &&& h[1] == (encode_utf8(":scheme"@), encode_utf8("https"@))
            &&& h[2] == (encode_utf8(":authority"@), authority)
            &&& h[3] == (encode_utf8(":path"@), path)
            &&& h[4] == (encode_utf8("user-agent"@), encode_utf8("h3-sponza-client"@))
        }),
{
}

/// A request with a priority asks in the same way, announces the priority, and names the client.
pub proof fn law_prioritized_request_fields(
    authority: Seq<u8>,
    path: Seq<u8>,
    urgency: u8,
    incremental: bool,
)
    ensures
        ({
            let h = request::prioritized_get(authority, path, urgency, incremental);
            &&& h.len() == 6
            &&& h[0] == (encode_utf8(":method"@), encode_utf8("GET"@))
            &&& h[1] == (encode_utf8(":scheme"@), encode_utf8("https"@))
            &&& h[2] == (encode_utf8(":authority"@), authority)
            &&& h[3] == (encode_utf8(":path"@), path)
            &&& h[4] == (
                encode_utf8("priority"@),
                request::priority_value(urgency, incremental),
            )
            &&& h[5] == (encode_utf8("user-agent"@), encode_utf8("h3-exp-client"@))
        }),
{
}

/// A request is seen as its path, priority and tag.
pub proof fn law_requests_are_seen_as_they_are(r: Req)
    ensures
        r@.path == r.path@,
        r@.urgency == r.urgency,
        r@.incremental == r.incremental,
        r@.tag == r.tag@,
{
}

/// An optional string is seen as its characters.
pub proof fn law_optional_text(s: String)
    ensures
        target::text_view(Some(s)) == Some(s@),
        target::text_view(None) is None,
{
}

/// The status is the value of the last field that is named exactly `:status`, if there is one: a
/// further field replaces it if it has that name, and does not matter otherwise.
pub proof fn law_status_is_the_last(headers: Seq<HeaderView>, field: HeaderView)
    ensures
        request::status_of(Seq::empty()) is None,
        request::status_of(headers.push(field)) == if field.0 == encode_utf8(":status"@) {
            Some(field.1)
        } else {
            request::status_of(headers)
        },
{
    assert(headers.push(field).drop_last() =~= headers);
}

/// The content length changes with each field that is named exactly `content-length` and is text:
/// to the number that it writes, or to nothing if it writes none.
pub proof fn law_content_length_is_the_last(
    headers: Seq<HeaderView>,
    field: HeaderView,
    known: Option<u64>,
)
    ensures
        request::content_length_after(Seq::empty(), known) == known,
        request::content_length_after(headers.push(field), known) == if field.0 == encode_utf8(
            "content-length"@,
        ) && valid_utf8(field.1) {
            number::parse_u64(decode_utf8(field.1))
        } else {
            request::content_length_after(headers, known)
        },
{
    assert(headers.push(field).drop_last() =~= headers);
}

/// A new record has nothing received, and neither a first nor a last time.
pub proof fn law_new_records(
    sid: u64,
    tag: &'static str,
    urgency: u8,
    incremental: bool,
    t_sent: u128,
)
    ensures
        ({
            let s = stat::fresh_stat(sid, tag, urgency, incremental, t_sent);
            &&& s.sid == sid && s.tag == tag && s.urgency == urgency && s.incremental == incremental
            &&& s.bytes == 0 && s.t_sent == t_sent && s.t_first is None && s.t_fin is None
        }),
{
}

/// What it means that records are filed, finished and listed.
pub proof fn law_tables(m: Map<u64, Stat>, rows: Seq<Stat>)
    ensures
        stat::filed(m) ==> forall|sid: u64| #[trigger] m.contains_key(sid) ==> m[sid].sid == sid,
        stat::all_finished(m) <==> forall|sid: u64| #[trigger]
            m.contains_key(sid) ==> m[sid].t_fin is Some,
        stat::lists(m, rows) ==> {
            &&& forall|i: int, j: int| 0 <= i < j < rows.len() ==> rows[i].sid < rows[j].sid
            &&& forall|i: int|
                0 <= i < rows.len() ==> m.contains_key((#[trigger] rows[i]).sid)
                    && m[rows[i].sid] == rows[i]
            &&& forall|sid: u64| #[trigger]
                m.contains_key(sid) ==> exists|i: int|
                    0 <= i < rows.len() && (#[trigger] rows[i]).sid == sid
        },
{
}

/// Each task has its own kind of outcome.
pub proof fn law_outcomes_belong_to_tasks(event: Event, task: Task)
    ensures
        driver::answers(event, task) <==> {
            ||| event is Waited && task is Wait
            ||| event is TimeoutHandled && task is HandleTimeout
            ||| event is Received && task is Receive
            ||| event is Established && task is CheckEstablished
            ||| event is SessionOpened && task is OpenSession
            ||| event is RequestSent && task is SendRequest
            ||| event is PrioritiesUpdated && task is UpdatePriorities
            ||| event is Polled && task is PollSession
            ||| event is BodyRead && task is ReadBody
            ||| event is CloseRequested && task is CloseConnection
            ||| event is Packet && task is SendPacket
            ||| event is Closed && task is CheckClosed
        },
{
}

/// Work on the session follows exactly when reading is over and the session is open, or when the
/// last request was sent.
pub proof fn law_when_the_session_is_worked_on(
    rules: Rules,
    task: Task,
    session_open: bool,
    event: Event,
)
    ensures
        driver::reaches_session(rules, task, session_open, event) <==> {
            ||| session_open && event == Event::Received(Reception::ConnectionDone)
            ||| session_open && event == Event::Received(Reception::WouldBlock)
            ||| session_open && !rules.abort_on_bad_datagram && event == Event::Received(
                Reception::ConnectionError,
            )
            ||| event is SessionOpened && rules.requests == 0
            ||| event is RequestSent && task is SendRequest && task->SendRequest_0 + 1
                >= rules.requests
        },
{
}

/// What follows waiting, receiving and the handshake.
pub proof fn law_what_follows_on_the_socket(
    rules: Rules,
    task: Task,
    session_open: bool,
    event: Event,
    updates_due: bool,
    complete: bool,
)
    requires
        driver::answers(event, task),
    ensures
        ({
            let n = driver::next(rules, task, session_open, event, updates_due, complete);
            let session = if updates_due {
                Task::UpdatePriorities
            } else {
                Task::PollSession
            };
            let read = if session_open {
                session
            } else {
                Task::CheckEstablished
            };
            &&& event == (Event::Waited { timed_out: true }) ==> n == Task::HandleTimeout
            &&& event == (Event::Waited { timed_out: false }) ==> n == Task::Receive
            &&& event is TimeoutHandled ==> n == Task::Receive
            &&& event == Event::Received(Reception::Fed) ==> n == Task::Receive
            &&& event == Event::Received(Reception::SocketError) ==> n == Task::Abort(
                Failure::UdpRecv,
            )
            &&& event == Event::Received(Reception::ConnectionError) ==> n
                == if rules.abort_on_bad_datagram {
                Task::Abort(Failure::QuicRecv)
            } else {
                read
            }
            &&& event == Event::Received(Reception::ConnectionDone) ==> n == read
            &&& event == Event::Received(Reception::WouldBlock) ==> n == read
            &&& event == Event::Established(true) ==> n == Task::OpenSession
            &&& event == Event::Established(false) ==> n == Task::SendPacket
            &&& event is SessionOpened ==> n == if rules.requests > 0 {
                Task::SendRequest(0)
            } else {
                session
            }
            &&& event is RequestSent ==> n == if task->SendRequest_0 + 1 < rules.requests {
                Task::SendRequest((task->SendRequest_0 + 1) as usize)
            } else {
                session
            }
            &&& event == Event::Packet(Packet::Sent) ==> n == Task::SendPacket
            &&& event == Event::Packet(Packet::Failed) ==> n == Task::Abort(Failure::QuicSend)
            &&& event == Event::Packet(Packet::Drained) ==> n == if complete {
                Task::Stop
            } else {
                Task::CheckClosed
            }
            &&& event == Event::Closed(true) ==> n == Task::Stop
            &&& event == Event::Closed(false) ==> n == Task::Wait
        }),
{
}

/// What follows work on the session.
pub proof fn law_what_follows_on_the_session(
    rules: Rules,
    task: Task,
    session_open: bool,
    event: Event,
    updates_due: bool,
    complete: bool,
)
    requires
        driver::answers(event, task),
    ensures
        ({
            let n = driver::next(rules, task, session_open, event, updates_due, complete);
            &&& event is PrioritiesUpdated ==> n == Task::PollSession
            &&& event is CloseRequested ==> n == Task::PollSession
            &&& event matches Event::Polled(p) ==> {
                &&& p is Headers || p is Other ==> n == Task::PollSession
                &&& p is Data ==> n == Task::ReadBody(p->Data_0)
                &&& p is Finished ==> n == if rules.close_when_finished {
                    Task::CloseConnection
                } else {
                    Task::PollSession
                }
                &&& p is Drained ==> n == Task::SendPacket
                &&& p is Failed ==> n == Task::Abort(Failure::H3Poll)
            }
            &&& event matches Event::BodyRead(b) ==> {
                &&& b is Bytes && b->Bytes_0 > 0 ==> n == task
                &&& b == BodyRead::Bytes(0) ==> n == Task::PollSession
                &&& b is Drained ==> n == Task::PollSession
                &&& b is Failed ==> n == Task::Abort(Failure::RecvBody)
            }
        }),
{
}

/// What an event changes in a run with one request.
pub proof fn law_single_step(s: SingleGet, event: Event, now: u128)
    requires
        s.wf(),
        s.accepts(event),
    ensures
        ({
            let a = s.after(event, now);
            let rules = Rules {
                requests: 1,
                abort_on_bad_datagram: false,
                close_when_finished: true,
            };
            let read: int = match event {
                Event::BodyRead(BodyRead::Bytes(n)) => n as int,
                _ => 0,
            };
            &&& a.task == driver::next(rules, s.task, s.session_open, event, false, false)
            &&& a.session_open == (s.session_open || event is SessionOpened)
            &&& a.sent_sid == if event is RequestSent {
                Some(event->RequestSent_0)
            } else {
                s.sent_sid
            }
            &&& a.received == s.received + read
            &&& a.last_report == if read > 0 && now >= s.last_report + 250_000_000 {
                now
            } else {
                s.last_report
            }
            &&& a.content_len == match event {
                Event::Polled(Polled::Headers { sid, list }) => request::content_length_after(
                    header::header_views(list@),
                    s.content_len,
                ),
                _ => s.content_len,
            }
        }),
{
}

/// Which events can happen in a run with one request: an outcome of the pending task, with no more
/// bytes than can be counted.
pub proof fn law_single_accepts(s: SingleGet, event: Event)
    ensures
        s.accepts(event) <==> driver::answers(event, s.task) && match event {
            Event::BodyRead(BodyRead::Bytes(n)) => s.received + n <= u64::MAX,
            _ => true,
        },
{
}

/// What the user is told: a status when one arrives, progress when bytes arrive and the last report
/// was a quarter of a second ago, the end of a response, and nothing else.
pub proof fn law_single_notices(s: SingleGet, event: Event, now: u128, notice: Notice)
    requires
        s.notice_fits(event, now, notice),
        driver::answers(event, s.task),
    ensures
        notice is Status <==> (event matches Event::Polled(p) && (p matches Polled::Headers {
            sid,
            list,
        } && request::status_of(header::header_views(list@)) is Some)),
        notice matches Notice::Status { sid, status } ==> (event matches Event::Polled(p) && (
        p matches Polled::Headers { sid: on, list } && on == sid && request::status_of(
            header::header_views(list@),
        ) == Some(status@))),
        notice is Progress <==> (event matches Event::BodyRead(b) && (b matches BodyRead::Bytes(n)
            && n > 0 && now >= s.last_report + 250_000_000)),
        notice matches Notice::Progress(sid) ==> s.task == Task::ReadBody(sid),
        notice is Finished <==> (event matches Event::Polled(p) && p is Finished),
        notice matches Notice::Finished(sid) ==> event == Event::Polled(Polled::Finished(sid)),
{
}

/// Updates are sent in their order, each at most once in a sweep: those that are due and have not
/// been dealt with, and whose request has a stream. A further update is considered after the
/// others.
pub proof fn law_sweeps_go_in_order(
    updates: Seq<PriorityUpdate>,
    fired: Seq<bool>,
    sids: Seq<u64>,
    now: u128,
    update: PriorityUpdate,
    done: bool,
)
    requires
        updates.len() == fired.len(),
        updates.len() < usize::MAX,
    ensures
        schedule::due_updates(Seq::empty(), Seq::empty(), sids, now).len() == 0,
        schedule::due_updates(updates.push(update), fired.push(done), sids, now) == if !done && now
            >= update.delay && update.request < sids.len() {
            schedule::due_updates(updates, fired, sids, now).push(
                (updates.len() as usize, sids[update.request as int]),
            )
        } else {
            schedule::due_updates(updates, fired, sids, now)
        },
        schedule::fired_after(updates.push(update), fired.push(done), now)
            == schedule::fired_after(updates, fired, now).push(done || now >= update.delay),
        schedule::fired_after(updates, fired, now).len() == fired.len(),
{
    lemma_due_among_prefix(updates, fired, sids, now, update, done, updates.len());
    assert(schedule::fired_after(updates.push(update), fired.push(done), now)
        =~= schedule::fired_after(updates, fired, now).push(done || now >= update.delay));
}

proof fn lemma_due_among_prefix(
    updates: Seq<PriorityUpdate>,
    fired: Seq<bool>,
    sids: Seq<u64>,
    now: u128,
    update: PriorityUpdate,
    done: bool,
    n: nat,
)
    requires
        updates.len() == fired.len(),
        n <= updates.len(),
    ensures
        schedule::due_among(updates.push(update), fired.push(done), sids, now, n)
            == schedule::due_among(updates, fired, sids, now, n),
    decreases n,
{
    if n > 0 {
        lemma_due_among_prefix(updates, fired, sids, now, update, done, (n - 1) as nat);
        assert(updates.push(update)[n - 1] == updates[n - 1]);
        assert(fired.push(done)[n - 1] == fired[n - 1]);
    }
}

/// Which events can happen in a run with several requests: an outcome of the pending task, with no
/// more bytes of a recorded stream than can be counted.
pub proof fn law_multi_accepts(m: MultiView, event: Event)
    ensures
        m.accepts(event) <==> driver::answers(event, m.task) && (match (event, m.task) {
            (Event::BodyRead(BodyRead::Bytes(n)), Task::ReadBody(sid)) => m.stats.contains_key(
                sid,
            ) ==> m.stats[sid].bytes + n <= u64::MAX,
            _ => true,
        }),
{
}

/// A run with several requests starts with nothing sent, recorded or dealt with.
pub proof fn law_multi_start(m: MultiView)
    requires
        m.is_start(),
    ensures
        m.task == Task::Wait,
        !m.session_open,
        forall|sid: u64| !(#[trigger] m.stats.contains_key(sid)),
        m.sids.len() == 0,
        m.due.len() == 0,
        m.fired.len() == m.updates.len(),
        forall|k: int| 0 <= k < m.updates.len() ==> !(#[trigger] m.fired[k]),
{
}

/// What an event changes in a run with several requests, besides the records.
pub proof fn law_multi_step(m: MultiView, event: Event, now: u128)
    requires
        m.wf(),
        m.accepts(event),
    ensures
        ({
            let a = m.after(event, now);
            let rules = Rules {
                requests: m.reqs.len() as usize,
                abort_on_bad_datagram: true,
                close_when_finished: false,
            };
            let sweeps = driver::reaches_session(rules, m.task, m.session_open, event);
            let all = m.sids.len() > 0 && forall|i: int|
                0 <= i < m.sids.len() ==> m.stats[#[trigger] m.sids[i]].t_fin is Some;
            &&& a.reqs == m.reqs && a.updates == m.updates
            &&& a.session_open == (m.session_open || event is SessionOpened)
            &&& a.sids == if event is RequestSent {
                m.sids.push(event->RequestSent_0)
            } else {
                m.sids
            }
            &&& a.due == if sweeps {
                schedule::due_updates(m.updates, m.fired, a.sids, now)
            } else {
                m.due
            }
            &&& a.fired == if sweeps {
                schedule::fired_after(m.updates, m.fired, now)
            } else {
                m.fired
            }
            &&& a.task == driver::next(
                rules,
                m.task,
                m.session_open,
                event,
                a.due.len() > 0,
                all,
            )
        }),
{
    lemma_complete(m);
}

proof fn lemma_complete(m: MultiView)
    requires
        m.wf(),
    ensures
        m.complete() <==> m.sids.len() > 0 && forall|i: int|
            0 <= i < m.sids.len() ==> m.stats[#[trigger] m.sids[i]].t_fin is Some,
{
    assert forall|i: int| 0 <= i < m.sids.len() implies m.stats.contains_key(#[trigger] m.sids[i]) by {
        assert(m.sids.contains(m.sids[i]));
    }
    if m.complete() {
        let sid = choose|sid: u64| #[trigger] m.stats.contains_key(sid);
        assert(m.sids.contains(sid));
    }
    if m.sids.len() > 0 && forall|i: int|
        0 <= i < m.sids.len() ==> m.stats[#[trigger] m.sids[i]].t_fin is Some {
        assert(m.stats.contains_key(m.sids[0]));
        assert forall|sid: u64| #[trigger] m.stats.contains_key(sid) implies m.stats[sid].t_fin is Some by {
            assert(m.sids.contains(sid));
            let i = m.sids.index_of(sid);
            assert(m.sids[i] == sid);
        }
    }
}

/// A run that is not ended by the connection stops only when every request was sent, there is at
/// least one, and the record of each has its finish.
pub proof fn law_a_run_goes_on_until_all_are_finished(m: MultiView, event: Event, now: u128)
    requires
        m.wf(),
        m.accepts(event),
        m.after(event, now).task is Stop,
        event != Event::Closed(true),
    ensures
        m.sids.len() == m.reqs.len(),
        m.reqs.len() > 0,
        forall|i: int| 0 <= i < m.sids.len() ==> m.stats[#[trigger] m.sids[i]].t_fin is Some,
        m.after(event, now).stats == m.stats,
{
    law_multi_step(m, event, now);
    lemma_complete(m);
    if !m.session_open {
        assert(m.sids.len() == 0);
    }
}

/// While some request that was sent has no finish, sending all packets does not stop the run: the
/// connection is asked whether it is closed.
pub proof fn law_an_unfinished_request_keeps_the_run_going(m: MultiView, now: u128, i: int)
    requires
        m.wf(),
        m.accepts(Event::Packet(Packet::Drained)),
        0 <= i < m.sids.len(),
        m.stats[m.sids[i]].t_fin is None,
    ensures
        m.after(Event::Packet(Packet::Drained), now).task == Task::CheckClosed,
{
    lemma_complete(m);
}

/// Once every request that was sent has its finish, the run stops when all packets are sent.
pub proof fn law_a_finished_run_stops(m: MultiView, now: u128)
    requires
        m.wf(),
        m.accepts(Event::Packet(Packet::Drained)),
        m.sids.len() > 0,
        forall|i: int| 0 <= i < m.sids.len() ==> m.stats[#[trigger] m.sids[i]].t_fin is Some,
    ensures
        m.after(Event::Packet(Packet::Drained), now).task == Task::Stop,
{
    lemma_complete(m);
}

/// Records come into being only when a request is sent on their stream, and never go.
pub proof fn law_records_stay(m: MultiView, event: Event, now: u128, sid: u64)
    ensures
        m.after(event, now).stats.contains_key(sid) <==> m.stats.contains_key(sid) || event
            == Event::RequestSent(sid),
{
}

/// The time of the first response is set once: by a header with a status, or by body bytes,
/// whichever of the two comes first on the stream, and by nothing else.
pub proof fn law_when_a_response_starts(m: MultiView, event: Event, now: u128, sid: u64)
    requires
        m.accepts(event),
        m.stats.contains_key(sid),
        event != Event::RequestSent(sid),
    ensures
        m.after(event, now).stats[sid].t_first == {
            let arrives = match event {
                Event::Polled(Polled::Headers { sid: on, list }) => on == sid
                    && request::status_of(header::header_views(list@)) is Some,
                Event::BodyRead(BodyRead::Bytes(n)) => n > 0 && m.task == Task::ReadBody(sid),
                _ => false,
            };
            if m.stats[sid].t_first is None && arrives {
                Some(now)
            } else {
                m.stats[sid].t_first
            }
        },
{
}

/// The experiment on initial priorities asks for the same path four times, with urgencies 7, 6, 3
/// and 0, not incrementally, and tags each request with its urgency.
pub proof fn law_ladder(path: Seq<u8>)
    ensures
        ({
            let r = experiments::ladder(path);
            &&& r.len() == 4
            &&& r[0] == (ReqView { path, urgency: 7, incremental: false, tag: "u7"@ })
            &&& r[1] == (ReqView { path, urgency: 6, incremental: false, tag: "u6"@ })
            &&& r[2] == (ReqView { path, urgency: 3, incremental: false, tag: "u3"@ })
            &&& r[3] == (ReqView { path, urgency: 0, incremental: false, tag: "u0"@ })
        }),
{
}

/// The experiment on priority updates asks for the same path three times, incrementally, and its
/// updates reverse the order of the urgencies a tenth of a second into the run.
pub proof fn law_trio(path: Seq<u8>)
    ensures
        ({
            let r = experiments::trio(path);
            let u = experiments::reversal();
            &&& r.len() == 3 && u.len() == 3
            &&& r[0] == (ReqView { path, urgency: 0, incremental: true, tag: "A"@ })
            &&& r[1] == (ReqView { path, urgency: 3, incremental: true, tag: "B"@ })
            &&& r[2] == (ReqView { path, urgency: 7, incremental: true, tag: "C"@ })
            &&& forall|i: int|
                0 <= i < 3 ==> {
                    &&& (#[trigger] u[i]).request == i
                    &&& u[i].priority.urgency == r[2 - i].urgency
                    &&& u[i].priority.incremental
                    &&& u[i].delay == 100_000_000
                }
        }),
{
}

/// A list of requests is seen request by request.
pub proof fn law_request_lists(reqs: Seq<Req>)
    ensures
        experiments::req_views(reqs).len() == reqs.len(),
        forall|i: int| 0 <= i < reqs.len() ==> #[trigger] experiments::req_views(reqs)[i] == reqs[i]@,
{
}

/// The tags of an order are those of its rows, in that order.
pub proof fn law_tags_follow_the_order(rows: Seq<Stat>, order: Seq<int>)
    ensures
        experiments::tags_in(rows, order).len() == order.len(),
        forall|i: int|
            0 <= i < order.len() ==> #[trigger] experiments::tags_in(rows, order)[i]
                == rows[order[i]].tag,
{
}

/// The target is reached exactly if C, B and A come first, in this order.
pub proof fn law_target(tags: Seq<&'static str>)
    ensures
        experiments::starts_with_cba(tags) <==> tags.len() >= 3 && tags[0]@ == "C"@ && tags[1]@
            == "B"@ && tags[2]@ == "A"@,
{
}

} // verus!
