//! The order in which a client talks to its socket, its connection and its HTTP/3 session.
//!
//! The client holds one pending [`Task`]. Whoever performs it reports the outcome as an [`Event`],
//! which leads to the next task.
use vstd::prelude::*;

use crate::header::Header;

verus! {

/// What failed when a run is aborted.
#[derive(Debug, Clone, Copy, PartialEq, Eq, Structural)]
pub enum Failure {
    UdpRecv,
    QuicRecv,
    RecvBody,
    H3Poll,
    QuicSend,
    UdpSend,
}

impl Failure {
    /// The words that introduce the error in a message.
    pub fn label(self) -> (r: &'static str)
        ensures
            r@ == match self {
                Failure::UdpRecv => "udp recv error"@,
                Failure::QuicRecv => "quiche recv error"@,
                Failure::RecvBody => "recv_body error"@,
                Failure::H3Poll => "h3 poll error"@,
                Failure::QuicSend => "send failed"@,
                Failure::UdpSend => "udp send_to error"@,
            },
    {
        match self {
            Failure::UdpRecv => "udp recv error",
            Failure::QuicRecv => "quiche recv error",
            Failure::RecvBody => "recv_body error",
            Failure::H3Poll => "h3 poll error",
            Failure::QuicSend => "send failed",
            Failure::UdpSend => "udp send_to error",
        }
    }
}

/// What the client does next.
#[derive(Debug, Clone, Copy, PartialEq, Eq, Structural)]
pub enum Task {
    /// Wait for the socket or for the connection's timer.
    Wait,
    /// Tell the connection that its timer fired.
    HandleTimeout,
    /// Receive one datagram and hand it to the connection.
    Receive,
    /// Ask whether the handshake is complete.
    CheckEstablished,
    /// Open the HTTP/3 session.
    OpenSession,
    /// Send the request with this number.
    SendRequest(usize),
    /// Send the priority updates that are due.
    UpdatePriorities,
    /// Ask the session for its next event.
    PollSession,
    /// Read body bytes of this stream.
    ReadBody(u64),
    /// Close the connection gracefully.
    CloseConnection,
    /// Take a packet from the connection and send it.
    SendPacket,
    /// Ask whether the connection is closed.
    CheckClosed,
    /// The run is over.
    Stop,
    /// The run has failed.
    Abort(Failure),
}

/// The outcome of receiving a datagram.
#[derive(Debug, Clone, Copy, PartialEq, Eq, Structural)]
pub enum Reception {
    /// The connection took it.
    Fed,
    /// The connection has nothing more to do.
    ConnectionDone,
    /// The connection rejected it.
    ConnectionError,
    /// The socket has no datagram.
    WouldBlock,
    /// The socket failed.
    SocketError,
}

/// The outcome of polling the session.
#[derive(Debug)]
pub enum Polled {
    /// A response header arrived.
    Headers { sid: u64, list: Vec<Header> },
    /// Body bytes can be read.
    Data(u64),
    /// A response is complete.
    Finished(u64),
    /// Something that plays no role here.
    Other,
    /// There is no event.
    Drained,
    /// The session failed.
    Failed,
}

/// The outcome of reading body bytes.
#[derive(Debug, Clone, Copy, PartialEq, Eq, Structural)]
pub enum BodyRead {
    Bytes(usize),
    Drained,
    Failed,
}

/// The outcome of sending a packet.
#[derive(Debug, Clone, Copy, PartialEq, Eq, Structural)]
pub enum Packet {
    Sent,
    Drained,
    Failed,
}

/// The outcome of a task.
#[derive(Debug)]
pub enum Event {
    Waited { timed_out: bool },
    TimeoutHandled,
    Received(Reception),
    Established(bool),
    SessionOpened,
    /// The request was sent on this stream.
    RequestSent(u64),
    PrioritiesUpdated,
    Polled(Polled),
    BodyRead(BodyRead),
    CloseRequested,
    Packet(Packet),
    Closed(bool),
}

/// Whether an event is an outcome of a task.
pub open spec fn answers(event: Event, task: Task) -> bool {
    match event {
        Event::Waited { .. } => task is Wait,
        Event::TimeoutHandled => task is HandleTimeout,
        Event::Received(_) => task is Receive,
        Event::Established(_) => task is CheckEstablished,
        Event::SessionOpened => task is OpenSession,
        Event::RequestSent(_) => task is SendRequest,
        Event::PrioritiesUpdated => task is UpdatePriorities,
        Event::Polled(_) => task is PollSession,
        Event::BodyRead(_) => task is ReadBody,
        Event::CloseRequested => task is CloseConnection,
        Event::Packet(_) => task is SendPacket,
        Event::Closed(_) => task is CheckClosed,
    }
}

/// In what clients differ.
#[derive(Debug, Clone, Copy, PartialEq, Eq, Structural)]
pub struct Rules {
    /// How many requests are sent.
    pub requests: usize,
    /// Whether a datagram that the connection rejects ends the run.
    pub abort_on_bad_datagram: bool,
    /// Whether the connection is closed when a response is complete.
    pub close_when_finished: bool,
}

/// Whether an event ends the reading of datagrams without ending the run.
pub open spec fn ends_reception(rules: Rules, event: Event) -> bool {
    match event {
        Event::Received(Reception::ConnectionDone) => true,
        Event::Received(Reception::WouldBlock) => true,
        Event::Received(Reception::ConnectionError) => !rules.abort_on_bad_datagram,
        _ => false,
    }
}

/// Whether an event is followed by work on the open session: reading is over and the session is
/// open, or the last request has been sent.
pub open spec fn reaches_session(
    rules: Rules,
    task: Task,
    session_open: bool,
    event: Event,
) -> bool {
    match event {
        Event::Received(_) => ends_reception(rules, event) && session_open,
        Event::SessionOpened => rules.requests == 0,
        Event::RequestSent(_) => task matches Task::SendRequest(i) && i + 1 >= rules.requests,
        _ => false,
    }
}

/// The task that follows an event. `updates_due` tells whether priority updates are to be sent
/// before the session is polled, `complete` whether all responses are complete.
pub open spec fn next(
    rules: Rules,
    task: Task,
    session_open: bool,
    event: Event,
    updates_due: bool,
    complete: bool,
) -> Task {
    if reaches_session(rules, task, session_open, event) {
        if updates_due {
            Task::UpdatePriorities
        } else {
            Task::PollSession
        }
    } else {
        match event {
            Event::Waited { timed_out } => if timed_out {
                Task::HandleTimeout
            } else {
                Task::Receive
            },
            Event::TimeoutHandled => Task::Receive,
            Event::Received(r) => match r {
                Reception::Fed => Task::Receive,
                Reception::SocketError => Task::Abort(Failure::UdpRecv),
                Reception::ConnectionError => if rules.abort_on_bad_datagram {
                    Task::Abort(Failure::QuicRecv)
                } else {
                    Task::CheckEstablished
                },
                Reception::ConnectionDone => Task::CheckEstablished,
                Reception::WouldBlock => Task::CheckEstablished,
            },
            Event::Established(yes) => if yes {
                Task::OpenSession
            } else {
                Task::SendPacket
            },
            Event::SessionOpened => Task::SendRequest(0),
            Event::RequestSent(_) => match task {
                Task::SendRequest(i) => Task::SendRequest((i + 1) as usize),
                _ => task,
            },
            Event::PrioritiesUpdated => Task::PollSession,
            Event::Polled(p) => match p {
                Polled::Headers { .. } => Task::PollSession,
                Polled::Data(sid) => Task::ReadBody(sid),
                Polled::Finished(_) => if rules.close_when_finished {
                    Task::CloseConnection
                } else {
                    Task::PollSession
                },
                Polled::Other => Task::PollSession,
                Polled::Drained => Task::SendPacket,
                Polled::Failed => Task::Abort(Failure::H3Poll),
            },
            Event::BodyRead(b) => match b {
                BodyRead::Bytes(n) => if n == 0 {
                    Task::PollSession
                } else {
                    task
                },
                BodyRead::Drained => Task::PollSession,
                BodyRead::Failed => Task::Abort(Failure::RecvBody),
            },
            Event::CloseRequested => Task::PollSession,
            Event::Packet(p) => match p {
                Packet::Sent => Task::SendPacket,
                Packet::Drained => if complete {
                    Task::Stop
                } else {
                    Task::CheckClosed
                },
                Packet::Failed => Task::Abort(Failure::QuicSend),
            },
            Event::Closed(yes) => if yes {
                Task::Stop
            } else {
                Task::Wait
            },
        }
    }
}

/// Tells whether work on the open session follows an event.
pub fn session_follows(rules: &Rules, task: Task, session_open: bool, event: &Event) -> (r: bool)
    requires
        task matches Task::SendRequest(i) ==> i < rules.requests,
    ensures
        r == reaches_session(*rules, task, session_open, *event),
{
    match event {
        Event::Received(r) => {
            let drained = match r {
                Reception::ConnectionDone => true,
                Reception::WouldBlock => true,
                Reception::ConnectionError => !rules.abort_on_bad_datagram,
                Reception::Fed => false,
                Reception::SocketError => false,
            };
            drained && session_open
        },
        Event::SessionOpened => rules.requests == 0,
        Event::RequestSent(_) => match task {
            Task::SendRequest(i) => i + 1 >= rules.requests,
            _ => false,
        },
        _ => false,
    }
}

/// Finds the task that follows an event.
pub fn next_task(
    rules: &Rules,
    task: Task,
    session_open: bool,
    event: &Event,
    updates_due: bool,
    complete: bool,
) -> (r: Task)
    requires
        answers(*event, task),
        task matches Task::SendRequest(i) ==> i < rules.requests,
    ensures
        r == next(*rules, task, session_open, *event, updates_due, complete),
{
    if session_follows(rules, task, session_open, event) {
        return if updates_due {
            Task::UpdatePriorities
        } else {
            Task::PollSession
        };
    }
    match event {
        Event::Waited { timed_out } => {
            if *timed_out {
                Task::HandleTimeout
            } else {
                Task::Receive
            }
        },
        Event::TimeoutHandled => Task::Receive,
        Event::Received(r) => match r {
            Reception::Fed => Task::Receive,
            Reception::SocketError => Task::Abort(Failure::UdpRecv),
            Reception::ConnectionError => {
                if rules.abort_on_bad_datagram {
                    Task::Abort(Failure::QuicRecv)
                } else {
                    Task::CheckEstablished
                }
            },
            Reception::ConnectionDone => Task::CheckEstablished,
            Reception::WouldBlock => Task::CheckEstablished,
        },
        Event::Established(yes) => {
            if *yes {
                Task::OpenSession
            } else {
                Task::SendPacket
            }
        },
        Event::SessionOpened => Task::SendRequest(0),
        Event::RequestSent(_) => match task {
            Task::SendRequest(i) => Task::SendRequest(i + 1),
            _ => task,
        },
        Event::PrioritiesUpdated => Task::PollSession,
        Event::Polled(p) => match p {
            Polled::Headers { .. } => Task::PollSession,
            Polled::Data(sid) => Task::ReadBody(*sid),
            Polled::Finished(_) => {
                if rules.close_when_finished {
                    Task::CloseConnection
                } else {
                    Task::PollSession
                }
            },
            Polled::Other => Task::PollSession,
            Polled::Drained => Task::SendPacket,
            Polled::Failed => Task::Abort(Failure::H3Poll),
        },
        Event::BodyRead(b) => match b {
            BodyRead::Bytes(n) => {
                if *n == 0 {
                    Task::PollSession
                } else {
                    task
                }
            },
            BodyRead::Drained => Task::PollSession,
            BodyRead::Failed => Task::Abort(Failure::RecvBody),
        },
        Event::CloseRequested => Task::PollSession,
        Event::Packet(p) => match p {
            Packet::Sent => Task::SendPacket,
            Packet::Drained => {
                if complete {
                    Task::Stop
                } else {
                    Task::CheckClosed
                }
            },
            Packet::Failed => Task::Abort(Failure::QuicSend),
        },
        Event::Closed(yes) => {
            if *yes {
                Task::Stop
            } else {
                Task::Wait
            }
        },
    }
}

/// The outcome of handing a datagram to the socket.
#[derive(Debug, Clone, Copy, PartialEq, Eq, Structural)]
pub enum Transmission {
    Sent,
    WouldBlock,
    Failed,
}

/// What follows the attempt to send a datagram.
#[derive(Debug, Clone, Copy, PartialEq, Eq, Structural)]
pub enum Transmit {
    Done,
    Again,
    Abort(Failure),
}

/// A datagram that the socket cannot take yet is tried again.
pub fn after_transmission(t: Transmission) -> (r: Transmit)
    ensures
        r == match t {
            Transmission::Sent => Transmit::Done,
            Transmission::WouldBlock => Transmit::Again,
            Transmission::Failed => Transmit::Abort(Failure::UdpSend),
        },
{
    match t {
        Transmission::Sent => Transmit::Done,
        Transmission::WouldBlock => Transmit::Again,
        Transmission::Failed => Transmit::Abort(Failure::UdpSend),
    }
}

/// A run stops only when the connection is closed, or when all responses are complete and all
/// packets are sent.
pub proof fn law_when_a_run_stops(
    rules: Rules,
    task: Task,
    session_open: bool,
    event: Event,
    updates_due: bool,
    complete: bool,
)
    requires
        answers(event, task),
    ensures
        next(rules, task, session_open, event, updates_due, complete) is Stop <==> event
            == Event::Closed(true) || (event == Event::Packet(Packet::Drained) && complete),
{
}

/// A run is aborted only by a failure, and by every failure except a rejected datagram where that
/// is tolerated.
pub proof fn law_when_a_run_is_aborted(
    rules: Rules,
    task: Task,
    session_open: bool,
    event: Event,
    updates_due: bool,
    complete: bool,
)
    requires
        answers(event, task),
    ensures
        next(rules, task, session_open, event, updates_due, complete) is Abort <==> {
            ||| event == Event::Received(Reception::SocketError)
            ||| event == Event::Received(Reception::ConnectionError) && rules.abort_on_bad_datagram
            ||| event == Event::Polled(Polled::Failed)
            ||| event == Event::BodyRead(BodyRead::Failed)
            ||| event == Event::Packet(Packet::Failed)
        },
{
}

/// Requests, priority updates and reads are asked for only once the session is open, provided that
/// this held of the task before.
pub proof fn law_session_is_open_when_used(
    rules: Rules,
    task: Task,
    session_open: bool,
    event: Event,
    updates_due: bool,
    complete: bool,
)
    requires
        answers(event, task),
        task is UpdatePriorities || task is PollSession || task is ReadBody
            || task is CloseConnection ==> session_open,
        task is SendRequest ==> session_open,
    ensures
        ({
            let after = next(rules, task, session_open, event, updates_due, complete);
            after is UpdatePriorities || after is PollSession || after is ReadBody
                || after is CloseConnection || after is SendRequest ==> session_open
                || event is SessionOpened
        }),
{
}

} // verus!
