use quiche_apps::client::config::{
    bind_address, client_params, peer_address, CONNECTION_ID_LEN, MAX_DGRAM,
};
use quiche_apps::client::driver::{
    after_transmission, BodyRead, Event, Failure, Packet, Polled, Reception, Task, Transmission,
    Transmit,
};
use quiche_apps::client::ident::{rand_bytes, SEED};
use quiche_apps::client::multi::MultiGet;
use quiche_apps::client::request::{
    plain_request, prioritized_request, response_content_length, response_status, Req,
};
use quiche_apps::client::schedule::{sweep, Priority, PriorityUpdate};
use quiche_apps::client::single::{Notice, SingleGet, REPORT_INTERVAL};
use quiche_apps::client::stat::{Stat, StatTable};
use quiche_apps::client::target::{target_of, target_of_parts, TargetError};
use quiche_apps::header::Header;
use rand::rngs::StdRng;
use rand::{RngCore, SeedableRng};

fn lines(headers: &[Header]) -> Vec<String> {
    headers
        .iter()
        .map(|h| {
            format!(
                "{} {}",
                String::from_utf8_lossy(h.name()),
                String::from_utf8_lossy(h.value())
            )
        })
        .collect()
}

fn update(request: usize, urgency: u8, delay: u128) -> PriorityUpdate {
    PriorityUpdate { request, priority: Priority { urgency, incremental: true }, delay }
}

#[test]
fn settings() {
    assert_eq!(MAX_DGRAM, 1350);
    assert_eq!(CONNECTION_ID_LEN, 16);
    let p = client_params();
    assert_eq!(p.max_idle_timeout, 120_000);
    assert_eq!(p.initial_max_data, 200_000_000);
    assert_eq!(p.initial_max_stream_data_bidi_local, 32_000_000);
    assert_eq!(p.initial_max_stream_data_bidi_remote, 32_000_000);
    assert_eq!(p.initial_max_stream_data_uni, 2_000_000);
    assert_eq!(p.initial_max_streams_bidi, 64);
    assert_eq!(p.initial_max_streams_uni, 4);
    assert_eq!(p.max_recv_udp_payload_size, 1350);
    assert_eq!(p.max_send_udp_payload_size, 1350);
    assert!(!p.verify_peer);
    assert_eq!(peer_address(), "127.0.0.1:4433");
    assert_eq!(bind_address(true), "0.0.0.0:0");
    assert_eq!(bind_address(false), "[::]:0");
}

#[test]
fn identifiers_come_from_the_fixed_seed() {
    assert_eq!(SEED, 0x0123_4567_89ab_cdef);
    let mut expected = [0u8; 16];
    StdRng::seed_from_u64(0x0123_4567_89ab_cdef).fill_bytes(&mut expected);
    assert_eq!(rand_bytes(16), expected);
    assert_eq!(rand_bytes(16), rand_bytes(16));
    assert_ne!(rand_bytes(16), vec![0u8; 16]);
    assert!(rand_bytes(0).is_empty());
}

#[test]
fn targets_of_base_urls() {
    let t = target_of("https://localhost:4433/").unwrap_or_else(|_| panic!("a host is named"));
    assert_eq!(t.authority, b"localhost");
    assert_eq!(t.server_name.as_deref(), Some("localhost"));

    let t = target_of("HTTPS://Example.ORG").unwrap_or_else(|_| panic!("a host is named"));
    assert_eq!(t.authority, b"example.org");

    let t = target_of("https://127.0.0.1:4433/").unwrap_or_else(|_| panic!("a host is named"));
    assert_eq!(t.authority, b"127.0.0.1");
    assert_eq!(t.server_name, None);

    let t = target_of("https://[::1]:4433/").unwrap_or_else(|_| panic!("a host is named"));
    assert_eq!(t.authority, b"[::1]");
    assert_eq!(t.server_name, None);
}

#[test]
fn base_urls_that_name_no_server() {
    assert!(matches!(
        target_of("not a url"),
        Err(TargetError::Url(url::ParseError::RelativeUrlWithoutBase))
    ));
    assert!(matches!(target_of("mailto:someone@example.org"), Err(TargetError::NoHost)));
}

#[test]
fn targets_of_parts() {
    let t = target_of_parts(Some("h".to_string()), None).unwrap_or_else(|| panic!("has a host"));
    assert_eq!(t.authority, b"h");
    assert_eq!(t.server_name, None);
    assert!(target_of_parts(None, Some("d".to_string())).is_none());
}

#[test]
fn request_headers() {
    assert_eq!(
        lines(&plain_request(b"localhost", b"/dl_sponza.glb")),
        [
            ":method GET",
            ":scheme https",
            ":authority localhost",
            ":path /dl_sponza.glb",
            "user-agent h3-sponza-client",
        ]
    );
    let incremental = Req::new(b"/a", 3, true, "B");
    assert_eq!(
        lines(&prioritized_request(b"localhost", &incremental)),
        [
            ":method GET",
            ":scheme https",
            ":authority localhost",
            ":path /a",
            "priority u=3,i",
            "user-agent h3-exp-client",
        ]
    );
    let whole = Req::new(b"/a", 255, false, "B");
    assert_eq!(lines(&prioritized_request(b"h", &whole))[4], "priority u=255");
}

#[test]
fn response_fields_are_matched_exactly_and_the_last_one_counts() {
    let headers = vec![
        Header::new(b":status", b"103"),
        Header::new(b":Status", b"500"),
        Header::new(b":status", b"200"),
    ];
    assert_eq!(response_status(&headers), Some(b"200".to_vec()));
    assert_eq!(response_status(&headers[1..2]), None);
}

#[test]
fn content_length_is_updated_by_each_field() {
    let field = |v: &[u8]| Header::new(b"content-length", v);
    assert_eq!(response_content_length(&[field(b"12")], None), Some(12));
    assert_eq!(response_content_length(&[], Some(7)), Some(7));
    assert_eq!(response_content_length(&[field(b"12"), field(b"x")], Some(7)), None);
    assert_eq!(response_content_length(&[field(b"12"), field(b"\xff")], Some(7)), Some(12));
    assert_eq!(
        response_content_length(&[Header::new(b"Content-Length", b"12")], Some(7)),
        Some(7)
    );
}

#[test]
fn transmission_is_retried_while_it_would_block() {
    assert_eq!(after_transmission(Transmission::Sent), Transmit::Done);
    assert_eq!(after_transmission(Transmission::WouldBlock), Transmit::Again);
    assert_eq!(after_transmission(Transmission::Failed), Transmit::Abort(Failure::UdpSend));
    assert_eq!(Failure::UdpSend.label(), "udp send_to error");
}

#[test]
fn failures_have_labels() {
    assert_eq!(Failure::UdpRecv.label(), "udp recv error");
    assert_eq!(Failure::QuicRecv.label(), "quiche recv error");
    assert_eq!(Failure::RecvBody.label(), "recv_body error");
    assert_eq!(Failure::H3Poll.label(), "h3 poll error");
    assert_eq!(Failure::QuicSend.label(), "send failed");
}

fn opened_single() -> SingleGet {
    let mut s = SingleGet::new(0);
    assert_eq!(s.task, Task::Wait);
    s.step(Event::Waited { timed_out: true }, 1);
    assert_eq!(s.task, Task::HandleTimeout);
    s.step(Event::TimeoutHandled, 2);
    assert_eq!(s.task, Task::Receive);
    s.step(Event::Received(Reception::Fed), 3);
    assert_eq!(s.task, Task::Receive);
    s.step(Event::Received(Reception::WouldBlock), 4);
    assert_eq!(s.task, Task::CheckEstablished);
    s.step(Event::Established(true), 5);
    assert_eq!(s.task, Task::OpenSession);
    s.step(Event::SessionOpened, 6);
    assert_eq!(s.task, Task::SendRequest(0));
    s.step(Event::RequestSent(4), 7);
    assert_eq!(s.task, Task::PollSession);
    assert_eq!(s.sent_sid, Some(4));
    s
}

#[test]
fn single_request_runs_to_its_end() {
    let mut s = opened_single();
    let list = vec![Header::new(b":status", b"200"), Header::new(b"content-length", b"10")];
    let notice = s.step(Event::Polled(Polled::Headers { sid: 4, list }), 8);
    assert!(matches!(notice, Notice::Status { sid: 4, status } if status == b"200"));
    assert_eq!(s.content_len, Some(10));

    s.step(Event::Polled(Polled::Data(4)), 9);
    assert_eq!(s.task, Task::ReadBody(4));
    let notice = s.step(Event::BodyRead(BodyRead::Bytes(6)), REPORT_INTERVAL - 1);
    assert!(matches!(notice, Notice::Nothing));
    assert_eq!(s.task, Task::ReadBody(4));
    let notice = s.step(Event::BodyRead(BodyRead::Bytes(4)), REPORT_INTERVAL);
    assert!(matches!(notice, Notice::Progress(4)));
    assert_eq!(s.received, 10);
    assert_eq!(s.last_report, REPORT_INTERVAL);
    s.step(Event::BodyRead(BodyRead::Drained), REPORT_INTERVAL + 1);
    assert_eq!(s.task, Task::PollSession);

    let notice = s.step(Event::Polled(Polled::Finished(4)), REPORT_INTERVAL + 2);
    assert!(matches!(notice, Notice::Finished(4)));
    assert_eq!(s.task, Task::CloseConnection);
    s.step(Event::CloseRequested, REPORT_INTERVAL + 3);
    s.step(Event::Polled(Polled::Other), REPORT_INTERVAL + 4);
    s.step(Event::Polled(Polled::Drained), REPORT_INTERVAL + 5);
    assert_eq!(s.task, Task::SendPacket);
    s.step(Event::Packet(Packet::Sent), REPORT_INTERVAL + 6);
    assert_eq!(s.task, Task::SendPacket);
    s.step(Event::Packet(Packet::Drained), REPORT_INTERVAL + 7);
    assert_eq!(s.task, Task::CheckClosed);
    s.step(Event::Closed(false), REPORT_INTERVAL + 8);
    assert_eq!(s.task, Task::Wait);
}

#[test]
fn single_request_is_sent_once() {
    let mut s = opened_single();
    s.step(Event::Polled(Polled::Drained), 8);
    s.step(Event::Packet(Packet::Drained), 9);
    s.step(Event::Closed(false), 10);
    s.step(Event::Waited { timed_out: false }, 11);
    assert_eq!(s.task, Task::Receive);
    s.step(Event::Received(Reception::ConnectionDone), 12);
    assert_eq!(s.task, Task::PollSession);
    assert_eq!(s.sent_sid, Some(4));
}

#[test]
fn single_request_tolerates_a_rejected_datagram() {
    let mut s = SingleGet::new(0);
    s.step(Event::Waited { timed_out: false }, 0);
    s.step(Event::Received(Reception::ConnectionError), 0);
    assert_eq!(s.task, Task::CheckEstablished);
    s.step(Event::Established(false), 0);
    assert_eq!(s.task, Task::SendPacket);
    s.step(Event::Packet(Packet::Drained), 0);
    s.step(Event::Closed(true), 0);
    assert_eq!(s.task, Task::Stop);
    assert_eq!(s.sent_sid, None);
}

#[test]
fn every_failure_aborts() {
    let mut s = SingleGet::new(0);
    s.step(Event::Waited { timed_out: false }, 0);
    s.step(Event::Received(Reception::SocketError), 0);
    assert_eq!(s.task, Task::Abort(Failure::UdpRecv));

    let mut s = opened_single();
    s.step(Event::Polled(Polled::Failed), 8);
    assert_eq!(s.task, Task::Abort(Failure::H3Poll));

    let mut s = opened_single();
    s.step(Event::Polled(Polled::Data(4)), 8);
    s.step(Event::BodyRead(BodyRead::Failed), 9);
    assert_eq!(s.task, Task::Abort(Failure::RecvBody));

    let mut s = opened_single();
    s.step(Event::Polled(Polled::Drained), 8);
    s.step(Event::Packet(Packet::Failed), 9);
    assert_eq!(s.task, Task::Abort(Failure::QuicSend));

    let mut m = MultiGet::new(vec![Req::new(b"/", 3, false, "a")], vec![]);
    m.step(Event::Waited { timed_out: false }, 0);
    m.step(Event::Received(Reception::ConnectionError), 0);
    assert_eq!(m.task(), Task::Abort(Failure::QuicRecv));
}

#[test]
fn an_empty_read_ends_the_reading() {
    let mut s = opened_single();
    s.step(Event::Polled(Polled::Data(4)), 8);
    let notice = s.step(Event::BodyRead(BodyRead::Bytes(0)), REPORT_INTERVAL * 2);
    assert!(matches!(notice, Notice::Nothing));
    assert_eq!(s.task, Task::PollSession);
    assert_eq!(s.received, 0);
    assert_eq!(s.last_report, 0);
}

#[test]
fn updates_are_swept_once_and_not_before_their_time() {
    let updates = [update(0, 7, 100), update(9, 1, 100), update(1, 0, 200)];
    let sids = [0u64, 4];
    let mut fired = vec![false, false, false];
    assert!(sweep(&updates, &mut fired, &sids, 99).is_empty());
    assert_eq!(fired, [false, false, false]);
    assert_eq!(sweep(&updates, &mut fired, &sids, 100), vec![(0, 0)]);
    assert_eq!(fired, [true, true, false]);
    assert_eq!(sweep(&updates, &mut fired, &sids, 300), vec![(2, 4)]);
    assert_eq!(fired, [true, true, true]);
    assert!(sweep(&updates, &mut fired, &sids, 400).is_empty());
}

#[test]
fn records_are_filed_by_stream() {
    let mut t = StatTable::new();
    assert!(t.is_empty());
    assert!(t.all_finished());
    t.insert(Stat::sent_at(8, "b", 3, false, 20));
    t.insert(Stat::sent_at(4, "a", 7, true, 10));
    assert!(!t.is_empty());
    assert!(!t.all_finished());
    assert!(t.get(5).is_none());
    let mut a = t.get(4).unwrap();
    assert_eq!((a.sid, a.tag, a.urgency, a.incremental, a.bytes), (4, "a", 7, true, 0));
    assert_eq!((a.t_sent, a.t_first, a.t_fin), (10, None, None));
    a.t_fin = Some(30);
    t.insert(a);
    let rows = t.rows();
    assert_eq!(rows.iter().map(|r| r.sid).collect::<Vec<u64>>(), [4, 8]);
    assert_eq!(rows[0].t_fin, Some(30));
}

#[test]
fn new_records_carry_the_time() {
    let origin = std::time::Instant::now();
    let a = Stat::new(4, "a", 3, true, &origin);
    let b = Stat::new(8, "b", 3, true, &origin);
    assert_eq!((a.sid, a.tag, a.urgency, a.incremental, a.bytes), (4, "a", 3, true, 0));
    assert!(a.t_first.is_none() && a.t_fin.is_none());
    assert!(a.t_sent <= b.t_sent);
    assert!(b.t_sent <= origin.elapsed().as_nanos());
}

fn opened_multi() -> MultiGet {
    let reqs = vec![Req::new(b"/a", 7, false, "a"), Req::new(b"/b", 0, true, "b")];
    let mut m = MultiGet::new(reqs, vec![update(1, 5, 50), update(0, 6, 60)]);
    assert_eq!(m.task(), Task::Wait);
    m.step(Event::Waited { timed_out: false }, 1);
    m.step(Event::Received(Reception::WouldBlock), 2);
    m.step(Event::Established(true), 3);
    m.step(Event::SessionOpened, 4);
    assert_eq!(m.task(), Task::SendRequest(0));
    assert_eq!(m.request(0).tag, "a");
    m.step(Event::RequestSent(0), 5);
    assert_eq!(m.task(), Task::SendRequest(1));
    m.step(Event::RequestSent(4), 6);
    assert_eq!(m.task(), Task::PollSession);
    assert!(m.due_updates().is_empty());
    m
}

fn next_round(m: &mut MultiGet, now: u128) {
    m.step(Event::Polled(Polled::Drained), now);
    m.step(Event::Packet(Packet::Drained), now);
    m.step(Event::Closed(false), now);
    m.step(Event::Waited { timed_out: false }, now);
    m.step(Event::Received(Reception::WouldBlock), now);
}

#[test]
fn several_requests_run_until_all_are_complete() {
    let mut m = opened_multi();
    let list = vec![Header::new(b":status", b"200")];
    m.step(Event::Polled(Polled::Headers { sid: 4, list }), 10);
    m.step(Event::Polled(Polled::Headers { sid: 0, list: vec![] }), 11);
    assert_eq!(m.stat(4).unwrap().t_first, Some(10));
    assert_eq!(m.stat(0).unwrap().t_first, None);

    m.step(Event::Polled(Polled::Data(0)), 12);
    m.step(Event::BodyRead(BodyRead::Bytes(100)), 13);
    m.step(Event::BodyRead(BodyRead::Bytes(28)), 14);
    m.step(Event::BodyRead(BodyRead::Drained), 15);
    m.step(Event::Polled(Polled::Finished(0)), 16);
    assert_eq!(m.task(), Task::PollSession);

    next_round(&mut m, 20);
    assert_eq!(m.task(), Task::PollSession);
    m.step(Event::Polled(Polled::Data(4)), 21);
    m.step(Event::BodyRead(BodyRead::Bytes(5)), 22);
    m.step(Event::BodyRead(BodyRead::Bytes(0)), 23);
    // A stream without a record is ignored.
    m.step(Event::Polled(Polled::Data(8)), 24);
    m.step(Event::BodyRead(BodyRead::Bytes(9)), 25);
    m.step(Event::BodyRead(BodyRead::Drained), 26);
    m.step(Event::Polled(Polled::Finished(8)), 27);
    m.step(Event::Polled(Polled::Finished(4)), 28);
    m.step(Event::Polled(Polled::Drained), 29);
    m.step(Event::Packet(Packet::Drained), 30);
    assert_eq!(m.task(), Task::Stop);

    let rows = m.result().rows;
    assert_eq!(rows.len(), 2);
    let (a, b) = (rows[0], rows[1]);
    assert_eq!((a.sid, a.tag, a.urgency, a.incremental, a.bytes), (0, "a", 7, false, 128));
    assert_eq!((a.t_sent, a.t_first, a.t_fin), (5, Some(13), Some(16)));
    assert_eq!((b.sid, b.tag, b.urgency, b.incremental, b.bytes), (4, "b", 0, true, 5));
    assert_eq!((b.t_sent, b.t_first, b.t_fin), (6, Some(10), Some(28)));
}

#[test]
fn records_name_their_request_and_follow_it_in_time() {
    let mut m = opened_multi();
    let list = vec![Header::new(b":status", b"200")];
    m.step(Event::Polled(Polled::Headers { sid: 0, list }), 6);
    m.step(Event::Polled(Polled::Finished(4)), 6);
    m.step(Event::Polled(Polled::Finished(0)), 9);
    for (i, sid) in [0u64, 4].into_iter().enumerate() {
        let s = m.stat(sid).unwrap();
        let r = m.request(i);
        assert_eq!((s.tag, s.urgency, s.incremental), (r.tag, r.urgency, r.incremental));
        assert!(s.t_first.map_or(true, |t| t >= s.t_sent));
        assert!(s.t_fin.unwrap() >= s.t_sent);
    }
}

#[test]
fn priority_updates_are_asked_for_once_they_are_due() {
    let mut m = opened_multi();
    next_round(&mut m, 50);
    assert_eq!(m.task(), Task::UpdatePriorities);
    assert_eq!(*m.due_updates(), vec![(0, 4)]);
    m.step(Event::PrioritiesUpdated, 51);
    assert_eq!(m.task(), Task::PollSession);
    next_round(&mut m, 59);
    assert_eq!(m.task(), Task::PollSession);
    next_round(&mut m, 70);
    assert_eq!(m.task(), Task::UpdatePriorities);
    assert_eq!(*m.due_updates(), vec![(1, 0)]);
    m.step(Event::PrioritiesUpdated, 71);
    next_round(&mut m, 90);
    assert_eq!(m.task(), Task::PollSession);
}

#[test]
fn a_run_without_requests_ends_with_the_connection() {
    let mut m = MultiGet::new(vec![], vec![update(0, 1, 0)]);
    m.step(Event::Waited { timed_out: false }, 1);
    m.step(Event::Received(Reception::WouldBlock), 2);
    m.step(Event::Established(true), 3);
    m.step(Event::SessionOpened, 4);
    assert_eq!(m.task(), Task::PollSession);
    m.step(Event::Polled(Polled::Drained), 5);
    m.step(Event::Packet(Packet::Drained), 6);
    assert_eq!(m.task(), Task::CheckClosed);
    m.step(Event::Closed(true), 7);
    assert_eq!(m.task(), Task::Stop);
    assert!(m.result().rows.is_empty());
}
