//! Fixed settings of the client.
use vstd::prelude::*;

verus! {

/// The largest datagram that is sent or received.
pub const MAX_DGRAM: usize = 1350;

/// The length of a connection identifier.
pub const CONNECTION_ID_LEN: usize = 16;

/// Transport parameters of a QUIC connection.
#[derive(Debug, Clone, Copy, PartialEq, Eq, Structural)]
pub struct TransportParams {
    /// Milliseconds without traffic before the connection is dropped.
    pub max_idle_timeout: u64,
    pub initial_max_data: u64,
    pub initial_max_stream_data_bidi_local: u64,
    pub initial_max_stream_data_bidi_remote: u64,
    pub initial_max_stream_data_uni: u64,
    pub initial_max_streams_bidi: u64,
    pub initial_max_streams_uni: u64,
    pub max_recv_udp_payload_size: usize,
    pub max_send_udp_payload_size: usize,
    /// Whether the server's certificate is checked.
    pub verify_peer: bool,
}

/// The parameters of the measuring client. Certificates are not checked: it talks to a local
/// server.
pub fn client_params() -> (p: TransportParams)
    ensures
        p.max_idle_timeout == 120_000,
        p.initial_max_data == 200_000_000,
        p.initial_max_stream_data_bidi_local == 32_000_000,
        p.initial_max_stream_data_bidi_remote == 32_000_000,
        p.initial_max_stream_data_uni == 2_000_000,
        p.initial_max_streams_bidi == 64,
        p.initial_max_streams_uni == 4,
        p.max_recv_udp_payload_size == MAX_DGRAM,
        p.max_send_udp_payload_size == MAX_DGRAM,
        !p.verify_peer,
{
    TransportParams {
        max_idle_timeout: 120_000,
        initial_max_data: 200_000_000,
        initial_max_stream_data_bidi_local: 32_000_000,
        initial_max_stream_data_bidi_remote: 32_000_000,
        initial_max_stream_data_uni: 2_000_000,
        initial_max_streams_bidi: 64,
        initial_max_streams_uni: 4,
        max_recv_udp_payload_size: MAX_DGRAM,
        max_send_udp_payload_size: MAX_DGRAM,
        verify_peer: false,
    }
}

/// The address of the server under test.
pub fn peer_address() -> (r: &'static str)
    ensures
        r@ == "127.0.0.1:4433"@,
{
    "127.0.0.1:4433"
}

/// The address to bind to, of the same family as the peer's.
pub fn bind_address(peer_is_v4: bool) -> (r: &'static str)
    ensures
        r@ == if peer_is_v4 {
            "0.0.0.0:0"@
        } else {
            "[::]:0"@
        },
{
    if peer_is_v4 {
        "0.0.0.0:0"
    } else {
        "[::]:0"
    }
}

} // verus!
