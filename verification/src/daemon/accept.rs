//! Routing accepted connections by the protocol they speak.

use vstd::prelude::*;

use crate::config::path::bytes_to_vec;
use crate::order::same_bytes;

verus! {

/// Maximum in-flight handshakes of not-yet-authenticated connections.
pub const MAX_PENDING_HANDSHAKES: usize = 32;

/// Pending inbound memberships; merging is fast, so a full channel means a
/// flood, and dropped snapshots are healed by the anti-entropy re-gossip.
pub const GOSSIP_QUEUE: usize = 16;

/// How often the membership is re-gossiped even when nothing changed, in
/// milliseconds, so a snapshot dropped under load is not lost until the next
/// change.
pub const GOSSIP_INTERVAL: u64 = 300_000;

/// Handshake budget in milliseconds, so stalled attempts release their permit
/// quickly instead of waiting out the transport-level timeout.
pub const HANDSHAKE_TIMEOUT: u64 = 10_000;

/// The protocols the daemon speaks, by the name they are negotiated under.
pub struct Protocols {
    pub sync: Vec<u8>,
    pub pair: Vec<u8>,
}

/// Who serves an accepted connection.
#[derive(Clone, Copy, PartialEq, Eq, Structural, Debug)]
pub enum Handler {
    /// The peer task of the remote endpoint, if it is paired.
    Peers,
    /// A pairing exchange, if a ticket is outstanding.
    Pairing,
    /// Nobody: the connection is closed.
    Nobody,
}

impl Protocols {
    /// The protocols the daemon serves. Pairing is always among them: it is
    /// gated by the one-time ticket, not by exposure, and unknown endpoints can
    /// complete handshakes on the sync protocol anyway (they are refused
    /// post-handshake by the peer allowlist).
    pub fn alpns(&self) -> (alpns: Vec<Vec<u8>>)
        ensures
            crate::net::sync::heads_view(alpns@) == seq![self.sync@, self.pair@],
    {
        let mut alpns: Vec<Vec<u8>> = Vec::new();
        alpns.push(bytes_to_vec(self.sync.as_slice()));
        alpns.push(bytes_to_vec(self.pair.as_slice()));
        assert(crate::net::sync::heads_view(alpns@) =~= seq![self.sync@, self.pair@]);
        alpns
    }

    /// Who serves a connection that negotiated `alpn`.
    pub fn route(&self, alpn: &[u8]) -> (handler: Handler)
        ensures
            handler == if alpn@ == self.sync@ {
                Handler::Peers
            } else if alpn@ == self.pair@ {
                Handler::Pairing
            } else {
                Handler::Nobody
            },
    {
        if same_bytes(alpn, self.sync.as_slice()) {
            Handler::Peers
        } else if same_bytes(alpn, self.pair.as_slice()) {
            Handler::Pairing
        } else {
            Handler::Nobody
        }
    }
}

} // verus!
