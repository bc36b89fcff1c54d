//! One peer's connection, maintained forever: dial, hold, reconnect with
//! exponential backoff.

use vstd::prelude::*;

use super::{PeerState, PeerStateView};
use crate::daemon::backoff::{Backoff, BackoffView};
use crate::daemon::hub::{HubView, PeerSenderView, SyncHub};
use crate::net::endpoint::EndpointId;
use crate::order::{Key, Rel};

verus! {

/// Reconnect delay after a first failure; doubles up to [`BACKOFF_MAX`].
pub const BACKOFF_MIN: u64 = 1_000;

/// Ceiling of the reconnect delay.
pub const BACKOFF_MAX: u64 = 60_000;

/// A connection living at least this long resets the backoff. Connections dying
/// younger (e.g. closed as duplicate by the peer, or a flapping peer) advance
/// it instead, so establish-then-close cycles cannot redial hot.
pub const STABLE_UPTIME: u64 = 10_000;

/// Maximum announcement streams handled concurrently per peer connection: the
/// peer is authenticated but must not spawn unbounded work.
pub const MAX_ANNOUNCE_STREAMS: usize = 16;

/// Budget for reading one announcement stream, in milliseconds, so a stalled
/// stream cannot hold its place indefinitely.
pub const ANNOUNCE_TIMEOUT: u64 = 10_000;

/// What a peer task is at.
#[derive(Clone, Copy, PartialEq, Eq, Structural, Debug)]
pub enum Phase {
    /// Waiting out a backoff.
    Waiting,
    /// Dialing the peer.
    Dialing,
    /// Holding a connection: which one, whether this side dialed it, when the
    /// task started holding one, and when it started holding this one.
    Holding { conn: u64, outbound: bool, held: u64, since: u64 },
}

/// One peer's connection, maintained forever.
pub struct PeerTask {
    local: EndpointId,
    peer: EndpointId,
    backoff: Backoff,
    failures: u32,
    /// Announcement streams being read.
    streams: usize,
    phase: Phase,
}

/// A peer task by content.
#[verifier::ext_equal]
pub struct TaskView {
    pub local: Seq<u8>,
    pub peer: Seq<u8>,
    pub backoff: BackoffView,
    pub failures: u32,
    pub streams: nat,
    pub phase: Phase,
}

impl View for PeerTask {
    type V = TaskView;

    closed spec fn view(&self) -> TaskView {
        TaskView {
            local: self.local@,
            peer: self.peer@,
            backoff: self.backoff@,
            failures: self.failures,
            streams: self.streams as nat,
            phase: self.phase,
        }
    }
}

/// Whether this side's endpoint id is the lower one.
pub open spec fn is_lower(t: TaskView) -> bool {
    crate::order::bytes_before(t.local, t.peer)
}

/// Whether a held connection outlives a duplicate that just came in: only the
/// one dialed by the lower endpoint id does.
pub open spec fn outlives_inbound(t: TaskView, outbound: bool) -> bool {
    outbound && is_lower(t)
}

/// What became of an inbound connection.
#[derive(Clone, Copy, PartialEq, Eq, Structural, Debug)]
pub enum Inbound {
    /// The task holds it now.
    Adopted,
    /// Left waiting: this side completes its own dial first.
    Queued,
    /// A duplicate, to be closed.
    Duplicate,
    /// The task holds it now, instead of another that is to be closed.
    Replaced { old: u64 },
}

/// What becomes of an inbound connection.
///
/// The lower endpoint id prefers completing its own dial, leaving inbound
/// connections queued for the duplicate tie-break; the higher id adopts
/// whichever lands first. First-wins on both sides could adopt mirrored
/// connections that the other side just abandoned, redialing in a loop.
pub open spec fn inbound_outcome(t: TaskView) -> Inbound {
    match t.phase {
        Phase::Waiting => Inbound::Adopted,
        Phase::Dialing => if is_lower(t) {
            Inbound::Queued
        } else {
            Inbound::Adopted
        },
        Phase::Holding { conn, outbound, .. } => if outlives_inbound(t, outbound) {
            Inbound::Duplicate
        } else {
            Inbound::Replaced { old: conn }
        },
    }
}

/// A task once it holds a connection.
pub open spec fn holding(t: TaskView, conn: u64, outbound: bool, now: u64) -> TaskView {
    TaskView {
        failures: 0,
        streams: 0,
        phase: Phase::Holding { conn, outbound, held: now, since: now },
        ..t
    }
}

/// A task after an inbound connection.
pub open spec fn after_inbound(t: TaskView, conn: u64, now: u64) -> TaskView {
    match inbound_outcome(t) {
        Inbound::Adopted => holding(t, conn, false, now),
        Inbound::Replaced { .. } => match t.phase {
            Phase::Holding { held, .. } => TaskView {
                phase: Phase::Holding { conn, outbound: false, held, since: now },
                ..t
            },
            _ => t,
        },
        _ => t,
    }
}

/// The hub once a peer is connected.
pub open spec fn hub_connected(h: HubView, peer: Seq<u8>, conn: u64) -> HubView {
    HubView {
        peers: h.peers.insert(
            peer,
            PeerSenderView { conn, outbox: crate::daemon::hub::replay(h) },
        ),
        ..h
    }
}

impl PeerTask {
    /// A task that dials its peer for the first time.
    pub fn new(local: EndpointId, peer: EndpointId) -> (task: Self)
        ensures
            task@ == (TaskView {
                local: local@,
                peer: peer@,
                backoff: crate::daemon::backoff::started(BACKOFF_MIN as nat, BACKOFF_MAX as nat),
                failures: 0,
                streams: 0,
                phase: Phase::Dialing,
            }),
    {
        PeerTask {
            local,
            peer,
            backoff: Backoff::new(BACKOFF_MIN, BACKOFF_MAX),
            failures: 0,
            streams: 0,
            phase: Phase::Dialing,
        }
    }

    /// Whether inbound connections may be taken while dialing.
    pub fn adopts_while_dialing(&self) -> (r: bool)
        ensures
            r == !is_lower(self@),
    {
        !self.lower()
    }

    fn lower(&self) -> (r: bool)
        ensures
            r == is_lower(self@),
    {
        let rel = self.local.relate(&self.peer);
        proof {
            crate::order::bytes_irreflexive(self.local@);
            if rel == Rel::After && is_lower(self@) {
                crate::order::bytes_chain(self.local@, self.peer@, self.local@);
            }
        }
        rel == Rel::Before
    }

    /// The dial succeeded: the task holds the connection, and the hub replays
    /// its state over it.
    pub fn dialed(&mut self, hub: &mut SyncHub, conn: u64, now: u64)
        ensures
            final(self)@ == holding(old(self)@, conn, true, now),
            final(hub)@ == hub_connected(old(hub)@, old(self)@.peer, conn),
    {
        self.failures = 0;
        self.streams = 0;
        self.phase = Phase::Holding { conn, outbound: true, held: now, since: now };
        hub.peer_connected(self.peer, conn);
    }

    /// The dial failed; returns the delay to wait before the next one.
    pub fn dial_failed(&mut self) -> (delay: u64)
        ensures
            delay == old(self)@.backoff.current,
            final(self)@ == (TaskView {
                backoff: crate::daemon::backoff::advanced(old(self)@.backoff),
                failures: if old(self)@.failures < u32::MAX {
                    (old(self)@.failures + 1) as u32
                } else {
                    u32::MAX
                },
                phase: Phase::Waiting,
                ..old(self)@
            }),
    {
        if self.failures < u32::MAX {
            self.failures = self.failures + 1;
        }
        self.phase = Phase::Waiting;
        self.backoff.next_delay()
    }

    /// A backoff was waited out: dial again.
    pub fn redial(&mut self)
        ensures
            final(self)@ == (TaskView { phase: Phase::Dialing, ..old(self)@ }),
    {
        self.phase = Phase::Dialing;
    }

    /// A connection came in. The connection dialed by the lower endpoint id is
    /// kept: both sides pick the same one, so the duplicate dies without
    /// killing the surviving connection.
    pub fn inbound(&mut self, hub: &mut SyncHub, conn: u64, now: u64) -> (outcome: Inbound)
        ensures
            outcome == inbound_outcome(old(self)@),
            final(self)@ == after_inbound(old(self)@, conn, now),
            final(hub)@ == match outcome {
                Inbound::Adopted => hub_connected(old(hub)@, old(self)@.peer, conn),
                Inbound::Replaced { .. } => hub_connected(old(hub)@, old(self)@.peer, conn),
                _ => old(hub)@,
            },
    {
        match self.phase {
            Phase::Waiting => {
                self.failures = 0;
                self.streams = 0;
                self.phase = Phase::Holding { conn, outbound: false, held: now, since: now };
                hub.peer_connected(self.peer, conn);
                Inbound::Adopted
            },
            Phase::Dialing => {
                if self.lower() {
                    return Inbound::Queued;
                }
                self.failures = 0;
                self.streams = 0;
                self.phase = Phase::Holding { conn, outbound: false, held: now, since: now };
                hub.peer_connected(self.peer, conn);
                Inbound::Adopted
            },
            Phase::Holding { conn: old_conn, outbound, held, since: _ } => {
                if outbound && self.lower() {
                    return Inbound::Duplicate;
                }
                self.phase = Phase::Holding { conn, outbound: false, held, since: now };
                hub.peer_connected(self.peer, conn);
                Inbound::Replaced { old: old_conn }
            },
        }
    }

    /// The held connection closed; returns the delay to wait before dialing
    /// again, none if it lived long enough to be called stable.
    pub fn closed(&mut self, hub: &mut SyncHub, now: u64) -> (delay: Option<u64>)
        requires
            old(self)@.phase is Holding,
        ensures
            ({
                let stable = now >= old(self)@.phase->held && now - old(self)@.phase->held
                    >= STABLE_UPTIME;
                &&& stable ==> delay is None && final(self)@ == TaskView {
                    backoff: crate::daemon::backoff::started(
                        old(self)@.backoff.min,
                        old(self)@.backoff.max,
                    ),
                    phase: Phase::Dialing,
                    ..old(self)@
                }
                &&& !stable ==> delay == Some(old(self)@.backoff.current as u64) && final(self)@
                    == TaskView {
                    backoff: crate::daemon::backoff::advanced(old(self)@.backoff),
                    phase: Phase::Waiting,
                    ..old(self)@
                }
            }),
            final(hub)@ == crate::daemon::hub::disconnected(old(hub)@, old(self)@.peer),
    {
        hub.peer_disconnected(&self.peer);
        let stable: bool = match self.phase {
            Phase::Holding { held, .. } => now >= held && now - held >= STABLE_UPTIME,
            _ => false,
        };
        if stable {
            self.backoff.reset();
            self.phase = Phase::Dialing;
            None
        } else {
            self.phase = Phase::Waiting;
            Some(self.backoff.next_delay())
        }
    }

    /// An announcement stream opened; tells whether it is read, or dropped
    /// because too many are open.
    pub fn stream_opened(&mut self) -> (accepted: bool)
        ensures
            accepted == (old(self)@.streams < MAX_ANNOUNCE_STREAMS),
            final(self)@ == if accepted {
                TaskView { streams: old(self)@.streams + 1, ..old(self)@ }
            } else {
                old(self)@
            },
    {
        if self.streams >= MAX_ANNOUNCE_STREAMS {
            return false;
        }
        self.streams = self.streams + 1;
        true
    }

    /// An announcement stream was read, or given up.
    pub fn stream_closed(&mut self)
        ensures
            final(self)@ == (TaskView {
                streams: if old(self)@.streams > 0 {
                    (old(self)@.streams - 1) as nat
                } else {
                    0
                },
                ..old(self)@
            }),
    {
        if self.streams > 0 {
            self.streams = self.streams - 1;
        }
    }

    /// The state shown while dialing or holding; a wait is shown with its end
    /// and reason, which the caller knows.
    pub fn state(&self) -> (state: PeerState)
        ensures
            state@ == match self@.phase {
                Phase::Holding { conn, since, .. } => PeerStateView::Connected { conn, since },
                _ => PeerStateView::Connecting { failures: self@.failures },
            },
    {
        match self.phase {
            Phase::Holding { conn, outbound: _, held: _, since } => PeerState::Connected {
                conn,
                since,
            },
            _ => PeerState::Connecting { failures: self.failures },
        }
    }
}

/// Both sides of a pair keep the same connection: with one dialed by each side,
/// the lower endpoint id keeps the one it dialed, and the higher id gives up
/// its own for that one. Each side goes by its own numbers and its own clock.
pub proof fn both_sides_keep_the_same_connection(low: TaskView, high: TaskView)
    requires
        low.local == high.peer,
        low.peer == high.local,
        is_lower(low),
        low.phase is Holding && low.phase->outbound,
        high.phase is Holding && high.phase->outbound,
    ensures
        inbound_outcome(low) == Inbound::Duplicate,
        inbound_outcome(high) == (Inbound::Replaced { old: high.phase->conn }),
        forall|conn: u64, now: u64|
            (#[trigger] after_inbound(low, conn, now)) == low && takes_up(high, conn, now),
{
    lemma_one_side_is_lower(low, high);
}

/// While the lower endpoint id still dials, what the higher one dialed is left
/// waiting, and is a duplicate once the dial succeeds. The connection so dialed
/// is taken up by the higher id, whatever it is at. Each side goes by its own
/// numbers and its own clock.
pub proof fn the_lower_ids_dial_prevails(
    low: TaskView,
    high: TaskView,
    dialed: u64,
    dialed_at: u64,
    arrived: u64,
    arrived_at: u64,
)
    requires
        low.local == high.peer,
        low.peer == high.local,
        is_lower(low),
        low.phase is Dialing,
    ensures
        inbound_outcome(low) == Inbound::Queued,
        inbound_outcome(holding(low, dialed, true, dialed_at)) == Inbound::Duplicate,
        takes_up(high, arrived, arrived_at),
{
    lemma_one_side_is_lower(low, high);
}

/// Whether a task takes up an inbound connection.
pub open spec fn takes_up(t: TaskView, conn: u64, now: u64) -> bool {
    let after = after_inbound(t, conn, now);
    after.phase is Holding && after.phase->conn == conn && !after.phase->outbound
}

proof fn lemma_one_side_is_lower(low: TaskView, high: TaskView)
    requires
        low.local == high.peer,
        low.peer == high.local,
        is_lower(low),
    ensures
        !is_lower(high),
{
    if is_lower(high) {
        crate::order::bytes_chain(low.local, low.peer, low.local);
        crate::order::bytes_irreflexive(low.local);
    }
}

/// A dial delay never leaves the bounds of the backoff.
pub proof fn redials_stay_in_bounds(times: nat)
    ensures
        BACKOFF_MIN <= crate::daemon::backoff::waited(
            crate::daemon::backoff::started(BACKOFF_MIN as nat, BACKOFF_MAX as nat),
            times,
        ).current <= BACKOFF_MAX,
{
    crate::daemon::backoff::delays_stay_in_bounds(BACKOFF_MIN as nat, BACKOFF_MAX as nat, times);
}

/// What becomes of an inbound connection: a task that waits takes it, one that
/// dials takes it unless its own id is the lower one, and one that holds a
/// connection gives that up for it unless it dialed it as the lower one.
pub proof fn inbound_connections_are_settled(t: TaskView)
    ensures
        ({
            let outcome = inbound_outcome(t);
            let lower = crate::order::bytes_before(t.local, t.peer);
            let holds = t.phase is Holding;
            &&& outcome is Adopted <==> t.phase is Waiting || (t.phase is Dialing && !lower)
            &&& outcome is Queued <==> t.phase is Dialing && lower
            &&& outcome is Duplicate <==> holds && t.phase->outbound && lower
            &&& outcome is Replaced <==> holds && !(t.phase->outbound && lower)
            &&& outcome is Replaced ==> outcome->old == t.phase->conn
        }),
{
}

/// A connection taken up is held as inbound from now on, with the failures
/// behind it forgotten; one that takes another's place keeps how long the peer
/// has been held; any other leaves the task as it was.
pub proof fn inbound_connections_are_taken_up(t: TaskView, conn: u64, now: u64)
    ensures
        ({
            let after = after_inbound(t, conn, now);
            let outcome = inbound_outcome(t);
            &&& after.local == t.local
            &&& after.peer == t.peer
            &&& after.backoff == t.backoff
            &&& outcome is Adopted ==> after.failures == 0 && after.streams == 0 && after.phase
                == (Phase::Holding { conn, outbound: false, held: now, since: now })
            &&& outcome is Replaced ==> after.failures == t.failures && after.streams == t.streams
                && after.phase == (Phase::Holding {
                conn,
                outbound: false,
                held: t.phase->held,
                since: now,
            })
            &&& outcome is Queued || outcome is Duplicate ==> after == t
            &&& holding(t, conn, true, now).phase == (Phase::Holding {
                conn,
                outbound: true,
                held: now,
                since: now,
            })
            &&& holding(t, conn, true, now).failures == 0
            &&& holding(t, conn, true, now).streams == 0
            &&& holding(t, conn, true, now).backoff == t.backoff
        }),
{
}

/// A connected peer can be reached through its connection, and is about to be
/// told the membership, the status and every published repo; the others are not
/// touched.
pub proof fn connected_peers_are_caught_up(
    h: HubView,
    peer: Seq<u8>,
    conn: u64,
    name: Seq<char>,
)
    ensures
        ({
            let after = hub_connected(h, peer, conn);
            let told = after.peers[peer].outbox;
            let e = h.repos[name];
            &&& after.peers.contains_key(peer)
            &&& after.peers[peer].conn == conn
            &&& after.peers.remove(peer) == h.peers.remove(peer)
            &&& told.membership == Some(h.membership)
            &&& told.status == h.status
            &&& told.announces.contains_key(name) <==> h.repos.contains_key(name) && e.published
                is Some
            &&& told.announces.contains_key(name) ==> told.announces[name].id == e.id
                && told.announces[name].seq == e.seq && Some(told.announces[name].heads)
                == e.published && told.announces[name].colocated == e.local_colocated
            &&& after.repos == h.repos
            &&& after.orphans == h.orphans
            &&& after.reports == h.reports
            &&& after.announce_seq == h.announce_seq
            &&& after.membership == h.membership
            &&& after.status == h.status
        }),
{
    assert(hub_connected(h, peer, conn).peers.remove(peer) =~= h.peers.remove(peer));
}

} // verus!
