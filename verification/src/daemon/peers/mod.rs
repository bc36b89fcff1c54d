//! Peer connection management.
//!
//! One task per paired peer maintains a persistent connection: dial, hold,
//! reconnect with exponential backoff. Both sides dial each other; duplicate
//! connections are resolved deterministically by keeping the one whose *dialer*
//! has the lower endpoint id, so the pair converges on a single connection
//! without flapping.
//!
//! Connections are known by the numbers the program around gives them; times
//! are milliseconds of the steady clock.

pub mod laws;
pub mod task;

use vstd::prelude::*;

use crate::config::state::MeshState;
use crate::config::state::membership::Record;
use crate::daemon::control::protocol::{
    ConnectionStatus, ConnectionView, PathInfo, PathInfoView, PeerStatus, PeerStatusView,
};
use crate::daemon::hub::{HubView, SyncHub};
use crate::daemon::repos::whole_secs;
use crate::net::endpoint::EndpointId;
use crate::order::{Duplicate, same_text};
use crate::sorted_map::{self, SortedMap};

verus! {

/// Inbound connections waiting for a peer task; surplus is dropped.
pub const INBOUND_QUEUE: usize = 4;

/// Live state of one peer connection.
pub enum PeerState {
    Connecting { failures: u32 },
    Connected { conn: u64, since: u64 },
    Backoff { until: u64, error: String },
}

/// A peer connection's state by content.
pub enum PeerStateView {
    Connecting { failures: u32 },
    Connected { conn: u64, since: u64 },
    Backoff { until: u64, error: Seq<char> },
}

impl View for PeerState {
    type V = PeerStateView;

    open spec fn view(&self) -> PeerStateView {
        match self {
            PeerState::Connecting { failures } => PeerStateView::Connecting {
                failures: *failures,
            },
            PeerState::Connected { conn, since } => PeerStateView::Connected {
                conn: *conn,
                since: *since,
            },
            PeerState::Backoff { until, error } => PeerStateView::Backoff {
                until: *until,
                error: error@,
            },
        }
    }
}

/// Book-keeping for one peer task.
pub struct PeerHandle {
    name: String,
    state: PeerState,
    task: u64,
}

/// A managed peer by content.
#[verifier::ext_equal]
pub struct HandleView {
    pub name: Seq<char>,
    pub state: PeerStateView,
    pub task: u64,
}

impl View for PeerHandle {
    type V = HandleView;

    closed spec fn view(&self) -> HandleView {
        HandleView { name: self.name@, state: self.state@, task: self.task }
    }
}

/// A peer task to start.
pub struct PeerStart {
    pub endpoint: EndpointId,
    pub name: String,
    pub task: u64,
}

/// A peer task to start, by content.
#[verifier::ext_equal]
pub struct StartView {
    pub endpoint: Seq<u8>,
    pub name: Seq<char>,
    pub task: u64,
}

impl View for PeerStart {
    type V = StartView;

    open spec fn view(&self) -> StartView {
        StartView { endpoint: self.endpoint@, name: self.name@, task: self.task }
    }
}

/// What aligning the peers with the mesh state leads to.
pub struct PeerPlan {
    /// Tasks to stop.
    pub stopped: Vec<u64>,
    /// Connections to close.
    pub closed: Vec<u64>,
    /// Tasks to start.
    pub started: Vec<PeerStart>,
}

/// The set of managed peers, synced from the mesh state.
///
/// Also acts as the connection allowlist: inbound connections are routed to the
/// matching peer task and refused when the endpoint is not a peer.
pub struct PeerSet {
    peers: SortedMap<EndpointId, PeerHandle>,
    /// Number of the next task.
    next_task: u64,
}

/// Managed peers by content.
#[verifier::ext_equal]
pub struct PeerSetView {
    pub peers: Map<Seq<u8>, HandleView>,
    pub next_task: nat,
}

impl View for PeerSet {
    type V = PeerSetView;

    closed spec fn view(&self) -> PeerSetView {
        PeerSetView { peers: self.peers@, next_task: self.next_task as nat }
    }
}

/// The rule that keeps the peers still alive under the name they are managed by.
pub open spec fn keeping(target: Map<Seq<u8>, Record>) -> spec_fn(
    Seq<u8>,
    HandleView,
) -> Option<HandleView> {
    |endpoint: Seq<u8>, handle: HandleView|
        if crate::config::state::paired_as(target, endpoint) == Some(handle.name) {
            Some(handle)
        } else {
            None
        }
}

/// The rule that reads the tasks to stop: those of the peers no longer alive, and
/// of the renamed ones.
pub open spec fn dropping(target: Map<Seq<u8>, Record>) -> spec_fn(
    Seq<u8>,
    HandleView,
) -> Option<u64> {
    |endpoint: Seq<u8>, handle: HandleView|
        if crate::config::state::paired_as(target, endpoint) == Some(handle.name) {
            None
        } else {
            Some(handle.task)
        }
}

/// The rule that reads the tasks of the peers no longer alive.
pub open spec fn severing(target: Map<Seq<u8>, Record>) -> spec_fn(
    Seq<u8>,
    HandleView,
) -> Option<u64> {
    |endpoint: Seq<u8>, handle: HandleView|
        match crate::config::state::paired_as(target, endpoint) {
            Some(name) => None,
            None => Some(handle.task),
        }
}

/// The hub after peers were disconnected one after the other.
pub open spec fn disconnected_all(h: HubView, peers: Seq<(Seq<u8>, u64)>) -> HubView
    decreases peers.len(),
{
    if peers.len() == 0 {
        h
    } else {
        crate::daemon::hub::disconnected(
            disconnected_all(h, peers.drop_last()),
            peers.last().0,
        )
    }
}

/// The connections closed by disconnecting peers.
pub open spec fn closed_by(h: HubView, peers: Seq<(Seq<u8>, u64)>) -> Seq<u64>
    decreases peers.len(),
{
    if peers.len() == 0 {
        Seq::empty()
    } else {
        let rest = closed_by(h, peers.drop_last());
        let before = disconnected_all(h, peers.drop_last());
        if before.peers.contains_key(peers.last().0) {
            rest.push(before.peers[peers.last().0].conn)
        } else {
            rest
        }
    }
}

/// Managed peers and the tasks to start.
#[verifier::ext_equal]
pub struct Managed {
    pub peers: Map<Seq<u8>, HandleView>,
    pub next_task: nat,
    pub started: Seq<StartView>,
}

/// Managed peers after one alive peer was taken in.
pub open spec fn manage(m: Managed, entry: (Seq<u8>, Seq<char>)) -> Managed {
    let (endpoint, name) = entry;
    if m.peers.contains_key(endpoint) {
        m
    } else {
        let task = m.next_task as u64;
        Managed {
            peers: m.peers.insert(
                endpoint,
                HandleView { name, state: PeerStateView::Connecting { failures: 0 }, task },
            ),
            next_task: m.next_task + 1,
            started: m.started.push(StartView { endpoint, name, task }),
        }
    }
}

/// Managed peers after alive peers were taken in, in order.
pub open spec fn manage_all(m: Managed, list: Seq<(Seq<u8>, Seq<char>)>) -> Managed
    decreases list.len(),
{
    if list.len() == 0 {
        m
    } else {
        manage(manage_all(m, list.drop_last()), list.last())
    }
}

/// The tasks a sync stops, by endpoint.
pub open spec fn stopped_by(s: PeerSetView, target: Map<Seq<u8>, Record>) -> Seq<(Seq<u8>, u64)> {
    sorted_map::kept(sorted_map::listing::<EndpointId, HandleView>(s.peers), dropping(target))
}

/// The peers a sync disconnects, with their tasks: those no longer alive.
pub open spec fn severed_by(s: PeerSetView, target: Map<Seq<u8>, Record>) -> Seq<(Seq<u8>, u64)> {
    sorted_map::kept(sorted_map::listing::<EndpointId, HandleView>(s.peers), severing(target))
}

/// Managed peers once aligned with the alive ones.
pub open spec fn synced(s: PeerSetView, target: Map<Seq<u8>, Record>) -> Managed {
    manage_all(
        Managed {
            peers: sorted_map::reworked(s.peers, keeping(target)),
            next_task: s.next_task,
            started: Seq::empty(),
        },
        crate::config::state::alive_listing(target),
    )
}

/// A connection as the control socket shows it.
pub open spec fn connection_of(
    state: PeerStateView,
    path: Option<PathInfoView>,
    now: u64,
) -> ConnectionView {
    match state {
        PeerStateView::Connecting { failures } => ConnectionView::Connecting { failures },
        PeerStateView::Connected { conn, since } => ConnectionView::Connected {
            path,
            since_secs: crate::daemon::repos::secs_between(since, now),
        },
        PeerStateView::Backoff { until, error } => ConnectionView::Backoff {
            retry_in_secs: crate::daemon::repos::secs_between(now, until),
            error,
        },
    }
}

/// The path known for a peer, if any.
pub open spec fn known_path(paths: Map<Seq<u8>, PathInfoView>, peer: Seq<u8>) -> Option<
    PathInfoView,
> {
    if paths.contains_key(peer) {
        Some(paths[peer])
    } else {
        None
    }
}

/// The name a managed peer goes by.
pub open spec fn name_of(peers: Map<Seq<u8>, HandleView>, peer: Seq<u8>) -> Option<Seq<char>> {
    if peers.contains_key(peer) {
        Some(peers[peer].name)
    } else {
        None
    }
}

/// How an accepted connection is answered.
#[derive(Clone, Copy, PartialEq, Eq, Structural, Debug)]
pub enum Admission {
    /// Handed to the peer's task.
    Deliver,
    /// Closed: the endpoint is not paired.
    Unauthorized,
    /// Closed: too many connections wait for the peer's task.
    Busy,
}

impl PeerSet {
    pub fn new() -> (set: Self)
        ensures
            set@ == (PeerSetView { peers: Map::empty(), next_task: 0 }),
    {
        PeerSet { peers: SortedMap::new(), next_task: 0 }
    }

    /// Managed peers are finitely many.
    pub proof fn lemma_finite(&self)
        ensures
            self@.peers.dom().finite(),
    {
        self.peers.lemma_finite();
    }

    /// How many tasks were started so far.
    pub fn tasks(&self) -> (tasks: u64)
        ensures
            tasks == self@.next_task,
    {
        self.next_task
    }

    /// Aligns the managed peers with the mesh state: new alive peers are taken
    /// in and removed ones dropped. A renamed peer is respawned under its new
    /// name, without losing its connection. A removed peer's task cannot clean
    /// up after itself once stopped, and revocation must not leave the peer
    /// receiving announcements, so the hub disconnects it here.
    pub fn sync(&mut self, hub: &mut SyncHub, state: &MeshState) -> (plan: PeerPlan)
        requires
            old(self)@.next_task + state@.peers.len() <= u64::MAX,
        ensures
            ({
                let after = synced(old(self)@, state@.peers);
                let gone = stopped_by(old(self)@, state@.peers);
                let severed = severed_by(old(self)@, state@.peers);
                &&& final(self)@ == PeerSetView {
                    peers: after.peers,
                    next_task: after.next_task,
                }
                &&& final(hub)@ == disconnected_all(old(hub)@, severed)
                &&& plan.stopped@ == gone.map_values(|s: (Seq<u8>, u64)| s.1)
                &&& plan.closed@ == closed_by(old(hub)@, severed)
                &&& plan.started@.map_values(|s: PeerStart| s@) == after.started
            }),
    {
        let (stopped, closed): (Vec<u64>, Vec<u64>) = self.drop_removed(hub, state);
        let ghost base = Managed {
            peers: self.peers@,
            next_task: self.next_task as nat,
            started: Seq::empty(),
        };
        let alive = state.alive_peers();
        let ghost list = crate::config::state::alive_listing(state@.peers);
        let ghost pair = |p: (EndpointId, String)| (p.0@, p.1@);
        let ghost shown = |s: PeerStart| s@;
        proof {
            state.peers.lemma_finite();
            lemma_alive_fewer(state@.peers);
        }
        let mut started: Vec<PeerStart> = Vec::new();
        let mut i: usize = 0;
        assert(started@.map_values(shown) =~= Seq::<StartView>::empty());
        while i < alive.len()
            invariant
                i <= alive@.len(),
                alive@.len() == list.len(),
                pair == (|p: (EndpointId, String)| (p.0@, p.1@)),
                list == alive@.map_values(pair),
                shown == (|s: PeerStart| s@),
                self.next_task + (alive@.len() - i) <= u64::MAX,
                manage_all(base, list.take(i as int)) == (Managed {
                    peers: self.peers@,
                    next_task: self.next_task as nat,
                    started: started@.map_values(shown),
                }),
            decreases alive@.len() - i,
        {
            let endpoint = alive[i].0;
            let ghost before = started@;
            assert(list.take(i + 1).drop_last() =~= list.take(i as int));
            assert(list.take(i + 1).last() == pair(alive@[i as int]));
            if !self.peers.contains_key(&endpoint) {
                self.peers.insert(
                    endpoint,
                    PeerHandle {
                        name: alive[i].1.clone(),
                        state: PeerState::Connecting { failures: 0 },
                        task: self.next_task,
                    },
                );
                started.push(
                    PeerStart { endpoint, name: alive[i].1.clone(), task: self.next_task },
                );
                assert(started@.map_values(shown) =~= before.map_values(shown).push(
                    started@.last()@,
                ));
                self.next_task = self.next_task + 1;
            }
            i = i + 1;
        }
        assert(list.take(i as int) =~= list);
        PeerPlan { stopped, closed, started }
    }

    /// Drops the peers no longer alive and the renamed ones, and disconnects the
    /// former.
    fn drop_removed(&mut self, hub: &mut SyncHub, state: &MeshState) -> (plan: (
        Vec<u64>,
        Vec<u64>,
    ))
        ensures
            final(self)@ == (PeerSetView {
                peers: sorted_map::reworked(old(self)@.peers, keeping(state@.peers)),
                ..old(self)@
            }),
            final(hub)@ == disconnected_all(old(hub)@, severed_by(old(self)@, state@.peers)),
            plan.0@ == stopped_by(old(self)@, state@.peers).map_values(|s: (Seq<u8>, u64)| s.1),
            plan.1@ == closed_by(old(hub)@, severed_by(old(self)@, state@.peers)),
    {
        let ghost peers = self.peers@;
        let ghost list = sorted_map::listing::<EndpointId, HandleView>(peers);
        let ghost keep = keeping(state@.peers);
        let ghost gone = dropping(state@.peers);
        let ghost cut = severing(state@.peers);
        let ghost second = |s: (Seq<u8>, u64)| s.1;
        let mut stopped: Vec<u64> = Vec::new();
        let mut closed: Vec<u64> = Vec::new();
        let mut left: SortedMap<EndpointId, PeerHandle> = SortedMap::new();
        let len: usize = self.peers.len();
        let mut i: usize = 0;
        proof {
            self.peers.lemma_finite();
        }
        assert(list.skip(0) =~= list);
        assert(stopped@ =~= sorted_map::kept(list.take(0), gone).map_values(second));
        while i < len
            invariant
                i <= len,
                len == list.len(),
                keep == keeping(state@.peers),
                gone == dropping(state@.peers),
                cut == severing(state@.peers),
                second == (|s: (Seq<u8>, u64)| s.1),
                sorted_map::listing::<EndpointId, HandleView>(self.peers@) == list.skip(i as int),
                left@ == sorted_map::map_of(sorted_map::kept(list.take(i as int), keep)),
                stopped@ == sorted_map::kept(list.take(i as int), gone).map_values(second),
                closed@ == closed_by(old(hub)@, sorted_map::kept(list.take(i as int), cut)),
                hub@ == disconnected_all(
                    old(hub)@,
                    sorted_map::kept(list.take(i as int), cut),
                ),
                self.next_task == old(self).next_task,
            decreases len - i,
        {
            let (endpoint, handle): (EndpointId, PeerHandle) = self.peers.take_first();
            assert((endpoint@, handle@) == list[i as int]);
            assert(list.skip(i as int).skip(1) =~= list.skip(i + 1));
            let ghost dropped = sorted_map::kept(list.take(i as int), gone);
            let ghost severed = sorted_map::kept(list.take(i as int), cut);
            proof {
                sorted_map::lemma_kept_step(list, i as int, keep);
                sorted_map::lemma_kept_step(list, i as int, gone);
                sorted_map::lemma_kept_step(list, i as int, cut);
            }
            let (alive, renamed): (bool, bool) = match state.peer_name(&endpoint) {
                Some(name) => (true, !same_text(name, handle.name.as_str())),
                None => (false, false),
            };
            if alive && !renamed {
                left.insert(endpoint, handle);
            } else {
                stopped.push(handle.task);
                proof {
                    let now_dropped = sorted_map::kept(list.take(i + 1), gone);
                    assert(now_dropped == dropped.push((endpoint@, handle@.task)));
                    assert(now_dropped.map_values(second) =~= dropped.map_values(second).push(
                        handle@.task,
                    ));
                }
                if !alive {
                    let conn = hub.peer_disconnected(&endpoint);
                    proof {
                        let now_severed = sorted_map::kept(list.take(i + 1), cut);
                        assert(now_severed == severed.push((endpoint@, handle@.task)));
                        assert(now_severed.drop_last() =~= severed);
                    }
                    if let Some(conn) = conn {
                        closed.push(conn);
                    }
                }
            }
            i = i + 1;
        }
        proof {
            assert(list.take(len as int) =~= list);
            sorted_map::lemma_kept::<EndpointId, HandleView, HandleView>(peers, keep);
        }
        self.peers = left;
        (stopped, closed)
    }

    /// The name a managed peer goes by.
    pub fn name_of(&self, endpoint: &EndpointId) -> (name: Option<&str>)
        ensures
            match name {
                Some(n) => self::name_of(self@.peers, endpoint@) == Some(n@),
                None => self::name_of(self@.peers, endpoint@) is None,
            },
    {
        match self.peers.get(endpoint) {
            Some(handle) => Some(handle.name.as_str()),
            None => None,
        }
    }

    /// Decides on an accepted connection, given how many already wait for the
    /// peer's task: endpoints that are not paired are refused.
    pub fn route_inbound(&self, endpoint: &EndpointId, waiting: usize) -> (admission: Admission)
        ensures
            admission == if !self@.peers.contains_key(endpoint@) {
                Admission::Unauthorized
            } else if waiting >= INBOUND_QUEUE {
                Admission::Busy
            } else {
                Admission::Deliver
            },
    {
        if !self.peers.contains_key(endpoint) {
            Admission::Unauthorized
        } else if waiting >= INBOUND_QUEUE {
            Admission::Busy
        } else {
            Admission::Deliver
        }
    }

    /// Records a task's state. A task that was stopped has no say anymore.
    pub fn set_state(&mut self, endpoint: &EndpointId, task: u64, state: PeerState)
        ensures
            final(self)@ == if old(self)@.peers.contains_key(endpoint@)
                && old(self)@.peers[endpoint@].task == task {
                PeerSetView {
                    peers: old(self)@.peers.insert(
                        endpoint@,
                        HandleView { state: state@, ..old(self)@.peers[endpoint@] },
                    ),
                    ..old(self)@
                }
            } else {
                old(self)@
            },
    {
        let live: bool = match self.peers.get(endpoint) {
            Some(handle) => handle.task == task,
            None => false,
        };
        if !live {
            return;
        }
        if let Some(handle) = self.peers.remove(endpoint) {
            self.peers.insert(
                *endpoint,
                PeerHandle { name: handle.name, state, task: handle.task },
            );
            assert(self@.peers =~= old(self)@.peers.insert(endpoint@, self@.peers[endpoint@]));
        }
    }

    /// Snapshots the state of every peer for the control socket, given the
    /// network paths their connections have selected.
    pub fn statuses(&self, paths: &SortedMap<EndpointId, PathInfo>, now: u64) -> (statuses: Vec<
        PeerStatus,
    >)
        ensures
            statuses@.map_values(|s: PeerStatus| s@) == sorted_map::listing::<
                EndpointId,
                HandleView,
            >(self@.peers).map_values(
                |e: (Seq<u8>, HandleView)|
                    PeerStatusView {
                        name: e.1.name,
                        endpoint: e.0,
                        connection: connection_of(e.1.state, known_path(paths@, e.0), now),
                    },
            ),
    {
        let ghost list = sorted_map::listing::<EndpointId, HandleView>(self.peers@);
        let ghost shown = |e: (Seq<u8>, HandleView)|
            PeerStatusView {
                name: e.1.name,
                endpoint: e.0,
                connection: connection_of(e.1.state, known_path(paths@, e.0), now),
            };
        let ghost view = |s: PeerStatus| s@;
        let mut statuses: Vec<PeerStatus> = Vec::new();
        let len: usize = self.peers.len();
        let mut i: usize = 0;
        assert(statuses@.map_values(view) =~= list.take(0).map_values(shown));
        while i < len
            invariant
                i <= len,
                len == list.len(),
                list == sorted_map::listing::<EndpointId, HandleView>(self.peers@),
                view == (|s: PeerStatus| s@),
                shown == (|e: (Seq<u8>, HandleView)|
                    PeerStatusView {
                        name: e.1.name,
                        endpoint: e.0,
                        connection: connection_of(e.1.state, known_path(paths@, e.0), now),
                    }),
                statuses@.map_values(view) == list.take(i as int).map_values(shown),
            decreases len - i,
        {
            let (endpoint, handle): (&EndpointId, &PeerHandle) = self.peers.entry_at(i);
            let ghost before = statuses@;
            let connection = match &handle.state {
                PeerState::Connecting { failures } => ConnectionStatus::Connecting {
                    failures: *failures,
                },
                PeerState::Connected { conn, since } => ConnectionStatus::Connected {
                    path: match paths.get(endpoint) {
                        Some(path) => Some(path.duplicate()),
                        None => None,
                    },
                    since_secs: whole_secs(*since, now),
                },
                PeerState::Backoff { until, error } => ConnectionStatus::Backoff {
                    retry_in_secs: whole_secs(now, *until),
                    error: error.clone(),
                },
            };
            statuses.push(
                PeerStatus { name: handle.name.clone(), endpoint: *endpoint, connection },
            );
            assert(statuses@.last()@ == shown(list[i as int]));
            assert(statuses@.map_values(view) =~= before.map_values(view).push(
                shown(list[i as int]),
            ));
            assert(list.take(i + 1).map_values(shown) =~= list.take(i as int).map_values(
                shown,
            ).push(shown(list[i as int])));
            i = i + 1;
        }
        assert(list.take(len as int) =~= list);
        statuses
    }
}

proof fn lemma_in_use_fewer<A>(list: Seq<(A, Record)>)
    ensures
        crate::config::state::in_use(list).len() <= list.len(),
    decreases list.len(),
{
    if list.len() > 0 {
        lemma_in_use_fewer(list.drop_last());
    }
}

proof fn lemma_alive_fewer(peers: Map<Seq<u8>, Record>)
    requires
        peers.dom().finite(),
    ensures
        crate::config::state::alive_listing(peers).len() <= peers.len(),
{
    lemma_in_use_fewer(sorted_map::listing::<EndpointId, Record>(peers));
    sorted_map::lemma_listing_len::<EndpointId, Record>(peers);
}

} // verus!
