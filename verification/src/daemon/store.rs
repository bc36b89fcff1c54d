//! Owner of the daemon's authoritative mesh state.
//!
//! Every mutation, whether driven by the control socket or by membership
//! gossip, goes through here in two steps. [`MeshStore::prepare`] applies it to
//! a copy of the state; once that copy is saved, [`MeshStore::commit`] adopts
//! it, aligns the live peer and repo sets, and broadcasts the membership when it
//! changed. Owning the sets and the hub is what makes that guarantee structural
//! rather than a convention on callers.

use vstd::prelude::*;

use crate::config::path::FsPath;
use crate::config::state::error::{Fault, StateError};
use crate::config::state::machine::MachineView;
use crate::config::state::membership::{MAX_RECORD_VERSION, Membership, MembershipView};
use crate::config::state::repo::{Repo, RepoView};
use crate::config::state::{MeshState, MeshView};
use crate::daemon::hub::{HubView, Routed, SyncHub};
use crate::daemon::peers::{PeerPlan, PeerSet, PeerSetView};
use crate::daemon::repos::{RepoSet, RepoSetView, RepoStart};
use crate::net::endpoint::EndpointId;
use crate::net::sync::{MessageView, UniMessage};
use crate::order::{Duplicate, Same};

verus! {

/// A change to the mesh state.
pub enum Mutation {
    /// Merge a peer's membership.
    MergeMembership { remote: Membership },
    /// Register a paired peer; nothing when its endpoint is already alive.
    AddPairedPeer { endpoint: EndpointId, name: String },
    AddRepo { name: String, repo: Repo },
    RemoveRepo { name: String },
    RemovePeer { peer: String },
    ForgetRepo { name: String },
    RenameMachine { name: String },
}

/// A change by content.
pub enum MutationView {
    MergeMembership { remote: MembershipView },
    AddPairedPeer { endpoint: Seq<u8>, name: Seq<char> },
    AddRepo { name: Seq<char>, repo: RepoView },
    RemoveRepo { name: Seq<char> },
    RemovePeer { peer: Seq<char> },
    ForgetRepo { name: Seq<char> },
    RenameMachine { name: Seq<char> },
}

impl View for Mutation {
    type V = MutationView;

    open spec fn view(&self) -> MutationView {
        match self {
            Mutation::MergeMembership { remote } => MutationView::MergeMembership {
                remote: remote@,
            },
            Mutation::AddPairedPeer { endpoint, name } => MutationView::AddPairedPeer {
                endpoint: endpoint@,
                name: name@,
            },
            Mutation::AddRepo { name, repo } => MutationView::AddRepo { name: name@, repo: repo@ },
            Mutation::RemoveRepo { name } => MutationView::RemoveRepo { name: name@ },
            Mutation::RemovePeer { peer } => MutationView::RemovePeer { peer: peer@ },
            Mutation::ForgetRepo { name } => MutationView::ForgetRepo { name: name@ },
            Mutation::RenameMachine { name } => MutationView::RenameMachine { name: name@ },
        }
    }
}

/// What a change answers.
#[derive(PartialEq, Eq, Debug)]
pub enum Outcome {
    /// A membership was merged.
    Merged,
    Paired { name: String, endpoint: EndpointId },
    RepoAdded,
    /// Whether the repo was registered on this machine.
    RepoRemoved { was_local: bool },
    PeerRemoved { endpoint: EndpointId },
    /// Where the forgotten repo is.
    RepoForgotten { path: FsPath },
    MachineRenamed,
}

/// What a change answers, by content.
pub enum OutcomeView {
    Merged,
    Paired { name: Seq<char>, endpoint: Seq<u8> },
    RepoAdded,
    RepoRemoved { was_local: bool },
    PeerRemoved { endpoint: Seq<u8> },
    RepoForgotten { path: Seq<u8> },
    MachineRenamed,
}

impl View for Outcome {
    type V = OutcomeView;

    open spec fn view(&self) -> OutcomeView {
        match self {
            Outcome::Merged => OutcomeView::Merged,
            Outcome::Paired { name, endpoint } => OutcomeView::Paired {
                name: name@,
                endpoint: endpoint@,
            },
            Outcome::RepoAdded => OutcomeView::RepoAdded,
            Outcome::RepoRemoved { was_local } => OutcomeView::RepoRemoved {
                was_local: *was_local,
            },
            Outcome::PeerRemoved { endpoint } => OutcomeView::PeerRemoved { endpoint: endpoint@ },
            Outcome::RepoForgotten { path } => OutcomeView::RepoForgotten { path: path@ },
            Outcome::MachineRenamed => OutcomeView::MachineRenamed,
        }
    }
}

/// A state after this machine was renamed. Its own name changes nothing.
pub open spec fn renamed(s: MeshView, name: Seq<char>) -> Result<MeshView, Fault> {
    match crate::config::name::name_fault(name) {
        Some(fault) => Err(Fault::Name { kind: "machine"@, fault }),
        None => if name == s.machine.name {
            Ok(s)
        } else if s.machine.version + 1 >= MAX_RECORD_VERSION {
            Err(Fault::Corrupted { subject: "this machine"@, version: s.machine.version })
        } else {
            Ok(
                MeshView {
                    machine: MachineView { name, version: s.machine.version + 1 },
                    ..s
                },
            )
        },
    }
}

/// A state after a change, and what the change answers.
pub open spec fn mutated(s: MeshView, m: MutationView, local: Seq<u8>) -> Result<
    (MeshView, OutcomeView),
    Fault,
> {
    match m {
        MutationView::MergeMembership { remote } => Ok(
            (crate::config::state::merged(s, remote, local), OutcomeView::Merged),
        ),
        MutationView::AddPairedPeer { endpoint, name } => if crate::config::state::paired_as(
            s.peers,
            endpoint,
        ) is Some {
            Ok((s, OutcomeView::Paired { name, endpoint }))
        } else {
            match crate::config::state::add_peer_fault(s, endpoint, name) {
                Some(fault) => Err(fault),
                None => Ok(
                    (
                        MeshView {
                            peers: crate::config::state::rewritten(s.peers, endpoint, Some(name)),
                            ..s
                        },
                        OutcomeView::Paired { name, endpoint },
                    ),
                ),
            }
        },
        MutationView::AddRepo { name, repo } => match crate::config::state::add_repo_fault(
            s,
            name,
            repo,
        ) {
            Some(fault) => Err(fault),
            None => Ok(
                (
                    MeshView {
                        mesh_repos: crate::config::state::rewritten(
                            s.mesh_repos,
                            name,
                            Some(repo.id),
                        ),
                        repos: s.repos.insert(name, repo),
                        ..s
                    },
                    OutcomeView::RepoAdded,
                ),
            ),
        },
        MutationView::RemoveRepo { name } => match crate::config::state::remove_repo_fault(
            s,
            name,
        ) {
            Some(fault) => Err(fault),
            None => Ok(
                (
                    MeshView {
                        mesh_repos: crate::config::state::rewritten(s.mesh_repos, name, None),
                        repos: s.repos.remove(name),
                        ..s
                    },
                    OutcomeView::RepoRemoved { was_local: s.repos.contains_key(name) },
                ),
            ),
        },
        MutationView::RemovePeer { peer } => match crate::config::state::remove_peer_fault(
            s,
            peer,
        ) {
            Some(fault) => Err(fault),
            None => {
                let endpoint = crate::config::state::resolved(s, peer)->Ok_0;
                Ok(
                    (
                        MeshView {
                            peers: crate::config::state::rewritten(s.peers, endpoint, None),
                            ..s
                        },
                        OutcomeView::PeerRemoved { endpoint },
                    ),
                )
            },
        },
        MutationView::ForgetRepo { name } => if s.repos.contains_key(name) {
            Ok(
                (
                    MeshView { repos: s.repos.remove(name), ..s },
                    OutcomeView::RepoForgotten { path: s.repos[name].path },
                ),
            )
        } else {
            Err(Fault::NotRegistered { name })
        },
        MutationView::RenameMachine { name } => match renamed(s, name) {
            Ok(after) => Ok((after, OutcomeView::MachineRenamed)),
            Err(fault) => Err(fault),
        },
    }
}

/// Applies a change to a state.
pub fn apply(state: &mut MeshState, mutation: Mutation, local: &EndpointId) -> (r: Result<
    Outcome,
    StateError,
>)
    ensures
        match r {
            Ok(outcome) => mutated(old(state)@, mutation@, local@) == Ok::<
                (MeshView, OutcomeView),
                Fault,
            >((final(state)@, outcome@)),
            Err(e) => mutated(old(state)@, mutation@, local@) == Err::<
                (MeshView, OutcomeView),
                Fault,
            >(e@) && final(state)@ == old(state)@,
        },
{
    match mutation {
        Mutation::MergeMembership { remote } => {
            state.merge_membership(&remote, local);
            Ok(Outcome::Merged)
        },
        Mutation::AddPairedPeer { endpoint, name } => {
            if state.peer_name(&endpoint).is_some() {
                return Ok(Outcome::Paired { name, endpoint });
            }
            match state.add_peer(endpoint, name.clone()) {
                Ok(()) => Ok(Outcome::Paired { name, endpoint }),
                Err(e) => Err(e),
            }
        },
        Mutation::AddRepo { name, repo } => match state.add_repo(name, repo) {
            Ok(()) => Ok(Outcome::RepoAdded),
            Err(e) => Err(e),
        },
        Mutation::RemoveRepo { name } => match state.remove_repo(name.as_str()) {
            Ok(was_local) => Ok(Outcome::RepoRemoved { was_local }),
            Err(e) => Err(e),
        },
        Mutation::RemovePeer { peer } => match state.remove_peer(peer.as_str()) {
            Ok(endpoint) => Ok(Outcome::PeerRemoved { endpoint }),
            Err(e) => Err(e),
        },
        Mutation::ForgetRepo { name } => match state.forget_repo(name.as_str()) {
            Ok(repo) => Ok(Outcome::RepoForgotten { path: repo.path }),
            Err(e) => Err(e),
        },
        Mutation::RenameMachine { name } => match state.rename_machine(name) {
            Ok(()) => Ok(Outcome::MachineRenamed),
            Err(e) => Err(e),
        },
    }
}

/// A change ready to be saved and committed.
pub struct Prepared {
    pub outcome: Outcome,
    /// The state to save, none when the change leaves it as it is.
    pub next: Option<MeshState>,
}

/// What became of a peer's message.
pub enum Received {
    /// An announcement was routed.
    Announced { routed: Routed },
    /// A report was taken in.
    Reported,
    /// The mesh state is to change.
    Change { mutation: Mutation },
}

/// The hub after a peer reported its health: only connected peers' reports are
/// kept.
pub open spec fn reported(
    h: HubView,
    peer: Seq<u8>,
    report: crate::net::sync::StatusReportView,
) -> HubView {
    if h.peers.contains_key(peer) {
        HubView {
            reports: h.reports.insert(peer, crate::daemon::hub::shown_report(report)),
            ..h
        }
    } else {
        h
    }
}

/// The tasks and connections a commit stops and starts.
pub struct Plan {
    pub peers: PeerPlan,
    pub stopped_repos: Vec<u64>,
    pub started_repos: Vec<RepoStart>,
}

/// The mesh state and everything a change to it must reach.
pub struct MeshStore {
    /// This machine's endpoint, under which its own record is gossiped.
    pub local: EndpointId,
    pub state: MeshState,
    pub peers: PeerSet,
    pub repos: RepoSet,
    pub hub: SyncHub,
}

/// A store by content.
#[verifier::ext_equal]
pub struct StoreView {
    pub local: Seq<u8>,
    pub state: MeshView,
    pub peers: PeerSetView,
    pub repos: RepoSetView,
    pub hub: HubView,
}

impl View for MeshStore {
    type V = StoreView;

    open spec fn view(&self) -> StoreView {
        StoreView {
            local: self.local@,
            state: self.state@,
            peers: self.peers@,
            repos: self.repos@,
            hub: self.hub@,
        }
    }
}

/// Whether announcements and tasks can still be numbered when a state is
/// adopted.
pub open spec fn has_room(s: StoreView, next: MeshView) -> bool {
    &&& s.hub.announce_seq + s.repos.repos.len() <= u64::MAX
    &&& s.repos.next_task + next.repos.len() <= u64::MAX
    &&& s.peers.next_task + next.peers.len() <= u64::MAX
}

/// The hub with a membership published.
pub open spec fn gossiping(h: HubView, membership: MembershipView) -> HubView {
    HubView {
        peers: crate::daemon::hub::broadcasted(h.peers, MessageView::Membership(membership)),
        membership,
        ..h
    }
}

/// The sets and the hub once aligned with a state.
pub open spec fn aligning(s: StoreView, next: MeshView) -> StoreView {
    let peers = crate::daemon::peers::synced(s.peers, next.peers);
    let severed = crate::daemon::peers::disconnected_all(
        s.hub,
        crate::daemon::peers::severed_by(s.peers, next.peers),
    );
    let repos = crate::daemon::repos::synced(s.repos, severed, next.repos);
    StoreView {
        local: s.local,
        state: next,
        peers: PeerSetView { peers: peers.peers, next_task: peers.next_task },
        repos: RepoSetView { repos: repos.repos, next_task: repos.next_task },
        hub: repos.hub,
    }
}

/// Whether two states gossip the same.
pub open spec fn same_gossip(a: MeshView, b: MeshView) -> bool {
    a.machine == b.machine && a.peers == b.peers && a.mesh_repos == b.mesh_repos
}

/// The store once a state is adopted.
pub open spec fn committed(s: StoreView, next: MeshView) -> StoreView {
    let after = aligning(s, next);
    if same_gossip(s.state, next) {
        after
    } else {
        StoreView {
            hub: gossiping(
                after.hub,
                crate::config::state::membership_of(next, s.local),
            ),
            ..after
        }
    }
}

/// The store before it adopted its first state.
pub open spec fn unstarted(local: Seq<u8>, state: MeshView) -> StoreView {
    StoreView {
        local,
        state,
        peers: PeerSetView { peers: Map::empty(), next_task: 0 },
        repos: RepoSetView { repos: Map::empty(), next_task: 0 },
        hub: gossiping(
            crate::daemon::hub::empty_hub(),
            crate::config::state::membership_of(state, local),
        ),
    }
}

/// What a commit stops and starts.
pub open spec fn planned(s: StoreView, next: MeshView, plan: Plan) -> bool {
    let gone_peers = crate::daemon::peers::stopped_by(s.peers, next.peers);
    let cut_peers = crate::daemon::peers::severed_by(s.peers, next.peers);
    let severed = crate::daemon::peers::disconnected_all(s.hub, cut_peers);
    let gone_repos = crate::daemon::repos::stopped_by(s.repos, next.repos);
    &&& plan.peers.stopped@ == gone_peers.map_values(|g: (Seq<u8>, u64)| g.1)
    &&& plan.peers.closed@ == crate::daemon::peers::closed_by(s.hub, cut_peers)
    &&& plan.peers.started@.map_values(|p: crate::daemon::peers::PeerStart| p@)
        == crate::daemon::peers::synced(s.peers, next.peers).started
    &&& plan.stopped_repos@ == gone_repos.map_values(|g: (Seq<char>, u64)| g.1)
    &&& plan.started_repos@.map_values(|r: RepoStart| r@) == crate::daemon::repos::synced(
        s.repos,
        severed,
        next.repos,
    ).started
}

/// Whether a result is a change prepared for a store: the change's answer and
/// the state it leads to, none when that is the state the store is in; or why
/// the change is refused.
pub open spec fn prepares(
    s: StoreView,
    m: MutationView,
    r: Result<Prepared, StateError>,
) -> bool {
    match (mutated(s.state, m, s.local), r) {
        (Err(fault), Err(e)) => e@ == fault,
        (Ok((after, outcome)), Ok(prepared)) => {
            &&& prepared.outcome@ == outcome
            &&& match prepared.next {
                Some(next) => next@ == after && after != s.state,
                None => after == s.state,
            }
        },
        _ => false,
    }
}

impl MeshStore {
    /// Adopts the loaded state: seeds the membership the hub gossips, then
    /// aligns the peer and repo sets with it. Publishing first means a peer task
    /// cannot connect and replay an empty membership.
    pub fn new(local: EndpointId, state: MeshState) -> (r: (Self, Plan))
        ensures
            r.0@ == aligning(unstarted(local@, state@), state@),
            planned(unstarted(local@, state@), state@, r.1),
    {
        let mut hub = SyncHub::new();
        hub.publish_membership(state.membership(local));
        // A map's length fits a machine word, so every task gets a number.
        let _peers: usize = state.peers.len();
        let _repos: usize = state.repos.len();
        let mut store = MeshStore {
            local,
            state,
            peers: PeerSet::new(),
            repos: RepoSet::new(),
            hub,
        };
        assert(store@ == unstarted(local@, state@));
        let plan = store.align();
        (store, plan)
    }

    /// Aligns the sets with the adopted state.
    fn align(&mut self) -> (plan: Plan)
        requires
            has_room(old(self)@, old(self)@.state),
        ensures
            final(self)@ == aligning(old(self)@, old(self)@.state),
            planned(old(self)@, old(self)@.state, plan),
    {
        let peers = self.peers.sync(&mut self.hub, &self.state);
        proof {
            crate::daemon::peers::laws::lemma_disconnected_all(
                old(self)@.hub,
                crate::daemon::peers::severed_by(old(self)@.peers, old(self)@.state.peers),
                Seq::empty(),
            );
        }
        let (stopped_repos, started_repos): (Vec<u64>, Vec<RepoStart>) = self.repos.sync(
            &mut self.hub,
            &self.state,
        );
        Plan { peers, stopped_repos, started_repos }
    }

    /// A copy of the current state.
    pub fn snapshot(&self) -> (state: MeshState)
        ensures
            state@ == self@.state,
    {
        self.state.duplicate()
    }

    /// Whether announcements and tasks can still be numbered when `next` is
    /// adopted.
    pub fn room(&self, next: &MeshState) -> (r: bool)
        ensures
            r == has_room(self@, next@),
    {
        u64::MAX - self.hub.announced() >= self.repos.len() as u64 && u64::MAX
            - self.repos.tasks() >= next.repos.len() as u64 && u64::MAX - self.peers.tasks()
            >= next.peers.len() as u64
    }

    /// Re-publishes the membership unchanged. Gossip has no acknowledgements and
    /// a membership is only sent when it changes, so a snapshot dropped under
    /// load (a shed stream, a full queue, a failed save) would otherwise be lost
    /// until the next unrelated change: this is the anti-entropy that heals it.
    pub fn republish_membership(&mut self)
        ensures
            final(self)@ == (StoreView {
                hub: gossiping(
                    old(self)@.hub,
                    crate::config::state::membership_of(old(self)@.state, old(self)@.local),
                ),
                ..old(self)@
            }),
    {
        let membership = self.state.membership(self.local);
        self.hub.publish_membership(membership);
    }

    /// Takes in a peer's message: announcements and reports go to the hub, a
    /// membership is a change to prepare.
    pub fn receive(&mut self, peer: EndpointId, message: UniMessage) -> (received: Received)
        ensures
            match (message@, received) {
                (MessageView::Announce(a), Received::Announced { routed }) => {
                    &&& routed == crate::daemon::hub::routing(old(self)@.hub, peer@, a)
                    &&& final(self)@ == StoreView {
                        hub: crate::daemon::hub::routed(old(self)@.hub, peer@, a),
                        ..old(self)@
                    }
                },
                (MessageView::Status(report), Received::Reported) => final(self)@
                    == StoreView { hub: reported(old(self)@.hub, peer@, report), ..old(self)@ },
                (MessageView::Membership(remote), Received::Change { mutation }) => {
                    &&& mutation@ == MutationView::MergeMembership { remote }
                    &&& final(self)@ == old(self)@
                },
                _ => false,
            },
    {
        match message {
            UniMessage::Announce(announce) => Received::Announced {
                routed: self.hub.route(peer, announce),
            },
            UniMessage::Status(report) => {
                self.hub.route_status(peer, report);
                Received::Reported
            },
            UniMessage::Membership(remote) => Received::Change {
                mutation: Mutation::MergeMembership { remote },
            },
        }
    }

    /// Applies a change to a copy of the state. The store itself is left as it
    /// is, and a change that changes nothing has nothing to save, which is what
    /// stops gossip from echoing forever.
    pub fn prepare(&self, mutation: Mutation) -> (r: Result<Prepared, StateError>)
        ensures
            prepares(self@, mutation@, r),
    {
        let mut next = self.state.duplicate();
        match apply(&mut next, mutation, &self.local) {
            Err(e) => Err(e),
            Ok(outcome) => if next.same(&self.state) {
                Ok(Prepared { outcome, next: None })
            } else {
                Ok(Prepared { outcome, next: Some(next) })
            },
        }
    }

    /// Prepares the merge of a peer's membership; a merge that changes anything
    /// is saved and re-broadcast, which carries membership across machines that
    /// are not directly exchanging, while one that changes nothing is silent,
    /// which stops the echo.
    pub fn merge_membership(&self, remote: Membership) -> (r: Result<Prepared, StateError>)
        ensures
            r is Ok,
            prepares(self@, MutationView::MergeMembership { remote: remote@ }, r),
    {
        self.prepare(Mutation::MergeMembership { remote })
    }

    /// Prepares the registration of a paired peer; a no-op when the endpoint is
    /// already alive (idempotent re-pair).
    pub fn add_paired_peer(&self, endpoint: EndpointId, name: String) -> (r: Result<
        Prepared,
        StateError,
    >)
        ensures
            prepares(
                self@,
                MutationView::AddPairedPeer { endpoint: endpoint@, name: name@ },
                r,
            ),
    {
        self.prepare(Mutation::AddPairedPeer { endpoint, name })
    }

    /// Adopts a prepared state once it is saved: aligns the peer and repo sets
    /// with it and broadcasts the membership if it changed.
    pub fn commit(&mut self, next: MeshState) -> (plan: Plan)
        requires
            has_room(old(self)@, next@),
        ensures
            final(self)@ == committed(old(self)@, next@),
            planned(old(self)@, next@, plan),
    {
        let membership_changed: bool = next.membership_differs(&self.state);
        self.state = next;
        let ghost adopted = self@;
        let plan = self.align();
        assert(aligning(adopted, next@) == aligning(old(self)@, next@));
        if membership_changed {
            let membership = self.state.membership(self.local);
            self.hub.publish_membership(membership);
        }
        plan
    }
}

/// What every store keeps: managed peers and repos that are exactly those of
/// the state, a hub that knows exactly those repos, is connected to alive peers
/// only, and gossips the state's membership.
pub open spec fn in_step(s: StoreView) -> bool {
    &&& s.peers.peers.dom().finite()
    &&& s.repos.repos.dom().finite()
    &&& crate::daemon::peers::laws::aligned(s.peers.peers, s.state.peers)
    &&& crate::daemon::repos::laws::aligned(s.repos.repos, s.state.repos)
    &&& crate::daemon::repos::laws::mirrored(s.hub, s.repos.repos)
    &&& forall|peer: Seq<u8>| #[trigger]
        s.hub.peers.contains_key(peer) ==> s.peers.peers.contains_key(peer)
    &&& s.hub.membership == crate::config::state::membership_of(s.state, s.local)
}

proof fn lemma_aligning(s: StoreView, next: MeshView)
    requires
        s.peers.peers.dom().finite(),
        s.repos.repos.dom().finite(),
        next.peers.dom().finite(),
        next.repos.dom().finite(),
        crate::daemon::repos::laws::mirrored(s.hub, s.repos.repos),
        forall|peer: Seq<u8>| #[trigger]
            s.hub.peers.contains_key(peer) ==> s.peers.peers.contains_key(peer),
    ensures
        ({
            let after = aligning(s, next);
            &&& after.peers.peers.dom().finite()
            &&& after.repos.repos.dom().finite()
            &&& crate::daemon::peers::laws::aligned(after.peers.peers, next.peers)
            &&& crate::daemon::repos::laws::aligned(after.repos.repos, next.repos)
            &&& crate::daemon::repos::laws::mirrored(after.hub, after.repos.repos)
            &&& forall|peer: Seq<u8>| #[trigger]
                after.hub.peers.contains_key(peer) ==> after.peers.peers.contains_key(peer)
            &&& after.hub.membership == s.hub.membership
        }),
{
    let after = aligning(s, next);
    let severed = crate::daemon::peers::disconnected_all(
        s.hub,
        crate::daemon::peers::severed_by(s.peers, next.peers),
    );
    crate::daemon::peers::laws::syncing_aligns(s.peers, next.peers);
    crate::daemon::peers::laws::removed_peers_are_severed(s.peers, next.peers, s.hub);
    assert forall|name: Seq<char>| #[trigger] severed.repos.contains_key(
        name,
    ) <==> s.repos.repos.contains_key(name) by {
        assert(severed.repos.dom().contains(name) <==> s.hub.repos.dom().contains(name));
        assert(s.hub.repos.contains_key(name) <==> s.repos.repos.contains_key(name));
    }
    assert forall|name: Seq<char>| #[trigger] severed.repos.contains_key(
        name,
    ) implies severed.repos[name].id == s.repos.repos[name].id by {
        assert(severed.repos.dom().contains(name));
        assert(s.hub.repos.contains_key(name));
    }
    crate::daemon::repos::laws::syncing_aligns(s.repos, severed, next.repos);
    assert(after.repos.repos.dom() =~= next.repos.dom());
    assert forall|peer: Seq<u8>| #[trigger] after.hub.peers.contains_key(
        peer,
    ) implies after.peers.peers.contains_key(peer) by {
        assert(after.hub.peers.dom().contains(peer));
        assert(severed.peers.contains_key(peer));
    }
    assert(after.peers.peers.dom().subset_of(next.peers.dom())) by {
        assert forall|peer: Seq<u8>| #[trigger] after.peers.peers.dom().contains(
            peer,
        ) implies next.peers.dom().contains(peer) by {
            assert(after.peers.peers.contains_key(peer));
        }
    }
    vstd::set_lib::lemma_set_subset_finite(next.peers.dom(), after.peers.peers.dom());
}

/// A store starts in step with its state.
pub proof fn starting_is_in_step(local: Seq<u8>, state: MeshView)
    requires
        state.peers.dom().finite(),
        state.repos.dom().finite(),
    ensures
        in_step(aligning(unstarted(local, state), state)),
{
    let s = unstarted(local, state);
    assert(s.hub.peers =~= Map::empty());
    lemma_aligning(s, state);
}

/// A commit keeps the store in step: whatever the change, the live sets and the
/// gossip follow the state.
pub proof fn committing_keeps_in_step(s: StoreView, next: MeshView)
    requires
        in_step(s),
        next.peers.dom().finite(),
        next.repos.dom().finite(),
    ensures
        in_step(committed(s, next)),
        committed(s, next).state == next,
{
    lemma_aligning(s, next);
    let after = aligning(s, next);
    let end = committed(s, next);
    if !same_gossip(s.state, next) {
        assert(end.hub.peers.dom() =~= after.hub.peers.dom());
        assert forall|peer: Seq<u8>| #[trigger] end.hub.peers.contains_key(
            peer,
        ) implies end.peers.peers.contains_key(peer) by {
            assert(after.hub.peers.dom().contains(peer));
            assert(after.hub.peers.contains_key(peer));
        }
    }
}

/// Removing a peer cuts it off at once: once committed, the peer is no longer
/// managed, nor is the hub connected to it.
pub proof fn removed_peers_are_cut_off(s: StoreView, selector: Seq<char>)
    requires
        in_step(s),
        s.state.peers.dom().finite(),
        s.state.repos.dom().finite(),
        crate::config::state::remove_peer_fault(s.state, selector) is None,
    ensures
        ({
            let endpoint = crate::config::state::resolved(s.state, selector)->Ok_0;
            let next = mutated(
                s.state,
                MutationView::RemovePeer { peer: selector },
                s.local,
            )->Ok_0.0;
            let after = committed(s, next);
            &&& !after.peers.peers.contains_key(endpoint)
            &&& !after.hub.peers.contains_key(endpoint)
        }),
{
    let endpoint = crate::config::state::resolved(s.state, selector)->Ok_0;
    let next = mutated(s.state, MutationView::RemovePeer { peer: selector }, s.local)->Ok_0.0;
    committing_keeps_in_step(s, next);
    let after = committed(s, next);
    assert(crate::config::state::paired_as(next.peers, endpoint) is None);
    assert(!after.peers.peers.contains_key(endpoint));
}

/// Merging a membership a second time changes nothing, so a peer's echo of what
/// was adopted from it is not saved, nor broadcast again.
pub proof fn echoes_are_silent(s: MeshView, remote: MembershipView, local: Seq<u8>)
    requires
        crate::config::state::laws::real_state(s),
        crate::config::state::laws::real_membership(remote),
    ensures
        ({
            let merge = MutationView::MergeMembership { remote };
            let once = mutated(s, merge, local)->Ok_0.0;
            mutated(once, merge, local) == Ok::<(MeshView, OutcomeView), Fault>(
                (once, OutcomeView::Merged),
            )
        }),
{
    crate::config::state::laws::merging_twice_is_merging_once(s, remote, local);
}

/// Pairing again with an alive peer changes nothing.
pub proof fn pairing_again_changes_nothing(
    s: MeshView,
    endpoint: Seq<u8>,
    name: Seq<char>,
    local: Seq<u8>,
)
    requires
        crate::config::state::paired_as(s.peers, endpoint) is Some,
    ensures
        mutated(s, MutationView::AddPairedPeer { endpoint, name }, local) == Ok::<
            (MeshView, OutcomeView),
            Fault,
        >((s, OutcomeView::Paired { name, endpoint })),
{
}

/// No change moves a registered repo or trades its id: it stays as it is until
/// it is unregistered.
pub proof fn mutations_leave_repos_in_place(
    s: MeshView,
    m: MutationView,
    local: Seq<u8>,
    name: Seq<char>,
)
    requires
        mutated(s, m, local) is Ok,
        s.repos.contains_key(name),
        mutated(s, m, local)->Ok_0.0.repos.contains_key(name),
    ensures
        mutated(s, m, local)->Ok_0.0.repos[name] == s.repos[name],
{
    if let MutationView::MergeMembership { remote } = m {
        crate::config::state::laws::merging_registers_and_moves_nothing(s, remote, local, name);
    }
}

/// No change registers two repos with one id or at one path.
pub proof fn mutations_keep_repos_distinct(s: MeshView, m: MutationView, local: Seq<u8>)
    requires
        s.repos.dom().finite(),
        crate::config::state::laws::distinct_repos(s.repos),
        mutated(s, m, local) is Ok,
    ensures
        crate::config::state::laws::distinct_repos(mutated(s, m, local)->Ok_0.0.repos),
{
    match m {
        MutationView::MergeMembership { remote } => {
            crate::config::state::laws::merging_keeps_repos_distinct(s, remote, local);
        },
        MutationView::AddRepo { name, repo } => {
            crate::config::state::laws::adding_keeps_repos_distinct(s, name, repo);
        },
        _ => {},
    }
}

} // verus!
