//! What a request or a change comes to, from the control socket to the mesh.

use vstd::prelude::*;

use crate::config::state::MeshView;
use crate::config::state::error::Fault;
use crate::config::state::membership::{MAX_RECORD_VERSION, MembershipView};
use crate::config::state::repo::RepoView;
use crate::daemon::control::protocol::{RequestView, ResponseView};
use crate::daemon::control::server::WorkView;
use crate::daemon::store::{MutationView, OutcomeView, StoreView};

verus! {

/// A forget request unregisters the repo on this machine and leaves everything
/// that is gossiped as it is: the mesh keeps the repo, and the answer tells where
/// it lies. A repo that is not registered here cannot be forgotten.
pub proof fn forgetting_is_local(s: MeshView, name: Seq<char>, local: Seq<u8>)
    ensures
        crate::daemon::control::server::work_of(RequestView::ForgetRepo { name }) is Mutate,
        ({
            let m = crate::daemon::control::server::work_of(
                RequestView::ForgetRepo { name },
            )->mutation;
            let r = crate::daemon::store::mutated(s, m, local);
            &&& s.repos.contains_key(name) ==> {
                &&& r is Ok
                &&& r->Ok_0.0.mesh_repos == s.mesh_repos
                &&& r->Ok_0.0.peers == s.peers
                &&& r->Ok_0.0.machine == s.machine
                &&& !r->Ok_0.0.repos.contains_key(name)
                &&& forall|other: Seq<char>| #[trigger]
                    r->Ok_0.0.repos.contains_key(other) <==> s.repos.contains_key(other) && other
                        != name
                &&& crate::daemon::control::server::answer_of(r->Ok_0.1) == Some(
                    ResponseView::RepoForgotten { path: s.repos[name].path },
                )
            }
            &&& !s.repos.contains_key(name) ==> r is Err && r->Err_0 == (Fault::NotRegistered {
                name,
            })
        }),
{
}

/// A remove request retires the name on the whole mesh: its record becomes a
/// tombstone that outranks the one held, and the repo is unregistered here. The
/// answer tells whether it was registered.
pub proof fn removing_a_repo_retires_its_name(s: MeshView, name: Seq<char>, local: Seq<u8>)
    requires
        s.repos.contains_key(name) || (s.mesh_repos.contains_key(name)
            && s.mesh_repos[name].payload is Some),
        s.mesh_repos.contains_key(name) ==> s.mesh_repos[name].version < MAX_RECORD_VERSION,
    ensures
        crate::daemon::control::server::work_of(RequestView::RemoveRepo { name }) is Mutate,
        ({
            let m = crate::daemon::control::server::work_of(
                RequestView::RemoveRepo { name },
            )->mutation;
            let r = crate::daemon::store::mutated(s, m, local);
            &&& r is Ok
            &&& r->Ok_0.0.mesh_repos.contains_key(name)
            &&& r->Ok_0.0.mesh_repos[name].payload is None
            &&& s.mesh_repos.contains_key(name) ==> r->Ok_0.0.mesh_repos[name].version
                > s.mesh_repos[name].version
            &&& !r->Ok_0.0.repos.contains_key(name)
            &&& r->Ok_0.0.peers == s.peers
            &&& r->Ok_0.0.machine == s.machine
            &&& crate::daemon::control::server::answer_of(r->Ok_0.1) == Some(
                ResponseView::RepoRemoved { was_local: s.repos.contains_key(name) },
            )
        }),
{
}

/// A removal reaches every machine: one that merges the membership of the machine
/// that retired a name no longer has the name in use, nor registered, as long as
/// its own record is not past the tombstone.
pub proof fn removals_reach_the_others(
    s: MeshView,
    local: Seq<u8>,
    other: MeshView,
    other_local: Seq<u8>,
    name: Seq<char>,
)
    requires
        crate::config::state::laws::real_state(s),
        crate::config::state::laws::real_state(other),
        crate::config::name::valid_name(name),
        s.mesh_repos.contains_key(name),
        s.mesh_repos[name].payload is Some,
        s.mesh_repos[name].version + 1 < MAX_RECORD_VERSION,
        other.mesh_repos.contains_key(name),
        other.mesh_repos[name].version <= s.mesh_repos[name].version,
    ensures
        ({
            let removed = crate::daemon::store::mutated(
                s,
                MutationView::RemoveRepo { name },
                local,
            )->Ok_0.0;
            let told = crate::config::state::membership_of(removed, local);
            let after = crate::config::state::merged(other, told, other_local);
            &&& crate::config::state::mesh_id(after.mesh_repos, name) is None
            &&& !after.repos.contains_key(name)
        }),
{
    let removed = crate::daemon::store::mutated(
        s,
        MutationView::RemoveRepo { name },
        local,
    )->Ok_0.0;
    let told = crate::config::state::membership_of(removed, local);
    crate::config::state::membership::newer_versions_outrank(
        told.repos[name],
        other.mesh_repos[name],
    );
    crate::config::state::guarantees::better_repo_records_arrive(other, told, other_local, name);
}

/// A peer removed on one machine is removed on every machine that merges its
/// membership, as long as that machine's record is not past the tombstone.
pub proof fn revocations_reach_the_others(
    s: MeshView,
    local: Seq<u8>,
    selector: Seq<char>,
    other: MeshView,
    other_local: Seq<u8>,
)
    requires
        crate::config::state::laws::real_state(s),
        crate::config::state::laws::real_state(other),
        crate::config::state::remove_peer_fault(s, selector) is None,
        ({
            let peer = crate::config::state::resolved(s, selector)->Ok_0;
            &&& peer != other_local
            &&& peer != local
            &&& s.peers.contains_key(peer)
            &&& s.peers[peer].version + 1 < MAX_RECORD_VERSION
            &&& other.peers.contains_key(peer)
            &&& other.peers[peer].version <= s.peers[peer].version
        }),
    ensures
        ({
            let peer = crate::config::state::resolved(s, selector)->Ok_0;
            let removed = crate::daemon::store::mutated(
                s,
                MutationView::RemovePeer { peer: selector },
                local,
            )->Ok_0.0;
            let told = crate::config::state::membership_of(removed, local);
            crate::config::state::paired_as(
                crate::config::state::merged(other, told, other_local).peers,
                peer,
            ) is None
        }),
{
    let peer = crate::config::state::resolved(s, selector)->Ok_0;
    let removed = crate::daemon::store::mutated(
        s,
        MutationView::RemovePeer { peer: selector },
        local,
    )->Ok_0.0;
    let told = crate::config::state::membership_of(removed, local);
    crate::config::state::membership::newer_versions_outrank(told.peers[peer], other.peers[peer]);
    crate::config::state::guarantees::better_peer_records_arrive(other, told, other_local, peer);
}

/// Removing a peer makes its record a tombstone that outranks the one held, and
/// touches nothing else; the answer tells which peer it was.
pub proof fn removing_a_peer_revokes_it(s: MeshView, selector: Seq<char>, local: Seq<u8>)
    requires
        crate::config::state::remove_peer_fault(s, selector) is None,
    ensures
        crate::daemon::control::server::work_of(RequestView::RemovePeer { peer: selector })
            is Mutate,
        ({
            let m = crate::daemon::control::server::work_of(
                RequestView::RemovePeer { peer: selector },
            )->mutation;
            let r = crate::daemon::store::mutated(s, m, local);
            let peer = crate::config::state::resolved(s, selector)->Ok_0;
            &&& crate::config::state::resolved(s, selector) is Ok
            &&& r is Ok
            &&& r->Ok_0.0.peers.contains_key(peer)
            &&& r->Ok_0.0.peers[peer].payload is None
            &&& s.peers.contains_key(peer) ==> r->Ok_0.0.peers[peer].version
                > s.peers[peer].version
            &&& forall|other: Seq<u8>| #[trigger]
                s.peers.contains_key(other) && other != peer ==> r->Ok_0.0.peers.contains_key(other)
                    && r->Ok_0.0.peers[other] == s.peers[other]
            &&& r->Ok_0.0.repos == s.repos
            &&& r->Ok_0.0.mesh_repos == s.mesh_repos
            &&& r->Ok_0.0.machine == s.machine
            &&& crate::daemon::control::server::answer_of(r->Ok_0.1) == Some(
                ResponseView::PeerRemoved(peer),
            )
        }),
{
}

/// Renaming changes this machine's own record and nothing else: the new name, at
/// a version that outranks every copy of the old record. Its own name changes
/// nothing; a name that is not usable is refused.
pub proof fn renaming_changes_our_record(s: MeshView, name: Seq<char>, local: Seq<u8>)
    ensures
        crate::daemon::control::server::work_of(RequestView::RenameMachine { name }) is Mutate,
        ({
            let m = crate::daemon::control::server::work_of(
                RequestView::RenameMachine { name },
            )->mutation;
            let r = crate::daemon::store::mutated(s, m, local);
            &&& r is Ok <==> crate::config::name::valid_name(name) && (name == s.machine.name
                || s.machine.version + 1 < MAX_RECORD_VERSION)
            &&& r is Ok ==> {
                &&& r->Ok_0.0.machine.name == name
                &&& name == s.machine.name ==> r->Ok_0.0 == s
                &&& name != s.machine.name ==> r->Ok_0.0.machine.version == s.machine.version + 1
                &&& r->Ok_0.0.peers == s.peers
                &&& r->Ok_0.0.repos == s.repos
                &&& r->Ok_0.0.mesh_repos == s.mesh_repos
                &&& crate::daemon::control::server::answer_of(r->Ok_0.1) == Some(
                    ResponseView::MachineRenamed,
                )
            }
            &&& crate::config::name::name_fault(name) is Some ==> r->Err_0 == (Fault::Name {
                kind: "machine"@,
                fault: crate::config::name::name_fault(name)->Some_0,
            })
            &&& crate::config::name::valid_name(name) && r is Err ==> r->Err_0
                == (Fault::Corrupted { subject: "this machine"@, version: s.machine.version })
        }),
{
}

/// A completed pairing makes the peer alive under its name, at a version that
/// outranks what was held, and touches nothing else. A peer that is alive already
/// stays as it is. Either way the answer names it.
pub proof fn pairing_registers_the_peer(
    s: MeshView,
    endpoint: Seq<u8>,
    name: Seq<char>,
    local: Seq<u8>,
)
    requires
        crate::config::state::paired_as(s.peers, endpoint) is Some
            || crate::config::state::add_peer_fault(s, endpoint, name) is None,
    ensures
        ({
            let r = crate::daemon::store::mutated(
                s,
                MutationView::AddPairedPeer { endpoint, name },
                local,
            );
            &&& r is Ok
            &&& crate::config::state::paired_as(r->Ok_0.0.peers, endpoint) == if let Some(existing) =
                crate::config::state::paired_as(s.peers, endpoint) {
                Some(existing)
            } else {
                Some(name)
            }
            &&& s.peers.contains_key(endpoint) && s.peers[endpoint].payload is None
                ==> r->Ok_0.0.peers[endpoint].version > s.peers[endpoint].version
            &&& forall|other: Seq<u8>| #[trigger]
                s.peers.contains_key(other) && other != endpoint
                    ==> r->Ok_0.0.peers.contains_key(other) && r->Ok_0.0.peers[other]
                    == s.peers[other]
            &&& r->Ok_0.0.repos == s.repos
            &&& r->Ok_0.0.mesh_repos == s.mesh_repos
            &&& r->Ok_0.0.machine == s.machine
            &&& crate::daemon::control::server::answer_of(r->Ok_0.1) == Some(
                ResponseView::Paired { name, endpoint },
            )
        }),
{
}

/// Adding a repo registers it here and makes its name known to the mesh under its
/// id, at a version that outranks what was held; nothing else changes.
pub proof fn adding_a_repo_registers_it(
    s: MeshView,
    name: Seq<char>,
    repo: RepoView,
    local: Seq<u8>,
)
    requires
        crate::config::state::add_repo_fault(s, name, repo) is None,
    ensures
        ({
            let r = crate::daemon::store::mutated(s, MutationView::AddRepo { name, repo }, local);
            &&& r is Ok
            &&& r->Ok_0.0.repos.contains_key(name)
            &&& r->Ok_0.0.repos[name] == repo
            &&& forall|other: Seq<char>| #[trigger]
                s.repos.contains_key(other) && other != name ==> r->Ok_0.0.repos.contains_key(other)
                    && r->Ok_0.0.repos[other] == s.repos[other]
            &&& crate::config::state::mesh_id(r->Ok_0.0.mesh_repos, name) == Some(repo.id)
            &&& s.mesh_repos.contains_key(name) ==> r->Ok_0.0.mesh_repos[name].version
                > s.mesh_repos[name].version
            &&& forall|other: Seq<char>| #[trigger]
                s.mesh_repos.contains_key(other) && other != name
                    ==> r->Ok_0.0.mesh_repos.contains_key(other) && r->Ok_0.0.mesh_repos[other]
                    == s.mesh_repos[other]
            &&& r->Ok_0.0.peers == s.peers
            &&& r->Ok_0.0.machine == s.machine
            &&& crate::daemon::control::server::answer_of(r->Ok_0.1) == Some(
                ResponseView::RepoAdded,
            )
        }),
{
}

/// Nothing but the request for it does damage: of all requests only a removal of
/// a repo retires that repo's name, only a removal of a peer revokes that peer,
/// only a removal or a forgetting unregisters that repo, and only a rename
/// changes this machine's record. None brings a repo or a peer in.
pub proof fn requests_do_what_they_say(
    s: MeshView,
    request: RequestView,
    local: Seq<u8>,
    name: Seq<char>,
    peer: Seq<u8>,
)
    requires
        crate::daemon::control::server::work_of(request) is Mutate,
        crate::daemon::store::mutated(
            s,
            crate::daemon::control::server::work_of(request)->mutation,
            local,
        ) is Ok,
    ensures
        ({
            let after = crate::daemon::store::mutated(
                s,
                crate::daemon::control::server::work_of(request)->mutation,
                local,
            )->Ok_0.0;
            &&& after.mesh_repos.get(name) != s.mesh_repos.get(name) ==> request
                == (RequestView::RemoveRepo { name }) && crate::config::state::mesh_id(
                after.mesh_repos,
                name,
            ) is None
            &&& after.repos.get(name) != s.repos.get(name) ==> !after.repos.contains_key(name) && (
            request == (RequestView::RemoveRepo { name }) || request
                == (RequestView::ForgetRepo { name }))
            &&& after.peers.get(peer) != s.peers.get(peer) ==> request is RemovePeer
                && crate::config::state::resolved(s, request->peer) == Ok::<Seq<u8>, Fault>(peer)
                && crate::config::state::paired_as(after.peers, peer) is None
            &&& after.machine != s.machine ==> request == (RequestView::RenameMachine {
                name: after.machine.name,
            })
        }),
{
}

/// Every request becomes the work it asks for, with what it carries.
pub proof fn requests_become_their_work(request: RequestView)
    ensures
        match crate::daemon::control::server::work_of(request) {
            WorkView::Status => request is Status,
            WorkView::HostPairing => request is PairHost,
            WorkView::JoinPairing { ticket } => request == (RequestView::PairJoin { ticket }),
            WorkView::Clone { name, path } => request == (RequestView::CloneRepo { name, path }),
            WorkView::Discover { name, path } => request == (RequestView::AddRepo { name, path }),
            WorkView::Mutate { mutation } => request is RemoveRepo || request is RemovePeer
                || request is ForgetRepo || request is RenameMachine,
        },
{
}

/// Different outcomes are answered differently, and every one that someone waits
/// for is answered: only a merge of gossip is not.
pub proof fn outcomes_are_told_apart(a: OutcomeView, b: OutcomeView)
    ensures
        crate::daemon::control::server::answer_of(a) is None <==> a is Merged,
        crate::daemon::control::server::answer_of(a) == crate::daemon::control::server::answer_of(b)
            ==> a == b,
        crate::daemon::control::server::answer_of(a) is Some
            ==> !(crate::daemon::control::server::answer_of(a)->Some_0 is Error),
{
}

/// A change that alters what is gossiped is broadcast: every peer that stays
/// connected has the new membership queued, and later ones are told it. A change
/// that does not is silent.
pub proof fn changes_are_gossiped(s: StoreView, next: MeshView, peer: Seq<u8>)
    ensures
        ({
            let after = crate::daemon::store::committed(s, next);
            let aligned = crate::daemon::store::aligning(s, next);
            let told = crate::config::state::membership_of(next, s.local);
            &&& next.machine != s.state.machine || next.peers != s.state.peers || next.mesh_repos
                != s.state.mesh_repos ==> {
                &&& after.hub.membership == told
                &&& after.hub.peers.contains_key(peer) <==> aligned.hub.peers.contains_key(peer)
                &&& after.hub.peers.contains_key(peer)
                    ==> after.hub.peers[peer].outbox.membership == Some(told)
                    && after.hub.peers[peer].conn == aligned.hub.peers[peer].conn
                    && after.hub.peers[peer].outbox.announces
                    == aligned.hub.peers[peer].outbox.announces
            }
            &&& next.machine == s.state.machine && next.peers == s.state.peers && next.mesh_repos
                == s.state.mesh_repos ==> after.hub == aligned.hub
            &&& after.state == next
            &&& after.local == s.local
        }),
{
}

/// Gossip spreads through the machines between: what one merges and did not hold
/// before is in what it gossips on.
pub proof fn gossip_is_passed_on(
    s: MeshView,
    remote: MembershipView,
    local: Seq<u8>,
    name: Seq<char>,
)
    ensures
        ({
            let after = crate::config::state::merged(s, remote, local);
            let told = crate::config::state::membership_of(after, local);
            &&& after.mesh_repos.contains_key(name) ==> told.repos.contains_key(name)
                && told.repos[name] == after.mesh_repos[name]
            &&& after.mesh_repos != s.mesh_repos ==> !crate::daemon::store::same_gossip(s, after)
            &&& after.peers != s.peers ==> !crate::daemon::store::same_gossip(s, after)
            &&& after.machine != s.machine ==> !crate::daemon::store::same_gossip(s, after)
        }),
{
}

} // verus!
