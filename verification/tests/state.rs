//! The mesh state: pairing, repos, and merging what other machines gossip.

use jj_mesh::config::key::MachineKey;
use jj_mesh::config::name::{NameError, NameFault};
use jj_mesh::config::path::FsPath;
use jj_mesh::config::state::MeshState;
use jj_mesh::config::state::error::StateError;
use jj_mesh::config::state::machine::{Machine, short_hostname};
use jj_mesh::config::state::membership::{
    MAX_MESH_PEERS, MAX_MESH_REPOS, MAX_OTHER_PEERS, MAX_RECORD_VERSION, Membership, MeshRepo,
    MeshRepoStatus, Peer, PeerStatus, Register, next_version, should_adopt,
};
use jj_mesh::config::state::repo::{Repo, RepoId};
use jj_mesh::net::endpoint::EndpointId;
use jj_mesh::order::{Duplicate, Same};
use jj_mesh::sorted_map::SortedMap;

fn endpoint() -> EndpointId {
    MachineKey::generate().endpoint_id()
}

fn machine(name: &str, version: u64) -> Machine {
    Machine { name: name.to_owned(), version }
}

fn alive(version: u64, name: &str) -> Peer {
    Peer { version, status: PeerStatus::Alive { name: name.to_owned() } }
}

fn removed(version: u64) -> Peer {
    Peer { version, status: PeerStatus::Removed }
}

/// A mesh repo record in use.
fn present(version: u64, id: &RepoId) -> MeshRepo {
    MeshRepo { version, status: MeshRepoStatus::Present { id: id.duplicate() } }
}

fn about(peer: EndpointId, record: Peer) -> Membership {
    let mut peers = SortedMap::new();
    peers.insert(peer, record);
    Membership { peers, repos: SortedMap::new() }
}

fn about_repo(name: &str, record: MeshRepo) -> Membership {
    let mut repos = SortedMap::new();
    repos.insert(name.to_owned(), record);
    Membership { peers: SortedMap::new(), repos }
}

fn repo(id: &RepoId, path: &str) -> Repo {
    Repo { id: id.duplicate(), path: FsPath::new(path) }
}

fn ordered_ids() -> (RepoId, RepoId) {
    let (a, b) = (RepoId::generate(), RepoId::generate());
    if a < b { (a, b) } else { (b, a) }
}

fn check_repairing() {
    let mut state = MeshState::default();
    let endpoint = endpoint();

    state.add_peer(endpoint, "laptop".to_owned()).unwrap();
    state.remove_peer("laptop").unwrap();
    let tombstone_version = state.peers.get(&endpoint).unwrap().version;

    state.add_peer(endpoint, "laptop".to_owned()).unwrap();
    assert_eq!(state.peer_name(&endpoint), Some("laptop"));
    assert!(state.peers.get(&endpoint).unwrap().version > tombstone_version);
}

#[test]
fn state_repairing_supersedes_the_tombstone() {
    check_repairing();
}

#[test]
fn mod_repairing_supersedes_the_tombstone() {
    check_repairing();
}

fn check_ambiguous_removal() {
    let mut state = MeshState::default();
    let (a, b) = (endpoint(), endpoint());

    // Duplicate names are allowed: machines are keyed by endpoint.
    state.add_peer(a, "laptop".to_owned()).unwrap();
    state.add_peer(b, "laptop".to_owned()).unwrap();

    assert!(state.remove_peer("laptop").is_err());
    assert_eq!(state.remove_peer(&a.to_text()).unwrap(), a);
    assert_eq!(state.remove_peer("laptop").unwrap(), b);
}

#[test]
fn state_removal_resolves_ambiguous_names_by_endpoint() {
    check_ambiguous_removal();
}

#[test]
fn mod_removal_resolves_ambiguous_names_by_endpoint() {
    check_ambiguous_removal();
}

fn check_versioned_merge() -> (MeshState, EndpointId) {
    let local = endpoint();
    let peer = endpoint();

    let mut state = MeshState::default();
    state.merge_membership(&about(peer, alive(2, "laptop")), &local);
    assert_eq!(state.peer_name(&peer), Some("laptop"));

    // A lower version never downgrades the record...
    state.merge_membership(&about(peer, alive(1, "aaa")), &local);
    assert_eq!(state.peer_name(&peer), Some("laptop"));

    // ...an equal version only wins with a smaller name, so every
    // machine settles on the same one...
    state.merge_membership(&about(peer, alive(2, "zzz")), &local);
    assert_eq!(state.peer_name(&peer), Some("laptop"));
    state.merge_membership(&about(peer, alive(2, "aaa")), &local);
    assert_eq!(state.peer_name(&peer), Some("aaa"));

    // ...re-merging the same membership changes nothing, which is what
    // stops the gossip from echoing forever...
    let before = state.duplicate();
    state.merge_membership(&about(peer, alive(2, "aaa")), &local);
    assert!(state.same(&before));

    // ...a removal at the same version wins the tie...
    state.merge_membership(&about(peer, removed(2)), &local);
    assert_eq!(state.peer_name(&peer), None);

    // ...and a higher version supersedes the tombstone (re-pairing).
    state.merge_membership(&about(peer, alive(3, "laptop")), &local);
    assert_eq!(state.peer_name(&peer), Some("laptop"));
    (state, local)
}

#[test]
fn state_merge_is_versioned_with_removed_winning_ties() {
    let (mut state, local) = check_versioned_merge();

    // Records about ourselves are ignored.
    state.merge_membership(&about(local, removed(9)), &local);
    assert!(!state.peers.contains_key(&local));
}

#[test]
fn mod_merge_is_versioned_with_removed_winning_ties() {
    check_versioned_merge();
}

#[test]
fn own_record_keeps_its_name_and_outranks_copies() {
    let local = endpoint();

    let mut state = MeshState::default();
    state.rename_machine("desk".to_owned()).unwrap();
    assert_eq!(state.machine.version, 1);
    assert_eq!(state.membership(local).peers.get(&local), Some(&alive(1, "desk")));

    // A copy under our name is only matched...
    state.merge_membership(&about(local, alive(3, "desk")), &local);
    assert_eq!(state.machine, machine("desk", 3));

    // ...one under another name is outranked, so ours wins the merge
    // everywhere...
    state.merge_membership(&about(local, alive(5, "stale")), &local);
    assert_eq!(state.machine, machine("desk", 6));
    assert!(alive(6, "desk").outranks(&alive(5, "stale")));

    // ...and a tombstone is matched, not outranked: the removed machine
    // cannot undo its removal.
    let gone = removed(8);
    state.merge_membership(&about(local, gone.duplicate()), &local);
    assert_eq!(state.machine, machine("desk", 8));
    assert!(!state.membership(local).peers.get(&local).unwrap().outranks(&gone));

    // Records about ourselves never land in the peer map.
    assert!(!state.peers.contains_key(&local));

    // A copy parked next to the version ceiling is clamped: what we
    // gossip stays below it (records at the ceiling are skipped by
    // every merge), and the parked record is reported on rename
    // instead of freezing us silently.
    state.merge_membership(&about(local, alive(MAX_RECORD_VERSION - 1, "pwned")), &local);
    assert_eq!(state.machine.version, MAX_RECORD_VERSION - 1);
    assert!(state.membership(local).peers.get(&local).unwrap().version < MAX_RECORD_VERSION);
    assert!(state.rename_machine("frozen".to_owned()).is_err());
}

#[test]
fn rename_validates_and_bumps_once_per_change() {
    let mut state = MeshState::default();
    assert!(state.rename_machine(String::new()).is_err());
    assert!(state.rename_machine("a\u{200B}b".to_owned()).is_err());

    state.rename_machine("desk".to_owned()).unwrap();
    state.rename_machine("desk".to_owned()).unwrap();
    assert_eq!(state.machine, machine("desk", 1));
}

#[test]
fn mod_merge_bounds_the_state_it_adopts() {
    let local = endpoint();
    let mut state = MeshState::default();

    // A peer cannot grow our state past the caps: beyond them, new
    // entries are dropped rather than making our own membership
    // ungossipable (it would exceed the wire limit).
    for _ in 0..3 {
        let mut peers = SortedMap::new();
        for _ in 0..MAX_MESH_PEERS {
            peers.insert(endpoint(), alive(1, "flood"));
        }
        let mut repos = SortedMap::new();
        for n in 0..MAX_MESH_REPOS {
            repos.insert(
                format!("repo{n}-{:?}", RepoId::generate().as_str()),
                present(1, &RepoId::generate()),
            );
        }
        state.merge_membership(&Membership { peers, repos }, &local);
    }

    assert_eq!(state.peers.len(), MAX_OTHER_PEERS);
    assert_eq!(state.mesh_repos.len(), MAX_MESH_REPOS);
    // With our own record added, the membership stays within the wire
    // cap.
    assert_eq!(state.membership(local).peers.len(), MAX_MESH_PEERS);
}

fn check_frozen_versions() {
    let local = endpoint();
    let peer = endpoint();

    // A record parked at an unreachable version could never be
    // superseded, locking the machine out of the mesh for good. The
    // ceiling itself must be refused too: a record *at* it leaves the
    // local bump no headroom.
    for version in [u64::MAX, MAX_RECORD_VERSION] {
        let mut state = MeshState::default();
        state.merge_membership(&about(peer, removed(version)), &local);
        assert!(state.peers.is_empty(), "version {version} must be refused");

        // Pairing therefore still works.
        state.add_peer(peer, "laptop".to_owned()).unwrap();
        assert_eq!(state.peer_name(&peer), Some("laptop"));
        // And so does removing it again.
        state.remove_peer("laptop").unwrap();
    }
}

#[test]
fn state_merge_rejects_versions_that_would_freeze_a_record() {
    check_frozen_versions();
}

#[test]
fn mod_merge_rejects_versions_that_would_freeze_a_record() {
    check_frozen_versions();
}

fn check_id_disagreement() {
    let local = endpoint();
    let (low, high) = ordered_ids();

    // Both machines must settle on the same id whichever they held
    // first, or their "available repos" and add/clone guards disagree
    // forever.
    let mut holding_low = MeshState::default();
    holding_low.mesh_repos.insert("a".to_owned(), present(1, &low));
    holding_low.merge_membership(&about_repo("a", present(1, &high)), &local);

    let mut holding_high = MeshState::default();
    holding_high.mesh_repos.insert("a".to_owned(), present(1, &high));
    holding_high.merge_membership(&about_repo("a", present(1, &low)), &local);

    assert_eq!(holding_low.mesh_repo_id("a"), Some(&low));
    assert_eq!(holding_high.mesh_repo_id("a"), Some(&low));
}

#[test]
fn state_mesh_repo_id_disagreements_converge() {
    check_id_disagreement();
}

#[test]
fn mod_mesh_repo_id_disagreements_converge() {
    check_id_disagreement();
}

fn check_growing_repos() {
    let local = endpoint();
    let (ours, theirs) = ordered_ids();

    let mut state = MeshState::default();
    state.mesh_repos.insert("a".to_owned(), present(1, &ours));
    let mut remote = about_repo("a", present(1, &theirs));
    remote.repos.insert("b".to_owned(), present(1, &RepoId::generate()));
    remote.repos.insert("bad\u{202E}name".to_owned(), present(1, &RepoId::generate()));
    state.merge_membership(&remote, &local);

    assert_eq!(state.mesh_repo_id("a"), Some(&ours));
    assert!(state.mesh_repos.contains_key(&"b".to_owned()));
    assert_eq!(state.mesh_repos.len(), 2);
}

#[test]
fn state_merge_grows_mesh_repos_and_keeps_ours_on_conflict() {
    check_growing_repos();
}

#[test]
fn mod_merge_grows_mesh_repos_and_keeps_ours_on_conflict() {
    check_growing_repos();
}

#[test]
fn adding_a_repo_known_to_the_mesh_requires_cloning() {
    let mut state = MeshState::default();
    state.mesh_repos.insert("proj".to_owned(), present(1, &RepoId::generate()));

    let err = state.add_repo("proj".to_owned(), repo(&RepoId::generate(), "/p")).unwrap_err();
    assert!(err.message().contains("clone"), "{}", err.message());
}

fn check_retiring() {
    let mut state = MeshState::default();

    let first = RepoId::generate();
    state.add_repo("proj".to_owned(), repo(&first, "/p")).unwrap();
    assert!(state.remove_repo("proj").unwrap(), "it was registered here");

    // The name is retired, not deleted: it stays as a tombstone so a
    // machine that missed the removal cannot resurrect it.
    assert!(state.repos.is_empty());
    assert_eq!(state.mesh_repo_id("proj"), None);
    assert_eq!(state.mesh_repo_names().len(), 0);
    assert!(state.mesh_repos.contains_key(&"proj".to_owned()));
    assert!(state.remove_repo("proj").is_err());
    assert!(state.remove_repo("nope").is_err());

    // And the name can be reused, superseding the tombstone.
    let second = RepoId::generate();
    state.add_repo("proj".to_owned(), repo(&second, "/p")).unwrap();
    assert_eq!(state.mesh_repo_id("proj"), Some(&second));
    assert!(state.mesh_repos.get(&"proj".to_owned()).unwrap().version > 2);
}

#[test]
fn forgetting_a_repo_tombstones_it_and_frees_the_name() {
    check_retiring();
}

#[test]
fn removing_a_repo_tombstones_it_and_frees_the_name() {
    check_retiring();
}

#[test]
fn forgetting_locally_keeps_the_mesh_record() {
    let mut state = MeshState::default();
    let id = RepoId::generate();
    state.add_repo("proj".to_owned(), repo(&id, "/p")).unwrap();

    let forgotten = state.forget_repo("proj").unwrap();
    assert_eq!(forgotten.path, FsPath::new("/p"));
    assert!(state.repos.is_empty());
    assert!(state.forget_repo("proj").is_err());

    // The mesh still knows the repo: it stays clonable here, and only
    // a clone (bringing the mesh id) can register it again; a plain
    // re-add generates a fresh id and would fork the name.
    assert_eq!(state.mesh_repo_id("proj"), Some(&id));
    assert_eq!(state.mesh_repo_names().len(), 1);
    let err = state
        .add_repo("proj".to_owned(), Repo { id: RepoId::generate(), path: forgotten.path })
        .unwrap_err();
    assert!(err.message().contains("clone"), "{}", err.message());
}

fn check_gossiped_tombstone() {
    let local = endpoint();
    let id = RepoId::generate();

    let mut state = MeshState::default();
    state.add_repo("proj".to_owned(), repo(&id, "/p")).unwrap();

    // Another machine removed the repo: we stop syncing it, and a stale
    // announcement of the old record cannot bring it back.
    let version = state.mesh_repos.get(&"proj".to_owned()).unwrap().version + 1;
    let gone = MeshRepo { version, status: MeshRepoStatus::Removed };
    state.merge_membership(&about_repo("proj", gone), &local);
    assert!(state.repos.is_empty());
    assert_eq!(state.mesh_repo_id("proj"), None);

    state.merge_membership(&about_repo("proj", present(1, &id)), &local);
    assert_eq!(state.mesh_repo_id("proj"), None);
}

#[test]
fn state_a_gossiped_tombstone_unregisters_the_repo() {
    check_gossiped_tombstone();
}

#[test]
fn mod_a_gossiped_tombstone_unregisters_the_repo() {
    check_gossiped_tombstone();
}

fn check_duplicate_ids() {
    let mut state = MeshState::default();
    let id = RepoId::generate();

    state.add_repo("a".to_owned(), repo(&id, "/a")).unwrap();
    assert!(state.add_repo("b".to_owned(), repo(&id, "/b")).is_err());
}

#[test]
fn state_duplicate_repo_ids_are_rejected() {
    check_duplicate_ids();
}

#[test]
fn mod_duplicate_repo_ids_are_rejected() {
    check_duplicate_ids();
}

fn check_paired_twice() {
    let mut state = MeshState::default();
    let endpoint = endpoint();

    state.add_peer(endpoint, "laptop".to_owned()).unwrap();
    assert!(state.add_peer(endpoint, "desktop".to_owned()).is_err());
}

#[test]
fn state_alive_endpoints_cannot_be_paired_twice() {
    check_paired_twice();
}

#[test]
fn mod_alive_endpoints_cannot_be_paired_twice() {
    check_paired_twice();
}

/// Registering the same directory under another spelling is rejected, whether or
/// not it resolves.
#[test]
fn duplicate_paths_are_rejected() {
    let mut state = MeshState::default();
    state.add_repo("a".to_owned(), repo(&RepoId::generate(), "/tmp/repo")).unwrap();

    let err = state.validate_new_repo("b", &FsPath::new("/tmp/repo")).unwrap_err();
    assert_eq!(err.message(), "/tmp/repo is already added as `a`");
    assert!(state.validate_new_repo("b", &FsPath::new("/tmp/other")).is_ok());

    for spelling in ["/tmp/repo/", "//tmp/repo", "/tmp/./repo", "/tmp//repo/."] {
        let err = state.validate_new_repo("b", &FsPath::new(spelling)).unwrap_err();
        assert_eq!(err.message(), format!("{spelling} is already added as `a`"));
        let added = state.add_repo("b".to_owned(), repo(&RepoId::generate(), spelling));
        assert_eq!(
            added.unwrap_err(),
            StateError::PathAdded { path: FsPath::new(spelling), name: "a".to_owned() },
        );
    }
    assert_eq!(state.repos.len(), 1);
    state.add_repo("b".to_owned(), repo(&RepoId::generate(), "/tmp/repo/..")).unwrap();
}

#[test]
fn errors_say_what_stands_in_the_way() {
    let mut state = MeshState::default();
    let peer = endpoint();
    let id = RepoId::generate();
    state.add_peer(peer, "laptop".to_owned()).unwrap();
    state.add_repo("proj".to_owned(), repo(&id, "/p")).unwrap();

    assert_eq!(
        state.add_peer(peer, "desk".to_owned()).unwrap_err(),
        StateError::AlreadyPaired { endpoint: peer, name: "laptop".to_owned() },
    );
    assert_eq!(
        state.add_peer(endpoint(), String::new()).unwrap_err(),
        StateError::Name(NameError { kind: "peer".to_owned(), fault: NameFault::Empty }),
    );
    assert_eq!(
        state.add_peer(endpoint(), "x".repeat(65)).unwrap_err().message(),
        "peer name is longer than 64 bytes",
    );
    assert_eq!(
        state.remove_peer("desk").unwrap_err(),
        StateError::NoPeer { selector: "desk".to_owned() },
    );
    let stranger = endpoint();
    assert_eq!(
        state.remove_peer(&stranger.to_text()).unwrap_err(),
        StateError::NotPaired { endpoint: stranger },
    );
    state.add_peer(stranger, "laptop".to_owned()).unwrap();
    assert_eq!(
        state.remove_peer("laptop").unwrap_err().message(),
        "several peers are named `laptop`; use the endpoint id (see `jj-mesh status`)",
    );
    assert_eq!(
        state.add_repo("proj".to_owned(), repo(&RepoId::generate(), "/q")).unwrap_err(),
        StateError::RepoExists { name: "proj".to_owned() },
    );
    assert_eq!(
        state.add_repo("other".to_owned(), repo(&id, "/q")).unwrap_err(),
        StateError::RepoRegistered { id: id.duplicate(), name: "proj".to_owned() },
    );
    assert_eq!(
        state.remove_repo("nope").unwrap_err(),
        StateError::NoMeshRepo { name: "nope".to_owned() },
    );
    assert_eq!(
        state.forget_repo("nope").unwrap_err(),
        StateError::NotRegistered { name: "nope".to_owned() },
    );
    state.remove_repo("proj").unwrap();
    assert_eq!(
        state.remove_repo("proj").unwrap_err().message(),
        "repo `proj` is already removed",
    );
}

#[test]
fn full_meshes_refuse_new_machines_and_repos() {
    let mut state = MeshState::default();
    for n in 0..MAX_OTHER_PEERS {
        let mut bytes = [0u8; 32];
        bytes[0] = (n % 256) as u8;
        bytes[1] = (n / 256) as u8;
        state.peers.insert(EndpointId::from_bytes(bytes), removed(1));
    }
    assert_eq!(
        state.add_peer(endpoint(), "late".to_owned()).unwrap_err().message(),
        "the mesh already has 256 machines",
    );
    // A machine the mesh knows can still come back.
    state.add_peer(EndpointId::from_bytes([0u8; 32]), "back".to_owned()).unwrap();

    for n in 0..MAX_MESH_REPOS {
        state.mesh_repos.insert(format!("r{n}"), present(1, &RepoId::generate()));
    }
    assert_eq!(
        state.add_repo("late".to_owned(), repo(&RepoId::generate(), "/l")).unwrap_err(),
        StateError::MeshReposFull,
    );
}

#[test]
fn records_at_the_ceiling_are_reported_as_corrupted() {
    let mut state = MeshState::default();
    let peer = endpoint();
    state.peers.insert(peer, alive(MAX_RECORD_VERSION, "laptop"));
    assert_eq!(
        state.remove_peer("laptop").unwrap_err().message(),
        format!(
            "the mesh record of `{}` is corrupted (version 4294967296); remove it from mesh.json on every machine",
            peer.to_text(),
        ),
    );
    assert_eq!(next_version(3), Ok(4));
    assert_eq!(next_version(MAX_RECORD_VERSION - 1), Err(MAX_RECORD_VERSION - 1));
}

#[test]
fn exchanged_memberships_converge_on_values() {
    let (at, bt) = (endpoint(), endpoint());
    let (x, y) = (endpoint(), endpoint());
    let mut a = MeshState::default();
    a.rename_machine("a".to_owned()).unwrap();
    let mut b = MeshState::default();
    b.rename_machine("b".to_owned()).unwrap();
    a.add_peer(x, "x".to_owned()).unwrap();
    a.remove_peer("x").unwrap();
    b.add_peer(x, "x".to_owned()).unwrap();
    b.add_peer(y, "y".to_owned()).unwrap();

    let (from_a, from_b) = (a.membership(at), b.membership(bt));
    a.merge_membership(&from_b, &at);
    b.merge_membership(&from_a, &bt);

    assert_eq!(a.peer_name(&x), None);
    assert_eq!(b.peer_name(&x), None);
    assert_eq!(a.peer_name(&y), Some("y"));
    assert!(a.membership(at).same(&b.membership(bt)));

    // What comes back changes nothing.
    let before = a.duplicate();
    let own = a.membership(at);
    a.merge_membership(&own, &at);
    assert!(a.same(&before));
    assert!(!a.membership_differs(&before));
}

#[test]
fn adoption_follows_rank_and_room() {
    let peer = endpoint();
    let mut peers = SortedMap::new();
    peers.insert(peer, alive(2, "m"));
    assert!(should_adopt(&peers, &peer, &alive(3, "z"), 1));
    assert!(!should_adopt(&peers, &peer, &alive(1, "a"), 1));
    assert!(should_adopt(&peers, &peer, &removed(2), 1));
    assert!(!should_adopt(&peers, &endpoint(), &alive(9, "n"), 1));
    assert!(should_adopt(&peers, &endpoint(), &alive(9, "n"), 2));
}

#[test]
fn machines_are_named_after_their_host() {
    assert_eq!(short_hostname("desk.local".to_owned()), "desk");
    assert_eq!(short_hostname("desk".to_owned()), "desk");
    // The default name is a usable one.
    let mut state = MeshState::default();
    let name = state.machine.name.clone();
    assert!(!name.is_empty());
    state.rename_machine(name).unwrap();
    assert_eq!(state.machine.version, 0);
}

#[test]
fn known_records_are_updated_at_the_caps() {
    let local = endpoint();
    let (held, gone) = (endpoint(), endpoint());
    let mut state = MeshState::default();
    state.peers.insert(held, alive(1, "laptop"));
    state.peers.insert(gone, alive(1, "desk"));
    while state.peers.len() < MAX_OTHER_PEERS {
        state.peers.insert(endpoint(), removed(1));
    }
    let id = RepoId::generate();
    state.add_repo("proj".to_owned(), repo(&id, "/p")).unwrap();
    let mut n = 0;
    while state.mesh_repos.len() < MAX_MESH_REPOS {
        state.mesh_repos.insert(format!("r{n}"), present(1, &RepoId::generate()));
        n += 1;
    }

    let mut peers = SortedMap::new();
    peers.insert(held, alive(2, "notebook"));
    peers.insert(gone, removed(1));
    peers.insert(endpoint(), alive(9, "late"));
    let mut repos = SortedMap::new();
    repos.insert("proj".to_owned(), MeshRepo { version: 1, status: MeshRepoStatus::Removed });
    repos.insert("late".to_owned(), present(9, &RepoId::generate()));
    state.merge_membership(&Membership { peers, repos }, &local);

    assert_eq!(state.peer_name(&held), Some("notebook"));
    assert_eq!(state.peer_name(&gone), None);
    assert_eq!(state.peers.len(), MAX_OTHER_PEERS);
    assert!(state.mesh_repos.get(&"proj".to_owned()).unwrap().id().is_none());
    assert!(state.repos.is_empty());
    assert_eq!(state.mesh_repos.len(), MAX_MESH_REPOS);
}

#[test]
fn meshes_of_the_largest_size_converge() {
    // Both know each other and every third machine: the mesh is full.
    let (at, bt) = (endpoint(), endpoint());
    let mut a = MeshState::default();
    a.rename_machine("a".to_owned()).unwrap();
    let mut b = MeshState::default();
    b.rename_machine("b".to_owned()).unwrap();
    a.add_peer(bt, "b".to_owned()).unwrap();
    b.add_peer(at, "a".to_owned()).unwrap();
    let mut third = endpoint();
    while a.peers.len() < MAX_OTHER_PEERS {
        third = endpoint();
        a.peers.insert(third, alive(1, "third"));
        if b.peers.len() < 100 {
            b.peers.insert(third, removed(1));
        }
    }
    b.peers.insert(third, alive(2, "renamed"));

    let (from_a, from_b) = (a.membership(at), b.membership(bt));
    assert_eq!(from_a.peers.len(), MAX_MESH_PEERS);
    a.merge_membership(&from_b, &at);
    b.merge_membership(&from_a, &bt);

    assert_eq!(a.peer_name(&third), Some("renamed"));
    assert_eq!(b.peers.len(), MAX_OTHER_PEERS);
    assert!(a.membership(at).same(&b.membership(bt)));
}

#[test]
fn memberships_may_arrive_in_any_order() {
    let local = endpoint();
    let (x, y) = (endpoint(), endpoint());
    let (low, high) = ordered_ids();
    let mut first = about(x, alive(2, "x"));
    first.repos.insert("proj".to_owned(), present(1, &low));
    let mut second = about(x, removed(2));
    second.peers.insert(y, alive(1, "y"));
    second.repos.insert("proj".to_owned(), present(1, &high));

    let mut one = MeshState::default();
    one.merge_membership(&first, &local);
    one.merge_membership(&second, &local);
    let mut other = MeshState::default();
    other.merge_membership(&second, &local);
    other.merge_membership(&first, &local);

    assert!(one.same(&other));
    assert_eq!(one.peer_name(&x), None);
    assert_eq!(one.peer_name(&y), Some("y"));
}

#[test]
fn repo_ids_are_the_hex_of_their_bytes() {
    let mut bytes = [0u8; 16];
    bytes[0] = 0xab;
    bytes[15] = 0x01;
    let id = RepoId::from_bytes(bytes);
    assert_eq!(id.as_str(), "ab000000000000000000000000000001");
    assert_eq!(RepoId::try_from("ab000000000000000000000000000001".to_owned()), Ok(id));
    bytes[15] = 0x02;
    assert_ne!(RepoId::from_bytes(bytes).as_str(), "ab000000000000000000000000000001");
}

#[test]
fn merges_bring_in_only_what_was_offered() {
    let local = endpoint();
    let (held, offered) = (endpoint(), endpoint());
    let mut state = MeshState::default();
    state.add_peer(held, "held".to_owned()).unwrap();

    let mut remote = about(offered, alive(1, "offered"));
    remote.peers.insert(local, alive(1, "us"));
    remote.peers.insert(endpoint(), alive(1, ""));
    state.merge_membership(&remote, &local);

    assert_eq!(state.peers.len(), 2);
    assert_eq!(state.peer_name(&held), Some("held"));
    assert_eq!(state.peer_name(&offered), Some("offered"));
}
