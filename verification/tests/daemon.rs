//! The daemon: tasks, the store, pairing and the control socket.

use jj_mesh::config::key::MachineKey;
use jj_mesh::config::path::FsPath;
use jj_mesh::config::settings::Settings;
use jj_mesh::config::state::MeshState;
use jj_mesh::config::state::error::StateError;
use jj_mesh::config::state::repo::{Repo, RepoId};
use jj_mesh::daemon::accept::{Handler, Protocols};
use jj_mesh::daemon::backoff::Backoff;
use jj_mesh::daemon::control::client::{DaemonNotRunning, Frame, check_build, read_frame};
use jj_mesh::daemon::control::clone::{PullFailure, check_clone, unpicked};
use jj_mesh::daemon::control::protocol::{
    CloneProgress, ConnectionStatus, PAIR_TICKET_TTL, PathInfo, Request, Response, Route,
    TransferPhase, TransferProgress, WatchStatus,
};
use jj_mesh::daemon::control::server::{
    Joined, Joining, Work, answer, handle, pair_join, refuse, register, status,
};
use jj_mesh::daemon::health::Reporter;
use jj_mesh::daemon::hub::SyncHub;
use jj_mesh::daemon::hub::inbox::PeerAnnounce;
use jj_mesh::daemon::pairing::{Attempt, Exchange, MAX_EXCHANGES, Pairing, Settled};
use jj_mesh::daemon::peers::task::{
    BACKOFF_MAX, Inbound, MAX_ANNOUNCE_STREAMS, PeerTask, STABLE_UPTIME,
};
use jj_mesh::daemon::peers::{Admission, INBOUND_QUEUE, PeerSet, PeerState};
use jj_mesh::daemon::repos::snapshot::Snapshotting;
use jj_mesh::daemon::repos::task::{
    Drained, FETCH_RETRY, Handled, RepoRunner, RepoTask, Screened, Step, Wake, missing_heads,
    screen_announce, sorted_heads, truncated_error, waiting_state,
};
use jj_mesh::daemon::repos::{RepoSet, RepoState};
use jj_mesh::daemon::store::{MeshStore, Mutation, Outcome, Received};
use jj_mesh::net::endpoint::EndpointId;
use jj_mesh::net::sync::{Announce, RepoHealth, RepoHealthState, StatusReport, UniMessage};
use jj_mesh::order::{Duplicate, Same};
use jj_mesh::sorted_map::SortedMap;

fn endpoint() -> EndpointId {
    MachineKey::generate().endpoint_id()
}

fn id_of(byte: u8) -> EndpointId {
    EndpointId::from_bytes([byte; 32])
}

fn repo(path: &str) -> Repo {
    Repo { id: RepoId::generate(), path: FsPath::new(path) }
}

fn store(state: MeshState) -> MeshStore {
    MeshStore::new(endpoint(), state).0
}

/// Prepares and commits a change, the way the daemon does once it is saved.
fn update(store: &mut MeshStore, mutation: Mutation) -> Result<Outcome, StateError> {
    let prepared = store.prepare(mutation)?;
    if let Some(next) = prepared.next {
        assert!(store.room(&next));
        store.commit(next);
    }
    Ok(prepared.outcome)
}

#[test]
fn backoffs_double_up_to_the_ceiling() {
    let mut backoff = Backoff::new(100, 5000);
    let delays: Vec<u64> = (0..8).map(|_| backoff.next_delay()).collect();
    assert_eq!(delays, vec![100, 200, 400, 800, 1600, 3200, 5000, 5000]);
    backoff.reset();
    assert_eq!(backoff.next_delay(), 100);
}

#[test]
fn snapshots_are_armed_once_and_spaced() {
    let mut snap = Snapshotting::default();
    snap.arm(None, 0);
    assert_eq!(snap.deadline, None);
    snap.arm(Some(1000), 500);
    assert_eq!(snap.deadline, Some(1500));
    snap.arm(Some(1000), 900);
    assert_eq!(snap.deadline, Some(1500));
    // A snapshot that took long keeps its distance.
    snap.finished(1500, 4500);
    assert_eq!(snap.deadline, None);
    snap.arm(Some(1000), 5000);
    assert_eq!(snap.deadline, Some(10_500));
    snap.done();
    assert_eq!(snap.deadline, None);
}

#[test]
fn announcements_are_screened() {
    let peer = endpoint();
    let heads = |n: usize, len: usize| PeerAnnounce { peer, seq: 1, heads: vec![vec![1; len]; n] };
    assert_eq!(screen_announce(&heads(1, 64), 64, false), Screened::Compare);
    assert_eq!(screen_announce(&heads(1, 64), 64, true), Screened::Held);
    assert_eq!(screen_announce(&heads(1, 63), 64, false), Screened::Malformed);
    assert_eq!(screen_announce(&heads(65, 64), 64, false), Screened::Malformed);
    assert_eq!(
        missing_heads(&vec![vec![1], vec![2], vec![3]], &vec![true, false, false]),
        vec![vec![2], vec![3]],
    );
    assert_eq!(
        sorted_heads(vec![vec![3], vec![1, 2], vec![1], vec![2]]),
        vec![vec![1], vec![1, 2], vec![2], vec![3]],
    );
}

#[test]
fn repo_tasks_publish_changes_and_retry_failures() {
    let mut hub = SyncHub::new();
    let id = RepoId::generate();
    let peer = endpoint();
    hub.register_repo("a", id.duplicate());
    hub.peer_connected(peer, 1);
    while hub.next_message(&peer, 1).is_some() {}

    let settings = Settings::default().for_repo("a");
    let (mut task, plan) =
        RepoTask::start(&mut hub, "a", &id, 9, false, vec![vec![1; 64]], settings);
    assert!(plan.watch_tree && plan.update_stale);
    assert!(matches!(hub.next_message(&peer, 1), Some(UniMessage::Announce(a)) if a.seq == 1));
    task.ready(true, 0);
    assert!(task.watches_tree());
    assert_eq!(task.snapshot_deadline(), Some(20_000));

    assert_eq!(task.wake(Wake::TreeChanged, 100), Step::Wait);
    assert_eq!(task.wake(Wake::Idle { present: false }, 100), Step::Gone);
    assert_eq!(task.wake(Wake::SnapshotDue, 20_000), Step::Snapshot);
    task.snapshot_ran(20_000, 21_000);
    assert_eq!(task.snapshot_deadline(), None);
    assert_eq!(task.wake(Wake::Announced, 22_000), Step::Check);

    // A failed fetch goes back to the inbox and is retried.
    hub.route(
        peer,
        Announce {
            name: "a".to_owned(),
            id: id.duplicate(),
            seq: 1,
            heads: vec![vec![2; 64]],
            colocated: false,
        },
    );
    let mut drained = Drained::new();
    for announce in hub.drain("a", &id) {
        drained.conclude(&mut hub, "a", &id, announce, Handled::Failed);
    }
    assert_eq!(drained, Drained { synced: false, retry: true });
    let settled =
        task.settle(&mut hub, "a", &id, drained, vec![vec![1; 64]], 22_000, 1_000_000);
    assert!(!settled.changed && !settled.update_stale);
    assert_eq!(task.retry_at(), Some(22_000 + FETCH_RETRY));
    assert!(hub.next_message(&peer, 1).is_none());

    // A fetch that applied operations changes the heads.
    let mut drained = Drained::new();
    for announce in hub.drain("a", &id) {
        drained.conclude(&mut hub, "a", &id, announce, Handled::Fetched);
    }
    assert_eq!(drained, Drained { synced: true, retry: false });
    let settled =
        task.settle(&mut hub, "a", &id, drained, vec![vec![2; 64]], 23_000, 1_001_000);
    assert!(settled.changed && settled.update_stale);
    assert_eq!(task.retry_at(), None);
    assert!(matches!(hub.next_message(&peer, 1), Some(UniMessage::Announce(a)) if a.seq == 2));
    match task.state() {
        RepoState::Watching { op_heads, last_change, last_sync } => {
            assert_eq!((op_heads, last_change, last_sync), (1, Some(1_001_000), Some(1_001_000)));
        }
        _ => panic!("the repo is watched"),
    }

    // Divergence is left alone.
    let synced = Drained { synced: true, retry: false };
    let two = vec![vec![2; 64], vec![3; 64]];
    assert!(!task.settle(&mut hub, "a", &id, synced, two, 24_000, 1_002_000).update_stale);
}

#[test]
fn failed_repos_back_off_and_say_why() {
    let mut hub = SyncHub::new();
    let id = RepoId::generate();
    hub.register_repo("a", id.duplicate());
    hub.repo_opened("a", &id, 1, false);
    let mut runner = RepoRunner::new();
    assert_eq!(runner.failed(&mut hub, "a", &id, 0), 1000);
    assert_eq!(runner.failed(&mut hub, "a", &id, 0), 2000);
    assert_eq!(runner.failed(&mut hub, "a", &id, 10_000), 1000);
    runner.reconfigured(&mut hub, "a", &id);
    assert_eq!(runner.failed(&mut hub, "a", &id, 0), 1000);

    assert!(matches!(waiting_state(false, 7, "x"), RepoState::Missing { until: 7 }));
    match waiting_state(true, 7, &"e".repeat(300)) {
        RepoState::Backoff { until, error } => {
            assert_eq!(until, 7);
            assert_eq!(error.chars().count(), 257);
        }
        _ => panic!("the repo is there"),
    }
    assert_eq!(truncated_error("short"), "short");
}

#[test]
fn repo_sets_follow_the_state() {
    let mut hub = SyncHub::new();
    let mut set = RepoSet::new();
    let mut state = MeshState::default();
    state.add_repo("a".to_owned(), repo("/a")).unwrap();
    state.add_repo("b".to_owned(), repo("/b")).unwrap();
    let (stopped, started) = set.sync(&mut hub, &state);
    assert!(stopped.is_empty());
    let names: Vec<&str> = started.iter().map(|s| s.name.as_str()).collect();
    assert_eq!(names, vec!["a", "b"]);

    // Aligned already: nothing to do.
    let (stopped, started2) = set.sync(&mut hub, &state);
    assert!(stopped.is_empty() && started2.is_empty());

    // Another spelling of its path is no move.
    let mut respelled = state.duplicate();
    let a = respelled.forget_repo("a").unwrap();
    respelled.repos.insert("a".to_owned(), Repo { id: a.id, path: FsPath::new("//a/.") });
    let (stopped, started2) = set.sync(&mut hub, &respelled);
    assert!(stopped.is_empty() && started2.is_empty());

    // A repo registered again under another id is replaced.
    state.remove_repo("b").unwrap();
    state.add_repo("b".to_owned(), repo("/b")).unwrap();
    state.forget_repo("a").unwrap();
    let (stopped, restarted) = set.sync(&mut hub, &state);
    assert_eq!(stopped, vec![started[0].task, started[1].task]);
    assert_eq!(restarted.len(), 1);
    assert_eq!(restarted[0].name, "b");

    // The stopped task has no say anymore.
    set.set_state("b", started[1].task, RepoState::Indexing);
    set.set_state(
        "b",
        restarted[0].task,
        RepoState::Backoff { until: 5_000, error: "boom".to_owned() },
    );
    assert_eq!(
        set.health(&hub),
        vec![RepoHealth { name: "b".to_owned(), state: RepoHealthState::Failed }],
    );
    let statuses = set.statuses(2_000, 0);
    assert_eq!(statuses.len(), 1);
    assert_eq!(
        statuses[0].watch,
        WatchStatus::Failed { error: "boom".to_owned(), retry_in_secs: 3 },
    );
    set.set_state(
        "b",
        restarted[0].task,
        RepoState::Watching { op_heads: 2, last_change: Some(1_000), last_sync: None },
    );
    assert_eq!(
        set.statuses(0, 61_500)[0].watch,
        WatchStatus::Watching {
            op_heads: 2,
            last_change_secs: Some(60),
            last_sync_secs: None,
        },
    );
}

#[test]
fn peer_sets_follow_the_state() {
    let mut hub = SyncHub::new();
    let mut set = PeerSet::new();
    let mut state = MeshState::default();
    let (a, b) = (endpoint(), endpoint());
    state.add_peer(a, "a".to_owned()).unwrap();
    state.add_peer(b, "b".to_owned()).unwrap();
    let plan = set.sync(&mut hub, &state);
    assert!(plan.stopped.is_empty() && plan.closed.is_empty());
    assert_eq!(plan.started.len(), 2);
    let task_of_a = plan.started.iter().find(|s| s.endpoint == a).unwrap().task;
    let task_of_b = plan.started.iter().find(|s| s.endpoint == b).unwrap().task;

    assert_eq!(set.route_inbound(&a, 0), Admission::Deliver);
    assert_eq!(set.route_inbound(&a, INBOUND_QUEUE), Admission::Busy);
    assert_eq!(set.route_inbound(&endpoint(), 0), Admission::Unauthorized);

    // A renamed peer is respawned and keeps its connection, a removed one is cut
    // off.
    hub.peer_connected(a, 11);
    hub.peer_connected(b, 12);
    set.set_state(&a, task_of_a, PeerState::Connected { conn: 11, since: 1_000 });
    state.remove_peer("b").unwrap();
    state.peers.insert(
        a,
        jj_mesh::config::state::membership::Peer {
            version: 2,
            status: jj_mesh::config::state::membership::PeerStatus::Alive {
                name: "renamed".to_owned(),
            },
        },
    );
    let plan = set.sync(&mut hub, &state);
    assert_eq!(plan.stopped.len(), 2);
    assert!(plan.stopped.contains(&task_of_a) && plan.stopped.contains(&task_of_b));
    assert_eq!(plan.closed, vec![12]);
    assert_eq!(plan.started.len(), 1);
    assert_eq!(plan.started[0].endpoint, a);
    assert_eq!(plan.started[0].name, "renamed");
    let respawned = plan.started[0].task;
    assert!(respawned != task_of_a && respawned != task_of_b);
    assert_eq!(hub.connection(&a), Some(11));
    assert_eq!(hub.connection(&b), None);
    assert_eq!(set.name_of(&a), Some("renamed"));
    assert_eq!(set.name_of(&b), None);

    let mut paths = SortedMap::new();
    paths.insert(a, PathInfo { route: Route::Relay { url: "r".to_owned() }, rtt_ms: 4 });
    let statuses = set.statuses(&paths, 6_500);
    assert_eq!(statuses.len(), 1);
    assert_eq!(statuses[0].name, "renamed");
    assert_eq!(statuses[0].connection, ConnectionStatus::Connecting { failures: 0 });

    // The stopped task has no say anymore, the respawned one has.
    set.set_state(&a, task_of_a, PeerState::Connected { conn: 11, since: 1_000 });
    assert_eq!(
        set.statuses(&paths, 6_500)[0].connection,
        ConnectionStatus::Connecting { failures: 0 },
    );
    set.set_state(&a, respawned, PeerState::Connected { conn: 11, since: 1_000 });
    assert_eq!(
        set.statuses(&paths, 6_500)[0].connection,
        ConnectionStatus::Connected {
            path: Some(PathInfo { route: Route::Relay { url: "r".to_owned() }, rtt_ms: 4 }),
            since_secs: 5,
        },
    );

    // Nothing changed: nothing stops or starts.
    let plan = set.sync(&mut hub, &state);
    assert!(plan.stopped.is_empty() && plan.closed.is_empty() && plan.started.is_empty());
}

#[test]
fn pairs_converge_on_the_lower_ids_connection() {
    let (low, high) = (id_of(1), id_of(2));
    let (mut low_hub, mut high_hub) = (SyncHub::new(), SyncHub::new());
    let mut at_low = PeerTask::new(low, high);
    let mut at_high = PeerTask::new(high, low);

    // While dialing, only the higher id takes what comes in.
    assert!(!at_low.adopts_while_dialing());
    assert!(at_high.adopts_while_dialing());
    assert_eq!(at_low.inbound(&mut low_hub, 20, 0), Inbound::Queued);

    // Both dials succeed: connection 10 is dialed by low, 20 by high. Each side
    // has its own clock.
    at_low.dialed(&mut low_hub, 10, 7_000);
    at_high.dialed(&mut high_hub, 20, 0);
    assert_eq!(at_low.inbound(&mut low_hub, 20, 7_001), Inbound::Duplicate);
    assert_eq!(at_high.inbound(&mut high_hub, 10, 1), Inbound::Replaced { old: 20 });
    assert_eq!(low_hub.connection(&high), Some(10));
    assert_eq!(high_hub.connection(&low), Some(10));
    match at_high.state() {
        PeerState::Connected { conn, since } => assert_eq!((conn, since), (10, 1)),
        _ => panic!("the connection is held"),
    }
}

#[test]
fn peer_tasks_back_off_until_stable() {
    let mut hub = SyncHub::new();
    let mut task = PeerTask::new(id_of(1), id_of(2));
    assert_eq!(task.dial_failed(), 1_000);
    task.redial();
    assert_eq!(task.dial_failed(), 2_000);
    match task.state() {
        PeerState::Connecting { failures } => assert_eq!(failures, 2),
        _ => panic!("no connection is held"),
    }
    task.redial();
    task.dialed(&mut hub, 7, 100);
    // Closed young: the backoff goes on.
    assert_eq!(task.closed(&mut hub, 200), Some(4_000));
    assert_eq!(hub.connection(&id_of(2)), None);
    assert_eq!(task.inbound(&mut hub, 8, 300), Inbound::Adopted);
    // Closed old: dial again at once.
    assert_eq!(task.closed(&mut hub, 300 + STABLE_UPTIME), None);
    assert_eq!(task.dial_failed(), 1_000);
    for _ in 0..10 {
        task.redial();
        assert!(task.dial_failed() <= BACKOFF_MAX);
    }

    for _ in 0..MAX_ANNOUNCE_STREAMS {
        assert!(task.stream_opened());
    }
    assert!(!task.stream_opened());
    task.stream_closed();
    assert!(task.stream_opened());
}

#[test]
fn stores_save_only_what_changed() {
    let mut store = store(MeshState::default());
    let peer = endpoint();
    let outcome = update(
        &mut store,
        Mutation::AddPairedPeer { endpoint: peer, name: "laptop".to_owned() },
    );
    assert_eq!(outcome, Ok(Outcome::Paired { name: "laptop".to_owned(), endpoint: peer }));
    assert_eq!(store.peers.name_of(&peer), Some("laptop"));

    // Pairing again with an alive peer changes nothing.
    let again = store
        .prepare(Mutation::AddPairedPeer { endpoint: peer, name: "other".to_owned() })
        .map(|prepared| prepared.next.is_none());
    assert_eq!(again, Ok(true));

    // Our own membership coming back changes nothing.
    let own = store.state.membership(store.local);
    let echo = store.merge_membership(own).map(|prepared| prepared.next.is_none());
    assert_eq!(echo, Ok(true));

    // A refused change leaves the store alone.
    let before = store.snapshot();
    assert!(update(&mut store, Mutation::RemoveRepo { name: "nope".to_owned() }).is_err());
    assert!(store.state.same(&before));

    // Removing the peer cuts it off.
    store.hub.peer_connected(peer, 3);
    let outcome = update(&mut store, Mutation::RemovePeer { peer: "laptop".to_owned() });
    assert_eq!(outcome, Ok(Outcome::PeerRemoved { endpoint: peer }));
    assert_eq!(store.hub.connection(&peer), None);
    assert_eq!(store.peers.name_of(&peer), None);
}

#[test]
fn stores_broadcast_membership_changes() {
    let mut store = store(MeshState::default());
    let peer = endpoint();
    update(&mut store, Mutation::AddPairedPeer { endpoint: peer, name: "l".to_owned() }).unwrap();
    store.hub.peer_connected(peer, 1);
    assert!(matches!(store.hub.next_message(&peer, 1), Some(UniMessage::Membership(_))));
    assert!(store.hub.next_message(&peer, 1).is_none());

    update(&mut store, Mutation::RenameMachine { name: "desk".to_owned() }).unwrap();
    match store.hub.next_message(&peer, 1) {
        Some(UniMessage::Membership(m)) => {
            assert!(m.same(&store.state.membership(store.local)));
        }
        _ => panic!("the rename is gossiped"),
    }

    // Forgetting a repo concerns this machine only.
    update(&mut store, Mutation::AddRepo { name: "a".to_owned(), repo: repo("/a") }).unwrap();
    assert!(matches!(store.hub.next_message(&peer, 1), Some(UniMessage::Membership(_))));
    assert_eq!(
        update(&mut store, Mutation::ForgetRepo { name: "a".to_owned() }),
        Ok(Outcome::RepoForgotten { path: FsPath::new("/a") }),
    );
    assert!(store.hub.next_message(&peer, 1).is_none());

    store.republish_membership();
    assert!(matches!(store.hub.next_message(&peer, 1), Some(UniMessage::Membership(_))));
}

#[test]
fn stores_take_in_messages() {
    let mut store = store(MeshState::default());
    let peer = endpoint();
    store.hub.peer_connected(peer, 1);
    let report = StatusReport {
        daemon_version: "1".to_owned(),
        jj_version: None,
        repos: vec![],
    };
    assert!(matches!(store.receive(peer, UniMessage::Status(report)), Received::Reported));
    assert_eq!(store.hub.peer_reports().len(), 1);
    let membership = store.state.membership(store.local);
    assert!(matches!(
        store.receive(peer, UniMessage::Membership(membership)),
        Received::Change { mutation: Mutation::MergeMembership { .. } },
    ));
    let announce = Announce {
        name: "x".to_owned(),
        id: RepoId::generate(),
        seq: 1,
        heads: vec![vec![1; 64]],
        colocated: false,
    };
    assert!(matches!(
        store.receive(peer, UniMessage::Announce(announce)),
        Received::Announced { .. },
    ));
    assert!(store.hub.clone_sources("x").is_ok());
}

#[test]
fn tickets_pair_once() {
    let store = store(MeshState::default());
    let mut pairing = Pairing::new();
    assert_eq!(pairing.serve_inbound(0), Attempt::NoTicket);
    pairing.finished();
    assert!(!pairing.revoke());
    pairing.host("t1".to_owned(), "desk".to_owned(), 0);
    assert_eq!(
        pairing.serve_inbound(1),
        Attempt::Exchange { ticket: "t1".to_owned(), local_name: "desk".to_owned() },
    );
    // Failed attempts leave the ticket valid.
    assert!(matches!(
        pairing.settle(&store, "t1", Exchange::Interrupted, 2),
        Settled::Ignored,
    ));
    assert!(matches!(pairing.settle(&store, "t1", Exchange::Failed, 2), Settled::Ignored));
    assert!(matches!(pairing.settle(&store, "t1", Exchange::TimedOut, 2), Settled::TimedOut));

    let proved = || Exchange::Proved { endpoint: id_of(9), name: "laptop".to_owned() };
    assert!(matches!(
        pairing.settle(&store, "t1", proved(), 3),
        Settled::Redeemed { prepared } if prepared.next.is_some(),
    ));
    // Redeemed: no second time.
    assert!(matches!(pairing.settle(&store, "t1", proved(), 3), Settled::Cancelled));
    // Nor after anything else happened.
    pairing.finished();
    assert_eq!(pairing.serve_inbound(4), Attempt::NoTicket);
    pairing.finished();
    pairing.host("t0".to_owned(), "desk".to_owned(), 5);
    assert!(matches!(pairing.settle(&store, "t1", proved(), 6), Settled::Cancelled));
    assert!(pairing.revoke());
    assert!(matches!(pairing.settle(&store, "t1", proved(), 7), Settled::Cancelled));

    // Expired, replaced and revoked tickets do not pair.
    pairing.host("t2".to_owned(), "desk".to_owned(), 10);
    assert!(matches!(
        pairing.settle(&store, "t2", proved(), 10 + PAIR_TICKET_TTL),
        Settled::Cancelled,
    ));
    pairing.host("t3".to_owned(), "desk".to_owned(), 20);
    assert!(matches!(pairing.settle(&store, "t2", proved(), 21), Settled::Cancelled));
    assert!(pairing.revoke());
    assert!(matches!(pairing.settle(&store, "t3", proved(), 22), Settled::Cancelled));

    // A peer that cannot be registered still uses the ticket up.
    pairing.host("t4".to_owned(), "desk".to_owned(), 30);
    let nameless = Exchange::Proved { endpoint: id_of(9), name: String::new() };
    assert!(matches!(pairing.settle(&store, "t4", nameless, 31), Settled::Refused { .. }));
    assert!(matches!(pairing.settle(&store, "t4", proved(), 31), Settled::Cancelled));
}

#[test]
fn joining_pairs_only_when_completed() {
    let store = store(MeshState::default());
    assert!(matches!(pair_join(&store, Joining::ClientGone), Joined::Abandoned));
    assert!(matches!(
        pair_join(&store, Joining::TimedOut),
        Joined::Failed { error } if error == "pairing timed out after 60s",
    ));
    assert!(matches!(
        pair_join(&store, Joining::Failed { error: "refused".to_owned() }),
        Joined::Failed { error } if error == "refused",
    ));
    match pair_join(&store, Joining::Proved { endpoint: id_of(9), name: "host".to_owned() }) {
        Joined::Register { prepared } => {
            assert!(prepared.next.is_some());
            assert_eq!(
                prepared.outcome,
                Outcome::Paired { name: "host".to_owned(), endpoint: id_of(9) },
            );
        }
        _ => panic!("the exchange completed"),
    }
    assert!(matches!(
        pair_join(&store, Joining::Proved { endpoint: id_of(9), name: String::new() }),
        Joined::Failed { error } if error == "peer name cannot be empty",
    ));
}

#[test]
fn exchanges_are_bounded() {
    let mut pairing = Pairing::new();
    for _ in 0..MAX_EXCHANGES {
        assert_eq!(pairing.serve_inbound(0), Attempt::NoTicket);
    }
    assert_eq!(pairing.serve_inbound(0), Attempt::Busy);
    pairing.finished();
    assert_eq!(pairing.serve_inbound(0), Attempt::NoTicket);
}

#[test]
fn requests_become_work_and_outcomes_answers() {
    assert!(matches!(handle(Request::Status), Work::Status));
    assert!(matches!(handle(Request::PairHost), Work::HostPairing));
    assert!(matches!(
        handle(Request::AddRepo { name: "a".to_owned(), path: FsPath::new("/a/sub") }),
        Work::Discover { name, path } if name == "a" && path == FsPath::new("/a/sub"),
    ));
    assert!(matches!(
        handle(Request::RemovePeer { peer: "p".to_owned() }),
        Work::Mutate { mutation: Mutation::RemovePeer { peer } } if peer == "p",
    ));
    match register("a".to_owned(), FsPath::new("/a")) {
        Mutation::AddRepo { name, repo } => {
            assert_eq!(name, "a");
            assert_eq!(repo.path, FsPath::new("/a"));
            assert_eq!(repo.id.as_str().len(), 32);
        }
        _ => panic!("a repo is added"),
    }
    assert!(answer(Outcome::Merged).is_none());
    assert!(matches!(
        answer(Outcome::RepoRemoved { was_local: true }),
        Some(Response::RepoRemoved { was_local: true }),
    ));
    assert!(matches!(
        answer(Outcome::RepoForgotten { path: FsPath::new("/a") }),
        Some(Response::RepoForgotten { path }) if path == FsPath::new("/a"),
    ));
    assert!(matches!(
        refuse(&StateError::NoMeshRepo { name: "x".to_owned() }),
        Response::Error(text) if text == "no repo named `x` in the mesh",
    ));
}

#[test]
fn status_resolves_peers_to_names() {
    let mut state = MeshState::default();
    let known = endpoint();
    state.rename_machine("desk".to_owned()).unwrap();
    state.add_peer(known, "laptop".to_owned()).unwrap();
    state.add_repo("mine".to_owned(), repo("/mine")).unwrap();
    state.add_repo("gone".to_owned(), repo("/gone")).unwrap();
    state.forget_repo("gone").unwrap();
    let mut store = store(state);
    store.hub.peer_connected(known, 1);
    let announce = |seq| Announce {
        name: "mine".to_owned(),
        id: RepoId::generate(),
        seq,
        heads: vec![vec![1; 64]],
        colocated: false,
    };
    store.hub.route(known, announce(1));
    store.hub.route(endpoint(), announce(1));
    store.hub.route_status(
        known,
        StatusReport { daemon_version: "2".to_owned(), jj_version: None, repos: vec![] },
    );

    let version = Some("0.35".to_owned());
    let shown = status(&store, &SortedMap::new(), &version, 1_000, 0, 63_999);
    assert_eq!(shown.name, "desk");
    assert_eq!(shown.endpoint, store.local);
    assert_eq!(shown.uptime_secs, 62);
    assert_eq!(shown.jj_version, version);
    assert_eq!(shown.peers.len(), 1);
    assert_eq!(shown.repos.len(), 1);
    assert_eq!(shown.available, vec!["gone".to_owned()]);
    // The unpaired peer's conflict is not shown.
    assert_eq!(shown.conflicts.len(), 1);
    assert_eq!(
        (shown.conflicts[0].repo.as_str(), shown.conflicts[0].peer.as_str()),
        ("mine", "laptop"),
    );
    assert_eq!(shown.peer_reports.len(), 1);
    assert_eq!(shown.peer_reports[0].peer, "laptop");
    assert!(shown.paused.is_empty());
}

#[test]
fn status_names_the_peers_that_pause() {
    let mut state = MeshState::default();
    let known = endpoint();
    state.add_peer(known, "laptop".to_owned()).unwrap();
    let mine = repo("/mine");
    let id = mine.id.duplicate();
    state.add_repo("mine".to_owned(), mine).unwrap();
    let mut store = store(state);
    store.hub.repo_opened("mine", &id, 1, true);
    store.hub.route(
        known,
        Announce {
            name: "mine".to_owned(),
            id,
            seq: 1,
            heads: vec![vec![1; 64]],
            colocated: true,
        },
    );
    let shown = status(&store, &SortedMap::new(), &None, 0, 0, 0);
    assert_eq!(shown.paused.len(), 1);
    assert_eq!(shown.paused[0].repo, "mine");
    assert_eq!(shown.paused[0].peers, vec!["laptop".to_owned()]);
}

#[test]
fn clones_check_first_and_fall_back() {
    let mut state = MeshState::default();
    let (a, b, c) = (id_of(1), id_of(2), id_of(3));
    state.add_peer(b, "laptop".to_owned()).unwrap();
    let mut store = store(state);
    let id = RepoId::generate();
    let path = FsPath::new("/new");
    match check_clone(&store, "x", &path) {
        Err(refusal) => assert!(refusal.message().starts_with("no connected peer announces")),
        Ok(_) => panic!("nobody announces it"),
    }
    for (n, peer) in [a, b, c].into_iter().enumerate() {
        store.hub.peer_connected(peer, n as u64);
        store.hub.route(
            peer,
            Announce {
                name: "x".to_owned(),
                id: id.duplicate(),
                seq: 1,
                heads: vec![vec![n as u8; 64]],
                colocated: false,
            },
        );
    }
    match check_clone(&store, "bad\u{202E}", &path) {
        Err(refusal) => assert!(refusal.message().contains("no connected peer")),
        Ok(_) => panic!("no such repo"),
    }
    let (found, mut pull) = match check_clone(&store, "x", &path) {
        Ok(found) => found,
        Err(refusal) => panic!("{}", refusal.message()),
    };
    assert_eq!(found, id);

    // The second source left before it was tried.
    let first = pull.next_source(&store).unwrap();
    assert_eq!((first.peer, first.conn, first.progress.peer), (a, 0, a.to_text()));
    pull.failed(&a, PullFailure::TimedOut);
    store.hub.peer_disconnected(&c);
    let second = pull.next_source(&store).unwrap();
    assert_eq!((second.peer, second.conn, second.progress.peer.as_str()), (b, 1, "laptop"));
    assert_eq!(second.wants, vec![vec![1u8; 64]]);
    pull.failed(&b, PullFailure::Failed { error: "boom".to_owned() });
    assert!(pull.next_source(&store).is_none());
    assert!(matches!(
        pull.give_up(),
        Response::Error(text) if text == format!("pull from {} failed: boom", b.to_text()),
    ));
    assert_eq!(unpicked().peer, "");

    // A repo known here under another name is not cloned again.
    update(
        &mut store,
        Mutation::AddRepo {
            name: "y".to_owned(),
            repo: Repo { id: id.duplicate(), path: FsPath::new("/y") },
        },
    )
    .unwrap();
    match check_clone(&store, "x", &path) {
        Err(refusal) => assert_eq!(
            refusal.message(),
            "`x` is the repo already registered here as `y`",
        ),
        Ok(_) => panic!("already here"),
    }
    match check_clone(&store, "x", &FsPath::new("/y")) {
        Err(refusal) => assert_eq!(refusal.message(), "/y is already added as `y`"),
        Ok(_) => panic!("path taken"),
    }
}

#[test]
fn clones_without_sources_say_so() {
    let store = store(MeshState::default());
    let mut pull = jj_mesh::daemon::control::clone::ClonePull::new(vec![]);
    assert!(pull.next_source(&store).is_none());
    assert!(matches!(pull.give_up(), Response::Error(text) if text == "no usable source peer"));
}

#[test]
fn clients_compare_builds() {
    assert!(check_build("abc", "abc").is_ok());
    assert!(check_build("", "abc").is_ok());
    assert!(check_build("unknown", "abc").is_ok());
    assert!(check_build("abc", "unknown+").is_ok());
    assert_eq!(
        check_build("abc", "def").unwrap_err(),
        "the daemon runs jj-mesh build abc while this command is build def: restart it with `jj-mesh service restart`",
    );
    assert_eq!(
        DaemonNotRunning.message(),
        "The jj-mesh daemon is not running. Install it with `jj-mesh service install`.",
    );
}

#[test]
fn clients_pass_progress_on() {
    let progress = CloneProgress {
        peer: "p".to_owned(),
        transfer: TransferProgress::start(TransferPhase::Git),
    };
    assert!(matches!(
        read_frame(Response::CloneProgress(progress)),
        Frame::Progress(p) if p.peer == "p",
    ));
    assert!(matches!(
        read_frame(Response::Error("no".to_owned())),
        Frame::Failed(message) if message == "no",
    ));
    assert!(matches!(read_frame(Response::RepoAdded), Frame::Answer(Response::RepoAdded)));
}

#[test]
fn health_is_reported_once_per_change() {
    let mut hub = SyncHub::new();
    let mut set = RepoSet::new();
    let mut reporter = Reporter::new("1.0".to_owned(), Some("0.35".to_owned()));
    assert!(reporter.refresh(&set, &mut hub));
    assert!(!reporter.refresh(&set, &mut hub));
    let mut state = MeshState::default();
    state.add_repo("a".to_owned(), repo("/a")).unwrap();
    let (_, started) = set.sync(&mut hub, &state);
    assert!(reporter.refresh(&set, &mut hub));
    set.set_state("a", started[0].task, RepoState::Missing { until: 0 });
    assert!(reporter.refresh(&set, &mut hub));
    assert!(!reporter.refresh(&set, &mut hub));
}

#[test]
fn connections_are_routed_by_protocol() {
    let protocols = Protocols { sync: b"sync".to_vec(), pair: b"pair".to_vec() };
    assert_eq!(protocols.alpns(), vec![b"sync".to_vec(), b"pair".to_vec()]);
    assert_eq!(protocols.route(b"sync"), Handler::Peers);
    assert_eq!(protocols.route(b"pair"), Handler::Pairing);
    assert_eq!(protocols.route(b"other"), Handler::Nobody);
}
