//! The sync hub: announcements between peers and repos.

use jj_mesh::config::key::MachineKey;
use jj_mesh::config::state::membership::Membership;
use jj_mesh::config::state::repo::RepoId;
use jj_mesh::daemon::hub::orphans::{CloneError, MAX_ORPHAN_REPOS_PER_PEER};
use jj_mesh::daemon::hub::outbox::Outbox;
use jj_mesh::daemon::hub::{FetchAnswer, MAX_SERVES, Routed, SyncHub};
use jj_mesh::net::endpoint::EndpointId;
use jj_mesh::net::sync::{
    Announce, RepoHealth, RepoHealthState, StatusReport, UniMessage,
};
use jj_mesh::order::Duplicate;
use jj_mesh::sorted_map::SortedMap;

fn endpoint() -> EndpointId {
    MachineKey::generate().endpoint_id()
}

fn announce(name: &str, id: &RepoId, seq: u64, heads: Vec<Vec<u8>>) -> Announce {
    Announce { name: name.to_owned(), id: id.duplicate(), seq, heads, colocated: false }
}

fn no_membership() -> Membership {
    Membership { peers: SortedMap::new(), repos: SortedMap::new() }
}

fn report(version: &str, repos: Vec<RepoHealth>) -> StatusReport {
    StatusReport { daemon_version: version.to_owned(), jj_version: None, repos }
}

fn check_routing() {
    let mut hub = SyncHub::new();
    let id = RepoId::generate();
    hub.register_repo("a", id.duplicate());

    let peer = endpoint();
    hub.route(peer, announce("a", &id, 1, vec![vec![1; 64]]));

    let drained = hub.drain("a", &id);
    assert_eq!(drained.len(), 1);
    assert_eq!(drained[0].peer, peer);
    assert_eq!(drained[0].heads, vec![vec![1; 64]]);
    assert!(hub.drain("a", &id).is_empty());
}

#[test]
fn hub_routes_to_registered_repo() {
    check_routing();
}

#[test]
fn tests_routes_to_registered_repo() {
    check_routing();
}

fn check_reordering() {
    let mut hub = SyncHub::new();
    let id = RepoId::generate();
    hub.register_repo("a", id.duplicate());
    let peer = endpoint();

    hub.route(peer, announce("a", &id, 2, vec![vec![2; 64]]));
    hub.route(peer, announce("a", &id, 1, vec![vec![1; 64]]));

    let drained = hub.drain("a", &id);
    assert_eq!(drained.len(), 1);
    assert_eq!(drained[0].heads, vec![vec![2; 64]]);

    // The watermark survives draining: the stale announcement stays
    // rejected even when it arrives afterwards.
    hub.route(peer, announce("a", &id, 1, vec![vec![1; 64]]));
    assert!(hub.drain("a", &id).is_empty());
}

#[test]
fn hub_discards_reordered_announcements() {
    check_reordering();
}

#[test]
fn tests_discards_reordered_announcements() {
    check_reordering();
}

fn check_requeue() {
    let mut hub = SyncHub::new();
    let id = RepoId::generate();
    hub.register_repo("a", id.duplicate());
    let peer = endpoint();

    hub.route(peer, announce("a", &id, 1, vec![vec![1; 64]]));
    let drained = hub.drain("a", &id);
    assert_eq!(drained.len(), 1);

    // A failed fetch requeues the drained heads; the next drain retries.
    hub.requeue("a", &id, peer, drained[0].seq, drained[0].heads.clone());
    let retried = hub.drain("a", &id);
    assert_eq!(retried.len(), 1);
    assert_eq!(retried[0].heads, vec![vec![1; 64]]);

    // A newer announcement supersedes a stale requeue.
    hub.route(peer, announce("a", &id, 2, vec![vec![2; 64]]));
    hub.requeue("a", &id, peer, 1, vec![vec![1; 64]]);
    let latest = hub.drain("a", &id);
    assert_eq!(latest.len(), 1);
    assert_eq!(latest[0].heads, vec![vec![2; 64]]);
}

#[test]
fn hub_requeue_retries_failed_heads_until_superseded() {
    check_requeue();
}

#[test]
fn tests_requeue_retries_failed_heads_until_superseded() {
    check_requeue();
}

fn check_unregistered() {
    let mut hub = SyncHub::new();
    let id = RepoId::generate();
    hub.register_repo("a", id.duplicate());
    hub.unregister_repo("a");

    let peer = endpoint();
    hub.route(peer, announce("a", &id, 1, vec![vec![1; 64]]));
    assert!(hub.drain("a", &id).is_empty());
}

#[test]
fn hub_ignores_unregistered_repo() {
    check_unregistered();
}

#[test]
fn tests_ignores_unregistered_repo() {
    check_unregistered();
}

fn check_remembered() {
    let mut hub = SyncHub::new();
    let id = RepoId::generate();
    let peer = endpoint();

    // Not offered as a clone source while the peer is not connected.
    hub.route(peer, announce("a", &id, 1, vec![vec![1; 64]]));
    assert!(hub.clone_sources("a").is_err());

    // Registering the repo claims the orphan entry.
    hub.register_repo("a", id.duplicate());
    assert!(hub.clone_sources("a").is_err());
    hub.route(peer, announce("a", &id, 2, vec![vec![2; 64]]));
    assert_eq!(hub.drain("a", &id).len(), 1);
}

#[test]
fn remembers_unregistered_announcements_for_join() {
    check_remembered();
}

#[test]
fn remembers_unregistered_announcements_for_clone() {
    check_remembered();
}

fn check_conflict() {
    let mut hub = SyncHub::new();
    let id = RepoId::generate();
    hub.register_repo("a", id.duplicate());
    let peer = endpoint();

    let foreign = RepoId::generate();
    hub.route(peer, announce("a", &foreign, 1, vec![vec![1; 64]]));

    assert!(hub.drain("a", &id).is_empty(), "conflicts must not be synced");
    assert_eq!(hub.conflicts(), vec![("a".to_owned(), peer)]);

    // A matching announcement resumes sync and resolves the conflict.
    hub.route(peer, announce("a", &id, 2, vec![vec![2; 64]]));
    assert_eq!(hub.drain("a", &id).len(), 1);
    assert!(hub.conflicts().is_empty());
}

#[test]
fn hub_conflicting_id_is_surfaced_and_never_synced() {
    check_conflict();
}

#[test]
fn tests_conflicting_id_is_surfaced_and_never_synced() {
    check_conflict();
}

fn check_conflicts_per_peer() {
    let mut hub = SyncHub::new();
    let id = RepoId::generate();
    hub.register_repo("a", id.duplicate());
    let (b, c) = (endpoint(), endpoint());

    hub.route(b, announce("a", &RepoId::generate(), 1, vec![vec![1; 64]]));
    hub.route(c, announce("a", &RepoId::generate(), 1, vec![vec![2; 64]]));
    assert_eq!(hub.conflicts().len(), 2);

    // One peer leaving must not hide the other's live conflict.
    hub.peer_disconnected(&c);
    assert_eq!(hub.conflicts(), vec![("a".to_owned(), b)]);
}

#[test]
fn hub_tracks_conflicts_per_peer() {
    check_conflicts_per_peer();
}

#[test]
fn tests_tracks_conflicts_per_peer() {
    check_conflicts_per_peer();
}

fn check_seeded_conflict() {
    let mut hub = SyncHub::new();
    let peer = endpoint();

    // The peer announced first; adding a different local repo under
    // the same name must surface the conflict without waiting for the
    // (idle) peer to announce again.
    hub.route(peer, announce("a", &RepoId::generate(), 1, vec![vec![1; 64]]));
    hub.register_repo("a", RepoId::generate());
    assert_eq!(hub.conflicts(), vec![("a".to_owned(), peer)]);
}

#[test]
fn hub_register_seeds_conflicts_from_orphans() {
    check_seeded_conflict();
}

#[test]
fn tests_register_seeds_conflicts_from_orphans() {
    check_seeded_conflict();
}

fn check_bounded_orphans() {
    let mut hub = SyncHub::new();
    let flooder = endpoint();
    let honest = endpoint();

    for n in 0..MAX_ORPHAN_REPOS_PER_PEER {
        hub.route(
            flooder,
            announce(&format!("junk{n}"), &RepoId::generate(), 1, vec![vec![1; 64]]),
        );
    }
    hub.route(honest, announce("work", &RepoId::generate(), 1, vec![vec![2; 64]]));

    // The honest orphan survived the flood: registering `work` with a
    // different id seeds its conflict, proving the entry was kept.
    hub.register_repo("work", RepoId::generate());
    assert_eq!(hub.conflicts(), vec![("work".to_owned(), honest)]);

    // Disconnecting the flooder frees its slots for new names.
    hub.peer_disconnected(&flooder);
    hub.route(flooder, announce("fresh", &RepoId::generate(), 1, vec![vec![3; 64]]));
    hub.register_repo("fresh", RepoId::generate());
    assert!(hub.conflicts().iter().any(|(name, _)| name == "fresh"));
}

#[test]
fn hub_orphans_are_bounded_per_peer() {
    check_bounded_orphans();
}

#[test]
fn tests_orphans_are_bounded_per_peer() {
    check_bounded_orphans();
}

/// A peer announcing a colocated instance while ours is colocated too pauses
/// the repo, and the pause lifts when either side stops being colocated.
#[test]
fn colocation_conflict_pauses_and_resumes() {
    let mut hub = SyncHub::new();
    let id = RepoId::generate();
    hub.register_repo("a", id.duplicate());
    hub.repo_opened("a", &id, 1, true);
    let peer = endpoint();

    let colocated =
        |seq| Announce { colocated: true, ..announce("a", &id, seq, vec![vec![1; 64]]) };
    hub.route(peer, colocated(1));
    assert!(hub.is_paused("a"));
    assert_eq!(hub.paused_repos(), vec![("a".to_owned(), vec![peer])]);
    // The heads still land in the inbox: the repo task requeues them
    // while paused, so they are fetched once the pause lifts instead
    // of being lost.
    assert_eq!(hub.drain("a", &id).len(), 1);

    // The peer de-colocating resumes sync with its own announcement.
    hub.route(peer, announce("a", &id, 2, vec![vec![2; 64]]));
    assert!(!hub.is_paused("a"));
    assert_eq!(hub.drain("a", &id).len(), 1);

    // So does the peer disconnecting.
    hub.route(peer, colocated(3));
    assert!(hub.is_paused("a"));
    hub.peer_disconnected(&peer);
    assert!(!hub.is_paused("a"));

    // And so does a retraction (the peer forgot its instance).
    hub.route(peer, colocated(1));
    assert!(hub.is_paused("a"));
    hub.route(peer, announce("a", &id, 2, vec![]));
    assert!(!hub.is_paused("a"));
}

/// A repo unregistered locally keeps its peers' last announcements as orphans,
/// so the name stays clonable without waiting for the (idle) peers to announce
/// again.
#[test]
fn unregister_demotes_announcements_to_orphans() {
    let mut hub = SyncHub::new();
    let id = RepoId::generate();
    hub.register_repo("a", id.duplicate());
    let peer = endpoint();

    hub.route(peer, announce("a", &id, 1, vec![vec![1; 64]]));
    // Draining (a completed fetch) must not lose the heads.
    assert_eq!(hub.drain("a", &id).len(), 1);
    hub.unregister_repo("a");

    // Re-registering under a different id seeds a conflict from the
    // demoted entry, proving the announcement survived.
    hub.register_repo("a", RepoId::generate());
    assert_eq!(hub.conflicts(), vec![("a".to_owned(), peer)]);
}

/// A retraction releases everything attributed to the peer for the name, while
/// reordered pre-retraction announcements stay rejected.
#[test]
fn retraction_releases_peer_state() {
    let mut hub = SyncHub::new();
    let id = RepoId::generate();
    hub.register_repo("a", id.duplicate());
    let peer = endpoint();

    // A retraction clears even a conflicting peer's entry.
    hub.route(peer, announce("a", &RepoId::generate(), 1, vec![vec![1; 64]]));
    assert_eq!(hub.conflicts().len(), 1);
    hub.route(peer, announce("a", &RepoId::generate(), 2, vec![]));
    assert!(hub.conflicts().is_empty());

    // A stale pre-retraction announcement stays rejected...
    hub.route(peer, announce("a", &id, 1, vec![vec![1; 64]]));
    assert!(hub.drain("a", &id).is_empty());
    // ...while a later one (a re-clone on the peer) comes through.
    hub.route(peer, announce("a", &id, 3, vec![vec![2; 64]]));
    assert_eq!(hub.drain("a", &id).len(), 1);

    // A retraction of an unregistered name clears the orphan entry:
    // registering the name no longer seeds a conflict from it.
    hub.route(peer, announce("b", &RepoId::generate(), 4, vec![vec![1; 64]]));
    hub.route(peer, announce("b", &RepoId::generate(), 5, vec![]));
    hub.register_repo("b", RepoId::generate());
    assert!(hub.conflicts().is_empty());
}

fn check_invalid_names() {
    let mut hub = SyncHub::new();
    let id = RepoId::generate();
    hub.register_repo("a\u{202E}b", id.duplicate());
    let peer = endpoint();

    hub.route(peer, announce("a\u{202E}b", &id, 1, vec![vec![1; 64]]));
    assert!(hub.drain("a\u{202E}b", &id).is_empty());
    hub.route(peer, announce("", &id, 1, vec![vec![1; 64]]));
    assert!(hub.clone_sources("").is_err());
}

#[test]
fn hub_rejects_invalid_announced_names() {
    check_invalid_names();
}

#[test]
fn tests_rejects_invalid_announced_names() {
    check_invalid_names();
}

fn check_outbox() {
    let mut outbox = Outbox::new();
    let id = RepoId::generate();
    let other = RepoId::generate();

    outbox.push_announce(announce("a", &id, 1, vec![vec![1; 64]]));
    outbox.push_membership(no_membership());
    outbox.push_announce(announce("b", &other, 1, vec![vec![3; 64]]));
    outbox.push_announce(announce("a", &id, 2, vec![vec![2; 64]]));
    outbox.push_membership(no_membership());

    let sent: Vec<UniMessage> = std::iter::from_fn(|| outbox.pop()).collect();
    assert_eq!(sent.len(), 3);
    assert!(matches!(sent[0], UniMessage::Membership(_)));
    let seqs: Vec<(&str, u64)> = sent
        .iter()
        .filter_map(|message| match message {
            UniMessage::Announce(a) => Some((a.name.as_str(), a.seq)),
            UniMessage::Membership(_) | UniMessage::Status(_) => None,
        })
        .collect();
    assert!(seqs.contains(&("a", 2)) && seqs.contains(&("b", 1)));
}

#[test]
fn hub_outbox_coalesces_per_repo_with_membership_first() {
    check_outbox();
}

#[test]
fn tests_outbox_coalesces_per_repo_with_membership_first() {
    check_outbox();
}

#[test]
fn connecting_peers_are_told_everything() {
    let mut hub = SyncHub::new();
    let id = RepoId::generate();
    let peer = endpoint();
    hub.register_repo("a", id.duplicate());
    hub.register_repo("silent", RepoId::generate());
    hub.publish("a", &id, vec![vec![7; 64]]);
    hub.publish_status(report("1.0", vec![]));

    assert_eq!(hub.connection(&peer), None);
    assert_eq!(hub.peer_connected(peer, 5), None);
    assert_eq!(hub.connection(&peer), Some(5));
    assert!(matches!(hub.next_message(&peer, 5), Some(UniMessage::Membership(_))));
    let mut announced = Vec::new();
    let mut statuses = 0;
    while let Some(message) = hub.next_message(&peer, 5) {
        match message {
            UniMessage::Announce(a) => announced.push((a.name, a.seq, a.heads)),
            UniMessage::Status(_) => statuses += 1,
            UniMessage::Membership(_) => panic!("the membership is sent once"),
        }
    }
    assert_eq!(announced, vec![("a".to_owned(), 1, vec![vec![7; 64]])]);
    assert_eq!(statuses, 1);

    // Unregistering retracts what was announced, at a later sequence.
    hub.unregister_repo("a");
    match hub.next_message(&peer, 5) {
        Some(UniMessage::Announce(a)) => {
            assert_eq!((a.name.as_str(), a.seq, a.heads.len()), ("a", 2, 0));
        }
        _ => panic!("the retraction is announced"),
    }
    // A repo that was never announced is not retracted.
    hub.unregister_repo("silent");
    assert!(hub.next_message(&peer, 5).is_none());

    // A replaced connection gets nothing more.
    assert_eq!(hub.peer_connected(peer, 6), Some(5));
    assert!(hub.next_message(&peer, 5).is_none());
    assert!(hub.next_message(&peer, 6).is_some());
    assert_eq!(hub.peer_disconnected(&peer), Some(6));
    assert_eq!(hub.peer_disconnected(&peer), None);
}

#[test]
fn clone_sources_need_connected_agreeing_peers() {
    let mut hub = SyncHub::new();
    let id = RepoId::generate();
    let (a, b) = (endpoint(), endpoint());
    match hub.clone_sources("x") {
        Err(e) => {
            assert_eq!(e, CloneError::Nobody { name: "x".to_owned() });
            assert_eq!(
                e.message(),
                "no connected peer announces a repo named `x`; check that the other machine's daemon is running and the name is correct",
            );
        }
        Ok(_) => panic!("nobody announces it"),
    }
    hub.peer_connected(a, 1);
    assert_eq!(hub.route(a, announce("x", &id, 1, vec![vec![1; 64]])), Routed::Remembered);
    let (found, sources) = hub.clone_sources("x").unwrap();
    assert_eq!(found, id);
    assert_eq!(sources.len(), 1);
    assert_eq!(sources[0].peer, a);
    assert_eq!(sources[0].heads, vec![vec![1; 64]]);

    hub.peer_connected(b, 2);
    hub.route(b, announce("x", &RepoId::generate(), 1, vec![vec![2; 64]]));
    match hub.clone_sources("x") {
        Err(e) => assert_eq!(e, CloneError::Disagreement { name: "x".to_owned() }),
        Ok(_) => panic!("the peers disagree"),
    }
}

#[test]
fn fetches_are_served_within_bounds() {
    let mut hub = SyncHub::new();
    let id = RepoId::generate();
    let peer = endpoint();
    hub.register_repo("a", id.duplicate());
    assert_eq!(hub.begin_serve(&peer, "a", &id), FetchAnswer::Unavailable);
    hub.repo_opened("a", &id, 3, false);
    assert_eq!(hub.begin_serve(&peer, "a", &RepoId::generate()), FetchAnswer::Unavailable);
    for _ in 0..MAX_SERVES {
        assert_eq!(hub.begin_serve(&peer, "a", &id), FetchAnswer::Serve { handle: 3 });
    }
    assert_eq!(hub.begin_serve(&peer, "a", &id), FetchAnswer::Busy);
    hub.end_serve("a", &id, 3);
    assert_eq!(hub.begin_serve(&peer, "a", &id), FetchAnswer::Serve { handle: 3 });
    hub.repo_closed("a", &id);
    assert_eq!(hub.begin_serve(&peer, "a", &id), FetchAnswer::Unavailable);
}

#[test]
fn paused_repos_are_not_served_to_the_claiming_peer() {
    let mut hub = SyncHub::new();
    let id = RepoId::generate();
    let (claiming, other) = (endpoint(), endpoint());
    hub.register_repo("a", id.duplicate());
    hub.repo_opened("a", &id, 3, true);
    hub.route(
        claiming,
        Announce { colocated: true, ..announce("a", &id, 1, vec![vec![1; 64]]) },
    );
    assert_eq!(hub.begin_serve(&claiming, "a", &id), FetchAnswer::Unavailable);
    assert_eq!(hub.begin_serve(&other, "a", &id), FetchAnswer::Serve { handle: 3 });
}

#[test]
fn reports_are_kept_for_connected_peers_and_sanitized() {
    let mut hub = SyncHub::new();
    let peer = endpoint();
    hub.route_status(peer, report("1.0", vec![]));
    assert!(hub.peer_reports().is_empty());

    hub.peer_connected(peer, 1);
    hub.route_status(
        peer,
        report(
            "1\x1b.0",
            vec![
                RepoHealth { name: "ok".to_owned(), state: RepoHealthState::Missing },
                RepoHealth { name: "b\u{202E}d".to_owned(), state: RepoHealthState::Healthy },
            ],
        ),
    );
    let reports = hub.peer_reports();
    assert_eq!(reports.len(), 1);
    assert_eq!(reports[0].0, peer);
    assert_eq!(
        reports[0].1,
        report(
            "1?.0",
            vec![RepoHealth { name: "ok".to_owned(), state: RepoHealthState::Missing }],
        ),
    );
    hub.peer_disconnected(&peer);
    assert!(hub.peer_reports().is_empty());
}

#[test]
fn routing_tells_what_became_of_an_announcement() {
    let mut hub = SyncHub::new();
    let id = RepoId::generate();
    let peer = endpoint();
    assert_eq!(hub.route(peer, announce("", &id, 1, vec![])), Routed::InvalidName);
    assert_eq!(hub.route(peer, announce("a", &id, 1, vec![])), Routed::OrphanRetracted);
    hub.register_repo("a", id.duplicate());
    assert_eq!(hub.route(peer, announce("a", &id, 1, vec![vec![1; 64]])), Routed::Offered);
    let foreign = RepoId::generate();
    assert_eq!(
        hub.route(peer, announce("a", &foreign, 2, vec![vec![1; 64]])),
        Routed::Conflict { new: true },
    );
    assert_eq!(
        hub.route(peer, announce("a", &foreign, 3, vec![vec![1; 64]])),
        Routed::Conflict { new: false },
    );
    assert_eq!(hub.route(peer, announce("a", &id, 4, vec![])), Routed::Retracted);
    for n in 0..MAX_ORPHAN_REPOS_PER_PEER {
        hub.route(peer, announce(&format!("o{n}"), &id, 5, vec![vec![1; 64]]));
    }
    assert_eq!(
        hub.route(peer, announce("one-more", &id, 6, vec![vec![1; 64]])),
        Routed::TooManyOrphans,
    );
}

#[test]
fn forgotten_heads_are_not_put_back() {
    let mut hub = SyncHub::new();
    let id = RepoId::generate();
    hub.register_repo("a", id.duplicate());
    let peer = endpoint();
    hub.route(peer, announce("a", &id, 3, vec![vec![1; 64]]));
    assert_eq!(hub.drain("a", &id).len(), 1);

    hub.peer_disconnected(&peer);
    hub.requeue("a", &id, peer, 3, vec![vec![1; 64]]);
    assert!(hub.drain("a", &id).is_empty());

    // A restarted peer starts over: what it announces stands.
    hub.route(peer, announce("a", &id, 1, vec![vec![2; 64]]));
    hub.requeue("a", &id, peer, 3, vec![vec![1; 64]]);
    let drained = hub.drain("a", &id);
    assert_eq!(drained.len(), 1);
    assert_eq!(drained[0].heads, vec![vec![2; 64]]);
    hub.requeue("a", &id, peer, 3, vec![vec![1; 64]]);
    assert!(hub.drain("a", &id).is_empty());
}
