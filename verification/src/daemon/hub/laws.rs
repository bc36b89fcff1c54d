//! What holds of the hub across operations.

use vstd::prelude::*;

use super::inbox::{self, PeerAnnounceView, SlotView};
use super::orphans::{self, MAX_ORPHAN_REPOS_PER_PEER, OrphanMap, OrphanView};
use super::{HubView, MAX_SERVES, PeerSenderView, RepoEntryView, Routed};
use crate::net::endpoint::EndpointId;
use crate::net::sync::{AnnounceView, MessageView, StatusReportView};
use crate::order::Key;
use crate::sorted_map;

verus! {

/// What every hub keeps of a registered repo: contests only by other ids, a
/// sequence it has drawn, and no more fetches served than allowed.
pub open spec fn sound_entry(e: RepoEntryView, announce_seq: nat) -> bool {
    &&& e.inbox.dom().finite()
    &&& e.conflicts.dom().finite()
    &&& e.colocated_peers.dom().finite()
    &&& e.seq <= announce_seq
    &&& forall|peer: Seq<u8>| #[trigger]
        e.conflicts.contains_key(peer) ==> e.conflicts[peer] != e.id
    &&& e.serving is Some ==> e.serving->Some_0.active <= MAX_SERVES
}

/// What every hub keeps of its orphan announcements: no name without one, and
/// no peer over its cap.
pub open spec fn sound_orphans(orphans: OrphanMap) -> bool {
    &&& orphans.dom().finite()
    &&& forall|name: Seq<char>| #[trigger]
        orphans.contains_key(name) ==> orphans[name].dom().finite() && orphans[name] != Map::<
            Seq<u8>,
            OrphanView,
        >::empty()
    &&& forall|peer: Seq<u8>|
        (#[trigger] orphans::held_by(orphans, peer)).len() <= MAX_ORPHAN_REPOS_PER_PEER
}

/// What every hub keeps: sound repos, bounded orphans that no registered name
/// is among, and reports of connected peers only.
pub open spec fn sound(h: HubView) -> bool {
    &&& h.repos.dom().finite()
    &&& h.peers.dom().finite()
    &&& h.reports.dom().finite()
    &&& forall|name: Seq<char>| #[trigger]
        h.repos.contains_key(name) ==> sound_entry(h.repos[name], h.announce_seq)
    &&& sound_orphans(h.orphans)
    &&& forall|name: Seq<char>| #[trigger]
        h.repos.contains_key(name) ==> !h.orphans.contains_key(name)
    &&& forall|peer: Seq<u8>| #[trigger]
        h.reports.contains_key(peer) ==> h.peers.contains_key(peer)
}

proof fn lemma_reworked_finite<A, V, W>(m: Map<A, V>, f: spec_fn(A, V) -> Option<W>)
    requires
        m.dom().finite(),
    ensures
        sorted_map::reworked(m, f).dom().finite(),
        sorted_map::reworked(m, f).dom().subset_of(m.dom()),
{
    let r = sorted_map::reworked(m, f);
    assert forall|k: A| #[trigger] r.dom().contains(k) implies m.dom().contains(k) by {}
    vstd::set_lib::lemma_set_subset_finite(m.dom(), r.dom());
}

proof fn lemma_held_shrinks(before: OrphanMap, after: OrphanMap, peer: Seq<u8>)
    requires
        before.dom().finite(),
        forall|name: Seq<char>| #[trigger]
            after.contains_key(name) && after[name].contains_key(peer) ==> before.contains_key(name)
                && before[name].contains_key(peer),
    ensures
        orphans::held_by(after, peer).len() <= orphans::held_by(before, peer).len(),
{
    let a = orphans::held_by(after, peer);
    let b = orphans::held_by(before, peer);
    assert(b.subset_of(before.dom()));
    vstd::set_lib::lemma_set_subset_finite(before.dom(), b);
    assert forall|name: Seq<char>| #[trigger] a.contains(name) implies b.contains(name) by {
        assert(after.contains_key(name));
    }
    vstd::set_lib::lemma_len_subset(a, b);
}

/// Remembering an announcement keeps the orphans sound.
proof fn lemma_remembered_sound(
    orphans: OrphanMap,
    peer: Seq<u8>,
    name: Seq<char>,
    announce: OrphanView,
)
    requires
        sound_orphans(orphans),
    ensures
        sound_orphans(orphans::remembered(orphans, peer, name, announce)),
{
    let after = orphans::remembered(orphans, peer, name, announce);
    if orphans::has_room(orphans, peer, name) {
        let made = orphans::made_for(orphans, name).insert(peer, announce);
        assert(made.contains_key(peer));
        assert forall|n: Seq<char>| #[trigger] after.contains_key(n) implies after[n].dom().finite()
            && after[n] != Map::<Seq<u8>, OrphanView>::empty() by {
            if n == name {
                assert(after[n] == made);
            } else {
                assert(orphans.contains_key(n));
            }
        }
        assert forall|p: Seq<u8>| (#[trigger] orphans::held_by(after, p)).len()
            <= MAX_ORPHAN_REPOS_PER_PEER by {
            let old_held = orphans::held_by(orphans, p);
            let new_held = orphans::held_by(after, p);
            assert(old_held.len() <= MAX_ORPHAN_REPOS_PER_PEER);
            assert(old_held.subset_of(orphans.dom()));
            vstd::set_lib::lemma_set_subset_finite(orphans.dom(), old_held);
            if p == peer && !orphans::made_for(orphans, name).contains_key(peer) {
                assert(new_held =~= old_held.insert(name));
            } else {
                assert(new_held =~= old_held);
            }
        }
    }
}

/// Forgetting a peer's announcement keeps the orphans sound.
proof fn lemma_forgotten_sound(orphans: OrphanMap, name: Seq<char>, peer: Seq<u8>)
    requires
        sound_orphans(orphans),
    ensures
        sound_orphans(orphans::forgotten(orphans, name, peer)),
{
    let after = orphans::forgotten(orphans, name, peer);
    assert forall|n: Seq<char>| #[trigger] after.contains_key(n) implies after[n].dom().finite()
        && after[n] != Map::<Seq<u8>, OrphanView>::empty() by {
        assert(orphans.contains_key(n));
    }
    assert forall|p: Seq<u8>| (#[trigger] orphans::held_by(after, p)).len()
        <= MAX_ORPHAN_REPOS_PER_PEER by {
        assert(orphans::held_by(orphans, p).len() <= MAX_ORPHAN_REPOS_PER_PEER);
        lemma_held_shrinks(orphans, after, p);
    }
}

/// Forgetting a peer keeps the orphans sound.
proof fn lemma_forgotten_peer_sound(orphans: OrphanMap, peer: Seq<u8>)
    requires
        sound_orphans(orphans),
    ensures
        sound_orphans(orphans::forgotten_peer(orphans, peer)),
{
    let after = orphans::forgotten_peer(orphans, peer);
    lemma_reworked_finite(orphans, orphans::without_peer(peer));
    assert forall|n: Seq<char>| #[trigger] after.contains_key(n) implies after[n].dom().finite()
        && after[n] != Map::<Seq<u8>, OrphanView>::empty() by {
        assert(orphans.contains_key(n));
        assert(after[n] == orphans[n].remove(peer));
    }
    assert forall|p: Seq<u8>| (#[trigger] orphans::held_by(after, p)).len()
        <= MAX_ORPHAN_REPOS_PER_PEER by {
        assert(orphans::held_by(orphans, p).len() <= MAX_ORPHAN_REPOS_PER_PEER);
        lemma_held_shrinks(orphans, after, p);
    }
}

/// Taking a name's announcements keeps the orphans sound.
proof fn lemma_taken_sound(orphans: OrphanMap, name: Seq<char>)
    requires
        sound_orphans(orphans),
    ensures
        sound_orphans(orphans.remove(name)),
{
    let after = orphans.remove(name);
    assert forall|n: Seq<char>| #[trigger] after.contains_key(n) implies after[n].dom().finite()
        && after[n] != Map::<Seq<u8>, OrphanView>::empty() by {
        assert(orphans.contains_key(n));
    }
    assert forall|p: Seq<u8>| (#[trigger] orphans::held_by(after, p)).len()
        <= MAX_ORPHAN_REPOS_PER_PEER by {
        assert(orphans::held_by(orphans, p).len() <= MAX_ORPHAN_REPOS_PER_PEER);
        lemma_held_shrinks(orphans, after, p);
    }
}

/// Demoting announcements keeps the orphans sound, and touches one name only.
proof fn lemma_demoted_sound(
    orphans: OrphanMap,
    name: Seq<char>,
    id: Seq<char>,
    heads: Seq<(Seq<u8>, Seq<Seq<u8>>)>,
)
    requires
        sound_orphans(orphans),
    ensures
        sound_orphans(orphans::demoted(orphans, name, id, heads)),
        forall|n: Seq<char>|
            n != name ==> #[trigger] orphans::demoted(orphans, name, id, heads).contains_key(n)
                == orphans.contains_key(n),
    decreases heads.len(),
{
    if heads.len() > 0 {
        lemma_demoted_sound(orphans, name, id, heads.drop_last());
        lemma_remembered_sound(
            orphans::demoted(orphans, name, id, heads.drop_last()),
            heads.last().0,
            name,
            OrphanView { id, heads: heads.last().1 },
        );
    }
}

/// A new hub is sound.
pub proof fn new_hub_is_sound()
    ensures
        sound(super::empty_hub()),
{
    let orphans = Map::<Seq<char>, Map<Seq<u8>, OrphanView>>::empty();
    assert forall|peer: Seq<u8>| (#[trigger] orphans::held_by(orphans, peer)).len()
        <= MAX_ORPHAN_REPOS_PER_PEER by {
        assert(orphans::held_by(orphans, peer) =~= Set::empty());
    }
}

/// Registering a repo keeps the hub sound.
pub proof fn registering_keeps_it_sound(h: HubView, name: Seq<char>, id: Seq<char>)
    requires
        sound(h),
    ensures
        sound(super::registered(h, name, id)),
{
    let after = super::registered(h, name, id);
    lemma_taken_sound(h.orphans, name);
    let made = orphans::made_for(h.orphans, name);
    lemma_reworked_finite(made, super::contesting(id));
    assert forall|n: Seq<char>| #[trigger] after.repos.contains_key(n) implies sound_entry(
        after.repos[n],
        after.announce_seq,
    ) && !after.orphans.contains_key(n) by {
        if n != name {
            assert(h.repos.contains_key(n));
        }
    }
}

/// Unregistering a repo keeps the hub sound.
pub proof fn unregistering_keeps_it_sound(h: HubView, name: Seq<char>)
    requires
        sound(h),
    ensures
        sound(super::unregistered(h, name)),
{
    if h.repos.contains_key(name) {
        let e = h.repos[name];
        let after = super::unregistered(h, name);
        lemma_demoted_sound(h.orphans, name, e.id, inbox::last_heads(e.inbox));
        lemma_reworked_finite(
            h.peers,
            super::queueing(
                MessageView::Announce(super::retraction(name, e.id, h.announce_seq + 1)),
            ),
        );
        assert forall|n: Seq<char>| #[trigger] after.repos.contains_key(n) implies sound_entry(
            after.repos[n],
            after.announce_seq,
        ) && !after.orphans.contains_key(n) by {
            assert(h.repos.contains_key(n));
        }
    }
}

/// Publishing heads keeps the hub sound, and draws a sequence above every one
/// drawn before: an announcement always outranks its predecessors, across
/// repos and re-registrations.
pub proof fn publishing_keeps_it_sound(
    h: HubView,
    name: Seq<char>,
    id: Seq<char>,
    heads: Seq<Seq<u8>>,
)
    requires
        sound(h),
    ensures
        sound(super::published(h, name, id, heads)),
        super::holds(h, name, id) ==> {
            let after = super::published(h, name, id, heads);
            forall|n: Seq<char>| #[trigger]
                h.repos.contains_key(n) ==> h.repos[n].seq < after.repos[name].seq
        },
{
    if super::holds(h, name, id) {
        let after = super::published(h, name, id, heads);
        lemma_reworked_finite(
            h.peers,
            super::queueing(
                MessageView::Announce(super::announcement(name, after.repos[name])),
            ),
        );
        assert forall|n: Seq<char>| #[trigger] after.repos.contains_key(n) implies sound_entry(
            after.repos[n],
            after.announce_seq,
        ) && !after.orphans.contains_key(n) by {
            assert(h.repos.contains_key(n));
        }
    }
}

/// A connecting peer keeps the hub sound.
pub proof fn connecting_keeps_it_sound(h: HubView, peer: Seq<u8>, sender: PeerSenderView)
    requires
        sound(h),
    ensures
        sound(HubView { peers: h.peers.insert(peer, sender), ..h }),
{
}

/// A leaving peer keeps the hub sound, and nothing attributed to it stays: no
/// slot, no conflict, no colocation claim, no orphan, no report, no queue.
pub proof fn disconnecting_releases_everything(h: HubView, peer: Seq<u8>)
    requires
        sound(h),
    ensures
        ({
            let after = super::disconnected(h, peer);
            &&& sound(after)
            &&& !after.peers.contains_key(peer)
            &&& !after.reports.contains_key(peer)
            &&& forall|name: Seq<char>| #[trigger]
                after.repos.contains_key(name) ==> {
                    &&& !after.repos[name].inbox.contains_key(peer)
                    &&& !after.repos[name].conflicts.contains_key(peer)
                    &&& !after.repos[name].colocated_peers.contains_key(peer)
                }
            &&& forall|name: Seq<char>| #[trigger]
                after.orphans.contains_key(name) ==> !after.orphans[name].contains_key(peer)
        }),
{
    let after = super::disconnected(h, peer);
    lemma_reworked_finite(h.repos, super::releasing(peer));
    lemma_forgotten_peer_sound(h.orphans, peer);
    assert forall|n: Seq<char>| #[trigger] after.repos.contains_key(n) implies sound_entry(
        after.repos[n],
        after.announce_seq,
    ) && !after.orphans.contains_key(n) by {
        assert(h.repos.contains_key(n));
        let e = h.repos[n];
        let f = after.repos[n];
        assert forall|p: Seq<u8>| #[trigger] f.conflicts.contains_key(p) implies f.conflicts[p]
            != f.id by {
            assert(e.conflicts.contains_key(p));
        }
    }
}

/// Routing an announcement keeps the hub sound, whatever the peer sends.
pub proof fn routing_keeps_it_sound(h: HubView, peer: Seq<u8>, a: AnnounceView)
    requires
        sound(h),
    ensures
        sound(super::routed(h, peer, a)),
{
    let after = super::routed(h, peer, a);
    if crate::config::name::valid_name(a.name) && !h.repos.contains_key(a.name) {
        lemma_forgotten_sound(h.orphans, a.name, peer);
        lemma_remembered_sound(
            h.orphans,
            peer,
            a.name,
            OrphanView { id: a.id, heads: a.heads },
        );
        assert forall|n: Seq<char>| #[trigger]
            after.repos.contains_key(n) implies !after.orphans.contains_key(n) by {
            assert(n != a.name);
        }
    } else if crate::config::name::valid_name(a.name) {
        let e = h.repos[a.name];
        let f = super::announced_entry(e, peer, a);
        assert forall|p: Seq<u8>| #[trigger] f.conflicts.contains_key(p) implies f.conflicts[p]
            != f.id by {
            if p != peer {
                assert(e.conflicts.contains_key(p));
            }
        }
        assert forall|n: Seq<char>| #[trigger] after.repos.contains_key(n) implies sound_entry(
            after.repos[n],
            after.announce_seq,
        ) && !after.orphans.contains_key(n) by {
            assert(h.repos.contains_key(n));
        }
    }
}

/// A report keeps the hub sound.
pub proof fn reporting_keeps_it_sound(h: HubView, peer: Seq<u8>, report: StatusReportView)
    requires
        sound(h),
        h.peers.contains_key(peer),
    ensures
        sound(HubView { reports: h.reports.insert(peer, super::shown_report(report)), ..h }),
{
}

/// Serving a fetch keeps the hub sound: never more at once than allowed.
pub proof fn serving_keeps_it_sound(
    h: HubView,
    peer: Seq<u8>,
    name: Seq<char>,
    id: Seq<char>,
)
    requires
        sound(h),
        super::fetch_answer(h, peer, name, id) is Serve,
    ensures
        ({
            let serving = h.repos[name].serving->Some_0;
            sound(
                super::with_serving(
                    h,
                    name,
                    Some(
                        super::Serving {
                            handle: serving.handle,
                            active: (serving.active + 1) as usize,
                        },
                    ),
                ),
            )
        }),
{
    let serving = h.repos[name].serving->Some_0;
    let after = super::with_serving(
        h,
        name,
        Some(super::Serving { handle: serving.handle, active: (serving.active + 1) as usize }),
    );
    assert forall|n: Seq<char>| #[trigger] after.repos.contains_key(n) implies sound_entry(
        after.repos[n],
        after.announce_seq,
    ) && !after.orphans.contains_key(n) by {
        assert(h.repos.contains_key(n));
    }
}

/// An announcement no newer than the peer's last changes nothing that is
/// synced: stale state never wins.
pub proof fn stale_announcements_change_nothing(h: HubView, peer: Seq<u8>, a: AnnounceView)
    requires
        h.repos.contains_key(a.name),
        inbox::stale(h.repos[a.name].inbox, peer, a.seq),
    ensures
        ({
            let e = h.repos[a.name];
            let f = super::routed(h, peer, a).repos[a.name];
            &&& f.inbox == e.inbox
            &&& f.published == e.published
            &&& f.colocated_peers != e.colocated_peers ==> a.heads.len() == 0 || a.id != e.id
        }),
{
}

/// A repo announced under a registered name with another id is never synced:
/// it is surfaced as a conflict and its heads go nowhere.
pub proof fn conflicts_are_never_synced(h: HubView, peer: Seq<u8>, a: AnnounceView)
    requires
        crate::config::name::valid_name(a.name),
        h.repos.contains_key(a.name),
        h.repos[a.name].id != a.id,
        a.heads.len() > 0,
    ensures
        super::routing(h, peer, a) is Conflict,
        super::routed(h, peer, a).repos[a.name].inbox == h.repos[a.name].inbox,
        super::routed(h, peer, a).repos[a.name].conflicts.contains_key(peer),
        super::routed(h, peer, a).orphans == h.orphans,
{
}

/// A newer announcement of the matching id resumes sync and resolves the
/// peer's conflict.
pub proof fn matching_announcements_resolve_conflicts(
    h: HubView,
    peer: Seq<u8>,
    a: AnnounceView,
)
    requires
        crate::config::name::valid_name(a.name),
        super::holds(h, a.name, a.id),
        a.heads.len() > 0,
        !inbox::stale(h.repos[a.name].inbox, peer, a.seq),
    ensures
        super::routing(h, peer, a) == Routed::Offered,
        !super::routed(h, peer, a).repos[a.name].conflicts.contains_key(peer),
        super::routed(h, peer, a).repos[a.name].inbox[peer] == (SlotView {
            seq: a.seq,
            heads: a.heads,
            drained: false,
        }),
{
}

/// A retraction releases everything attributed to the peer for the name, while
/// its watermark keeps older announcements out.
pub proof fn retractions_release_the_peer(h: HubView, peer: Seq<u8>, a: AnnounceView)
    requires
        crate::config::name::valid_name(a.name),
        h.repos.contains_key(a.name),
        a.heads.len() == 0,
        !inbox::stale(h.repos[a.name].inbox, peer, a.seq),
    ensures
        ({
            let f = super::routed(h, peer, a).repos[a.name];
            &&& !f.conflicts.contains_key(peer)
            &&& !f.colocated_peers.contains_key(peer)
            &&& f.inbox[peer].heads.len() == 0
            &&& f.inbox[peer].drained
            &&& forall|seq: nat| seq <= a.seq ==> #[trigger] inbox::stale(f.inbox, peer, seq)
            &&& forall|seq: nat| seq > a.seq ==> !#[trigger] inbox::stale(f.inbox, peer, seq)
        }),
{
}

/// A peer's watermark never drops while it is connected.
pub proof fn watermarks_only_advance(
    slots: Map<Seq<u8>, SlotView>,
    peer: Seq<u8>,
    other: Seq<u8>,
    seq: nat,
    heads: Seq<Seq<u8>>,
)
    requires
        slots.contains_key(peer),
    ensures
        inbox::offered(slots, other, seq, heads)[peer].seq >= slots[peer].seq,
        inbox::retracted(slots, other, seq)[peer].seq >= slots[peer].seq,
        inbox::drained(slots)[peer].seq == slots[peer].seq,
        inbox::requeued(slots, other, seq, heads)[peer].seq == slots[peer].seq,
{
}

proof fn lemma_nothing_pending(list: Seq<(Seq<u8>, SlotView)>)
    requires
        forall|i: int| 0 <= i < list.len() ==> (#[trigger] list[i]).1.drained,
    ensures
        sorted_map::kept(list, inbox::pending()).len() == 0,
    decreases list.len(),
{
    if list.len() > 0 {
        let rest = list.drop_last();
        assert forall|i: int| 0 <= i < rest.len() implies (#[trigger] rest[i]).1.drained by {
            assert(rest[i] == list[i]);
        }
        lemma_nothing_pending(rest);
        assert(list[list.len() - 1] == list.last());
    }
}

/// An announcement is handed out once: a second drain finds nothing.
pub proof fn draining_twice_finds_nothing(slots: Map<Seq<u8>, SlotView>)
    requires
        slots.dom().finite(),
    ensures
        inbox::undrained(inbox::drained(slots)).len() == 0,
        inbox::drained(inbox::drained(slots)) == inbox::drained(slots),
{
    let once = inbox::drained(slots);
    lemma_reworked_finite(slots, inbox::mark_drained());
    sorted_map::lemma_listing_exists::<EndpointId, SlotView>(once);
    let list = sorted_map::listing::<EndpointId, SlotView>(once);
    assert forall|i: int| 0 <= i < list.len() implies (#[trigger] list[i]).1.drained by {
        assert(once.contains_key(list[i].0));
    }
    lemma_nothing_pending(list);
    assert(inbox::drained(once) =~= once);
}

proof fn lemma_pending_listed(list: Seq<(Seq<u8>, SlotView)>, i: int)
    requires
        0 <= i < list.len(),
        !list[i].1.drained,
    ensures
        sorted_map::kept(list, inbox::pending()).contains(
            (
                list[i].0,
                PeerAnnounceView { peer: list[i].0, seq: list[i].1.seq, heads: list[i].1.heads },
            ),
        ),
    decreases list.len(),
{
    let entry = (
        list[i].0,
        PeerAnnounceView { peer: list[i].0, seq: list[i].1.seq, heads: list[i].1.heads },
    );
    let rest = sorted_map::kept(list.drop_last(), inbox::pending());
    let all = sorted_map::kept(list, inbox::pending());
    if i == list.len() - 1 {
        assert(all[all.len() - 1] == entry);
    } else {
        assert(list.drop_last()[i] == list[i]);
        lemma_pending_listed(list.drop_last(), i);
        let j = choose|j: int| 0 <= j < rest.len() && rest[j] == entry;
        assert(all[j] == entry);
    }
}

/// What a peer announces reaches the repo task: a newer announcement is among
/// what the next drain hands out.
pub proof fn offers_are_handed_out(
    slots: Map<Seq<u8>, SlotView>,
    peer: Seq<u8>,
    seq: nat,
    heads: Seq<Seq<u8>>,
)
    requires
        slots.dom().finite(),
        !inbox::stale(slots, peer, seq),
    ensures
        inbox::undrained(inbox::offered(slots, peer, seq, heads)).contains(
            (peer, PeerAnnounceView { peer, seq, heads }),
        ),
{
    let after = inbox::offered(slots, peer, seq, heads);
    sorted_map::lemma_listing_exists::<EndpointId, SlotView>(after);
    let list = sorted_map::listing::<EndpointId, SlotView>(after);
    assert(after.contains_key(peer));
    let i = choose|i: int| 0 <= i < list.len() && (#[trigger] list[i]).0 == peer;
    lemma_pending_listed(list, i);
}

/// Putting back what was just drained restores it, so a failed fetch is
/// retried.
pub proof fn requeueing_undoes_a_drain(slots: Map<Seq<u8>, SlotView>, peer: Seq<u8>)
    requires
        slots.contains_key(peer),
        !slots[peer].drained,
    ensures
        inbox::requeued(inbox::drained(slots), peer, slots[peer].seq, slots[peer].heads)[peer]
            == slots[peer],
{
}

/// A newer announcement supersedes what would be put back.
pub proof fn requeueing_never_clobbers(
    slots: Map<Seq<u8>, SlotView>,
    peer: Seq<u8>,
    seq: nat,
    heads: Seq<Seq<u8>>,
    newer: nat,
    newer_heads: Seq<Seq<u8>>,
)
    requires
        seq < newer,
        !inbox::stale(slots, peer, newer),
    ensures
        inbox::requeued(
            inbox::offered(slots, peer, newer, newer_heads),
            peer,
            seq,
            heads,
        ) == inbox::offered(slots, peer, newer, newer_heads),
{
}

/// Once a peer's slot is dropped with its connection, nothing is put back: not
/// while the slot is missing, not over what a fresh connection announced, and,
/// unless that came under the same sequence, not once it was drained either.
pub proof fn requeueing_never_resurrects(
    slots: Map<Seq<u8>, SlotView>,
    peer: Seq<u8>,
    seq: nat,
    heads: Seq<Seq<u8>>,
    fresh: nat,
    fresh_heads: Seq<Seq<u8>>,
)
    ensures
        ({
            let dropped = slots.remove(peer);
            let again = inbox::offered(dropped, peer, fresh, fresh_heads);
            let handled = inbox::drained(again);
            &&& inbox::requeued(dropped, peer, seq, heads) == dropped
            &&& inbox::requeued(again, peer, seq, heads) == again
            &&& fresh != seq ==> inbox::requeued(handled, peer, seq, heads) == handled
        }),
{
}

proof fn lemma_demoted_keeps_others(
    orphans: OrphanMap,
    name: Seq<char>,
    id: Seq<char>,
    heads: Seq<(Seq<u8>, Seq<Seq<u8>>)>,
    peer: Seq<u8>,
)
    requires
        forall|i: int| 0 <= i < heads.len() ==> (#[trigger] heads[i]).0 != peer,
    ensures
        orphans::made_for(orphans::demoted(orphans, name, id, heads), name).contains_key(peer)
            == orphans::made_for(orphans, name).contains_key(peer),
        orphans::held_by(orphans::demoted(orphans, name, id, heads), peer) == orphans::held_by(
            orphans,
            peer,
        ),
    decreases heads.len(),
{
    if heads.len() > 0 {
        let rest = heads.drop_last();
        assert forall|i: int| 0 <= i < rest.len() implies (#[trigger] rest[i]).0 != peer by {
            assert(rest[i] == heads[i]);
        }
        lemma_demoted_keeps_others(orphans, name, id, rest, peer);
        let mid = orphans::demoted(orphans, name, id, rest);
        let end = orphans::demoted(orphans, name, id, heads);
        assert(heads[heads.len() - 1] == heads.last());
        assert(orphans::held_by(end, peer) =~= orphans::held_by(mid, peer));
    }
}

proof fn lemma_demoted_holds(
    orphans: OrphanMap,
    name: Seq<char>,
    id: Seq<char>,
    heads: Seq<(Seq<u8>, Seq<Seq<u8>>)>,
    at: int,
)
    requires
        0 <= at < heads.len(),
        forall|i: int, j: int|
            0 <= i < j < heads.len() ==> (#[trigger] heads[i]).0 != (#[trigger] heads[j]).0,
        orphans::held_by(orphans, heads[at].0).len() < MAX_ORPHAN_REPOS_PER_PEER,
    ensures
        ({
            let made = orphans::made_for(orphans::demoted(orphans, name, id, heads), name);
            &&& made.contains_key(heads[at].0)
            &&& made[heads[at].0] == OrphanView { id, heads: heads[at].1 }
        }),
    decreases heads.len(),
{
    let rest = heads.drop_last();
    let peer = heads[at].0;
    assert forall|i: int, j: int| 0 <= i < j < rest.len() implies (#[trigger] rest[i]).0 != (
    #[trigger] rest[j]).0 by {
        assert(heads[i].0 != heads[j].0);
    }
    if at == heads.len() - 1 {
        assert forall|i: int| 0 <= i < rest.len() implies (#[trigger] rest[i]).0 != peer by {
            assert(heads[i].0 != heads[at].0);
        }
        lemma_demoted_keeps_others(orphans, name, id, rest, peer);
    } else {
        assert(rest[at] == heads[at]);
        lemma_demoted_holds(orphans, name, id, rest, at);
        assert(heads[at].0 != heads[heads.len() - 1].0);
    }
}

proof fn lemma_kept_keys<V, W>(
    list: Seq<(Seq<u8>, V)>,
    f: spec_fn(Seq<u8>, V) -> Option<W>,
)
    requires
        forall|i: int, j: int|
            0 <= i < j < list.len() ==> (#[trigger] list[i]).0 != (#[trigger] list[j]).0,
    ensures
        ({
            let k = sorted_map::kept(list, f);
            &&& forall|i: int, j: int|
                0 <= i < j < k.len() ==> (#[trigger] k[i]).0 != (#[trigger] k[j]).0
            &&& forall|i: int|
                0 <= i < k.len() ==> exists|j: int|
                    0 <= j < list.len() && (#[trigger] list[j]).0 == (#[trigger] k[i]).0
            &&& forall|j: int|
                0 <= j < list.len() && f((#[trigger] list[j]).0, list[j].1) is Some ==> exists|
                    i: int,
                |
                    0 <= i < k.len() && #[trigger] k[i] == (
                        list[j].0,
                        f(list[j].0, list[j].1)->Some_0,
                    )
        }),
    decreases list.len(),
{
    if list.len() > 0 {
        let rest = list.drop_last();
        let last = list.last();
        assert forall|i: int, j: int| 0 <= i < j < rest.len() implies (#[trigger] rest[i]).0 != (
        #[trigger] rest[j]).0 by {
            assert(list[i].0 != list[j].0);
        }
        lemma_kept_keys(rest, f);
        let kr = sorted_map::kept(rest, f);
        let k = sorted_map::kept(list, f);
        assert(list[list.len() - 1] == last);
        assert forall|i: int| 0 <= i < k.len() implies exists|j: int|
            0 <= j < list.len() && (#[trigger] list[j]).0 == (#[trigger] k[i]).0 by {
            if i < kr.len() {
                assert(k[i] == kr[i]);
                let j = choose|j: int| 0 <= j < rest.len() && (#[trigger] rest[j]).0 == kr[i].0;
                assert(list[j].0 == k[i].0);
            } else {
                assert(list[list.len() - 1].0 == k[i].0);
            }
        }
        assert forall|i: int, j: int| 0 <= i < j < k.len() implies (#[trigger] k[i]).0 != (
        #[trigger] k[j]).0 by {
            if j < kr.len() {
                assert(k[i] == kr[i] && k[j] == kr[j]);
            } else {
                assert(k[i] == kr[i]);
                let m = choose|m: int| 0 <= m < rest.len() && (#[trigger] rest[m]).0 == kr[i].0;
                assert(list[m].0 != list[list.len() - 1].0);
            }
        }
        assert forall|j: int| 0 <= j < list.len() && f((#[trigger] list[j]).0, list[j].1)
            is Some implies exists|i: int|
            0 <= i < k.len() && #[trigger] k[i] == (
                list[j].0,
                f(list[j].0, list[j].1)->Some_0,
            ) by {
            if j < rest.len() {
                assert(rest[j] == list[j]);
                let i = choose|i: int|
                    0 <= i < kr.len() && #[trigger] kr[i] == (
                        rest[j].0,
                        f(rest[j].0, rest[j].1)->Some_0,
                    );
                assert(k[i] == kr[i]);
            } else {
                assert(k[k.len() - 1] == (last.0, f(last.0, last.1)->Some_0));
            }
        }
    }
}

/// A repo unregistered here stays clonable: the last heads of every peer that
/// still holds it are remembered, unless that peer is over its cap.
pub proof fn unregistered_repos_stay_clonable(h: HubView, name: Seq<char>, peer: Seq<u8>)
    requires
        sound(h),
        h.repos.contains_key(name),
        h.repos[name].inbox.contains_key(peer),
        h.repos[name].inbox[peer].heads.len() > 0,
        orphans::held_by(h.orphans, peer).len() < MAX_ORPHAN_REPOS_PER_PEER,
    ensures
        ({
            let after = super::unregistered(h, name);
            let e = h.repos[name];
            &&& orphans::made_for(after.orphans, name).contains_key(peer)
            &&& orphans::made_for(after.orphans, name)[peer] == OrphanView {
                id: e.id,
                heads: e.inbox[peer].heads,
            }
        }),
{
    let e = h.repos[name];
    sorted_map::lemma_listing_exists::<EndpointId, SlotView>(e.inbox);
    let list = sorted_map::listing::<EndpointId, SlotView>(e.inbox);
    assert forall|i: int, j: int| 0 <= i < j < list.len() implies (#[trigger] list[i]).0 != (
    #[trigger] list[j]).0 by {
        assert(<EndpointId as Key>::before(list[i].0, list[j].0));
        <EndpointId as Key>::irreflexive(list[i].0);
    }
    lemma_kept_keys(list, inbox::known_heads());
    let heads = inbox::last_heads(e.inbox);
    let j = choose|j: int| 0 <= j < list.len() && (#[trigger] list[j]).0 == peer;
    let f = inbox::known_heads();
    assert(f(list[j].0, list[j].1) is Some);
    let at = choose|i: int|
        0 <= i < heads.len() && #[trigger] heads[i] == (
            list[j].0,
            f(list[j].0, list[j].1)->Some_0,
        );
    lemma_demoted_holds(h.orphans, name, e.id, heads, at);
}

/// A paused repo resumes once no peer claims a colocated instance: when the
/// last one disconnects, retracts, or announces it gave it up.
pub proof fn pauses_lift_with_the_last_claim(h: HubView, name: Seq<char>, peer: Seq<u8>, a: AnnounceView)
    requires
        sound(h),
        super::paused(h, name),
        forall|p: Seq<u8>| #[trigger]
            h.repos[name].colocated_peers.contains_key(p) ==> p == peer,
        crate::config::name::valid_name(name),
        a.name == name,
        !inbox::stale(h.repos[name].inbox, peer, a.seq),
        a.heads.len() == 0 || !a.colocated,
    ensures
        !super::paused(super::disconnected(h, peer), name),
        !super::paused(super::routed(h, peer, a), name),
{
    let e = h.repos[name];
    let none = Set::<Seq<u8>>::empty();
    assert(e.colocated_peers.remove(peer).dom() =~= none);
    let left = super::disconnected(h, peer).repos[name].colocated_peers;
    assert(left.dom() =~= none);
    let told = super::routed(h, peer, a).repos[name].colocated_peers;
    assert(told.dom() =~= none);
}

/// A fetch is only ever served from the repo it asked for, and never to a peer
/// whose colocation claim pauses it.
pub proof fn fetches_never_mix_repos(
    h: HubView,
    peer: Seq<u8>,
    name: Seq<char>,
    id: Seq<char>,
)
    requires
        super::fetch_answer(h, peer, name, id) is Serve,
    ensures
        super::holds(h, name, id),
        !(h.repos[name].local_colocated && h.repos[name].colocated_peers.contains_key(peer)),
{
}

} // verus!
