//! What aligning the managed peers with the mesh state achieves.

use vstd::prelude::*;

use super::{HandleView, Managed, PeerSetView, PeerStateView, StartView};
use crate::config::state::membership::Record;
use crate::daemon::hub::HubView;
use crate::net::endpoint::EndpointId;
use crate::sorted_map;

verus! {

/// Whether the managed peers are exactly the alive ones, under their names.
pub open spec fn aligned(
    peers: Map<Seq<u8>, HandleView>,
    target: Map<Seq<u8>, Record>,
) -> bool {
    &&& forall|peer: Seq<u8>| #[trigger]
        peers.contains_key(peer) <==> crate::config::state::paired_as(target, peer) is Some
    &&& forall|peer: Seq<u8>| #[trigger]
        peers.contains_key(peer) ==> crate::config::state::paired_as(target, peer) == Some(
            peers[peer].name,
        )
}

/// Whether a list is taken from the alive peers.
spec fn listed(list: Seq<(Seq<u8>, Seq<char>)>, target: Map<Seq<u8>, Record>) -> bool {
    forall|i: int|
        0 <= i < list.len() ==> crate::config::state::paired_as(target, (#[trigger] list[i]).0)
            == Some(list[i].1)
}

proof fn lemma_in_use(list: Seq<(Seq<u8>, Record)>, peer: Seq<u8>, name: Seq<char>)
    ensures
        (exists|i: int|
            0 <= i < list.len() && (#[trigger] list[i]).0 == peer && list[i].1.payload == Some(
                name,
            )) <==> exists|i: int|
            0 <= i < crate::config::state::in_use(list).len()
                && #[trigger] crate::config::state::in_use(list)[i] == (peer, name),
    decreases list.len(),
{
    if list.len() > 0 {
        let rest = list.drop_last();
        lemma_in_use(rest, peer, name);
        let shorter = crate::config::state::in_use(rest);
        let longer = crate::config::state::in_use(list);
        if exists|i: int|
            0 <= i < list.len() && (#[trigger] list[i]).0 == peer && list[i].1.payload == Some(
                name,
            ) {
            let i = choose|i: int|
                0 <= i < list.len() && (#[trigger] list[i]).0 == peer && list[i].1.payload == Some(
                    name,
                );
            if i < rest.len() {
                assert(rest[i] == list[i]);
                let j = choose|j: int|
                    0 <= j < shorter.len() && #[trigger] shorter[j] == (peer, name);
                assert(longer[j] == (peer, name));
            } else {
                assert(longer[longer.len() - 1] == (peer, name));
            }
        }
        if exists|i: int| 0 <= i < longer.len() && #[trigger] longer[i] == (peer, name) {
            let i = choose|i: int| 0 <= i < longer.len() && #[trigger] longer[i] == (peer, name);
            if i < shorter.len() {
                assert(shorter[i] == (peer, name));
                let j = choose|j: int|
                    0 <= j < rest.len() && (#[trigger] rest[j]).0 == peer && rest[j].1.payload
                        == Some(name);
                assert(list[j] == rest[j]);
            } else {
                assert(list[list.len() - 1] == list.last());
            }
        }
    }
}

/// The alive listing holds the alive peers, and no others.
proof fn lemma_alive(target: Map<Seq<u8>, Record>)
    requires
        target.dom().finite(),
    ensures
        listed(crate::config::state::alive_listing(target), target),
        forall|peer: Seq<u8>|
            (#[trigger] crate::config::state::paired_as(target, peer)) is Some ==> exists|i: int|
                0 <= i < crate::config::state::alive_listing(target).len() && (
                #[trigger] crate::config::state::alive_listing(target)[i]).0 == peer,
{
    let records = sorted_map::listing::<EndpointId, Record>(target);
    let alive = crate::config::state::alive_listing(target);
    sorted_map::lemma_listing_exists::<EndpointId, Record>(target);
    assert forall|i: int| 0 <= i < alive.len() implies crate::config::state::paired_as(
        target,
        (#[trigger] alive[i]).0,
    ) == Some(alive[i].1) by {
        lemma_in_use(records, alive[i].0, alive[i].1);
        assert(alive[i] == (alive[i].0, alive[i].1));
        let j = choose|j: int|
            0 <= j < records.len() && (#[trigger] records[j]).0 == alive[i].0
                && records[j].1.payload == Some(alive[i].1);
        assert(target.contains_key(records[j].0));
    }
    assert forall|peer: Seq<u8>|
        (#[trigger] crate::config::state::paired_as(target, peer)) is Some implies exists|i: int|
        0 <= i < alive.len() && (#[trigger] alive[i]).0 == peer by {
        let name = crate::config::state::paired_as(target, peer)->Some_0;
        let j = choose|j: int| 0 <= j < records.len() && (#[trigger] records[j]).0 == peer;
        lemma_in_use(records, peer, name);
        let i = choose|i: int| 0 <= i < alive.len() && #[trigger] alive[i] == (peer, name);
        assert(alive[i].0 == peer);
    }
}

/// What disconnecting peers leaves in the hub.
pub proof fn lemma_disconnected_all(h: HubView, gone: Seq<(Seq<u8>, u64)>, peer: Seq<u8>)
    ensures
        ({
            let after = super::disconnected_all(h, gone);
            &&& after.peers.contains_key(peer) <==> h.peers.contains_key(peer) && forall|i: int|
                0 <= i < gone.len() ==> (#[trigger] gone[i]).0 != peer
            &&& after.peers.contains_key(peer) ==> after.peers[peer] == h.peers[peer]
            &&& after.membership == h.membership
            &&& after.announce_seq == h.announce_seq
            &&& after.repos.dom() == h.repos.dom()
            &&& forall|name: Seq<char>| #[trigger]
                h.repos.contains_key(name) ==> after.repos[name].id == h.repos[name].id
        }),
    decreases gone.len(),
{
    if gone.len() > 0 {
        let rest = gone.drop_last();
        lemma_disconnected_all(h, rest, peer);
        assert(forall|i: int| 0 <= i < rest.len() ==> #[trigger] rest[i] == gone[i]);
        let before = super::disconnected_all(h, rest);
        let after = super::disconnected_all(h, gone);
        if forall|i: int| 0 <= i < rest.len() ==> (#[trigger] rest[i]).0 != peer {
            if gone.last().0 != peer {
                assert forall|i: int| 0 <= i < gone.len() implies (#[trigger] gone[i]).0
                    != peer by {
                    if i < rest.len() {
                        assert(rest[i].0 != peer);
                    }
                }
            } else {
                assert(gone[gone.len() - 1].0 == peer);
            }
        } else {
            let i = choose|i: int| 0 <= i < rest.len() && (#[trigger] rest[i]).0 == peer;
            assert(gone[i].0 == peer);
        }
        assert(after.repos.dom() =~= before.repos.dom());
        assert forall|name: Seq<char>| #[trigger] h.repos.contains_key(
            name,
        ) implies after.repos[name].id == h.repos[name].id by {
            assert(before.repos.contains_key(name));
        }
    }
}

proof fn lemma_manage_all(
    m: Managed,
    list: Seq<(Seq<u8>, Seq<char>)>,
    target: Map<Seq<u8>, Record>,
)
    requires
        listed(list, target),
        forall|peer: Seq<u8>| #[trigger]
            m.peers.contains_key(peer) ==> crate::config::state::paired_as(target, peer) == Some(
                m.peers[peer].name,
            ),
    ensures
        ({
            let after = super::manage_all(m, list);
            &&& forall|peer: Seq<u8>| #[trigger]
                after.peers.contains_key(peer) ==> crate::config::state::paired_as(target, peer)
                    == Some(after.peers[peer].name)
            &&& forall|i: int|
                0 <= i < list.len() ==> after.peers.contains_key((#[trigger] list[i]).0)
            &&& forall|peer: Seq<u8>| #[trigger]
                m.peers.contains_key(peer) ==> after.peers.contains_key(peer) && after.peers[peer]
                    == m.peers[peer]
        }),
    decreases list.len(),
{
    if list.len() > 0 {
        let rest = list.drop_last();
        assert(forall|i: int| 0 <= i < rest.len() ==> #[trigger] rest[i] == list[i]);
        lemma_manage_all(m, rest, target);
        let after = super::manage_all(m, list);
        assert(list[list.len() - 1] == list.last());
        assert forall|i: int| 0 <= i < list.len() implies after.peers.contains_key(
            (#[trigger] list[i]).0,
        ) by {
            if i < rest.len() {
                assert(rest[i] == list[i]);
            }
        }
    }
}

/// A peer taken in gets a number of its own, and a task to start under it.
proof fn lemma_manage_fresh(
    m: Managed,
    list: Seq<(Seq<u8>, Seq<char>)>,
    peer: Seq<u8>,
    name: Seq<char>,
    target: Map<Seq<u8>, Record>,
)
    requires
        listed(list, target),
        crate::config::state::paired_as(target, peer) == Some(name),
        !m.peers.contains_key(peer),
        m.next_task + list.len() <= u64::MAX,
    ensures
        ({
            let after = super::manage_all(m, list);
            &&& m.next_task <= after.next_task <= m.next_task + list.len()
            &&& after.peers.contains_key(peer) <==> exists|i: int|
                0 <= i < list.len() && (#[trigger] list[i]).0 == peer
            &&& after.peers.contains_key(peer) ==> {
                &&& after.peers[peer].name == name
                &&& after.peers[peer].state == PeerStateView::Connecting { failures: 0 }
                &&& m.next_task <= after.peers[peer].task < after.next_task
                &&& after.started.contains(
                    StartView { endpoint: peer, name, task: after.peers[peer].task },
                )
            }
        }),
    decreases list.len(),
{
    if list.len() > 0 {
        let rest = list.drop_last();
        let last = list.last();
        assert(forall|i: int| 0 <= i < rest.len() ==> #[trigger] rest[i] == list[i]);
        assert(list[list.len() - 1] == last);
        lemma_manage_fresh(m, rest, peer, name, target);
        let mid = super::manage_all(m, rest);
        let after = super::manage_all(m, list);
        if mid.peers.contains_key(peer) {
            let i = choose|i: int| 0 <= i < rest.len() && (#[trigger] rest[i]).0 == peer;
            assert(list[i].0 == peer);
            let start = StartView { endpoint: peer, name, task: mid.peers[peer].task };
            let j = choose|j: int| 0 <= j < mid.started.len() && mid.started[j] == start;
            assert(after.started[j] == start);
        } else if last.0 == peer {
            assert(after.started[after.started.len() - 1] == StartView {
                endpoint: peer,
                name,
                task: after.peers[peer].task,
            });
        }
        if after.peers.contains_key(peer) && last.0 != peer {
            assert(mid.peers.contains_key(peer));
        }
        if exists|i: int| 0 <= i < list.len() && (#[trigger] list[i]).0 == peer {
            let i = choose|i: int| 0 <= i < list.len() && (#[trigger] list[i]).0 == peer;
            if i < rest.len() {
                assert(rest[i].0 == peer);
            }
        }
    }
}

/// An alive peer that is not managed under its name is taken in.
proof fn lemma_taken_in(
    s: PeerSetView,
    target: Map<Seq<u8>, Record>,
    peer: Seq<u8>,
    name: Seq<char>,
)
    requires
        target.dom().finite(),
        s.next_task + target.len() <= u64::MAX,
        crate::config::state::paired_as(target, peer) == Some(name),
        super::name_of(s.peers, peer) != Some(name),
    ensures
        ({
            let after = super::synced(s, target);
            &&& after.peers.contains_key(peer)
            &&& after.peers[peer].name == name
            &&& after.peers[peer].state == PeerStateView::Connecting { failures: 0 }
            &&& s.next_task <= after.peers[peer].task < after.next_task
            &&& after.started.contains(
                StartView { endpoint: peer, name, task: after.peers[peer].task },
            )
        }),
{
    let list = crate::config::state::alive_listing(target);
    lemma_alive(target);
    super::lemma_alive_fewer(target);
    let base = Managed {
        peers: sorted_map::reworked(s.peers, super::keeping(target)),
        next_task: s.next_task,
        started: Seq::empty(),
    };
    assert(!base.peers.contains_key(peer));
    let i = choose|i: int| 0 <= i < list.len() && (#[trigger] list[i]).0 == peer;
    assert(list[i] == (peer, name));
    lemma_manage_fresh(base, list, peer, name, target);
}

/// A task is only started for a listed peer that was not managed.
proof fn lemma_started(
    m: Managed,
    list: Seq<(Seq<u8>, Seq<char>)>,
    target: Map<Seq<u8>, Record>,
    i: int,
)
    requires
        listed(list, target),
        m.started.len() == 0,
        0 <= i < super::manage_all(m, list).started.len(),
    ensures
        ({
            let start = super::manage_all(m, list).started[i];
            &&& crate::config::state::paired_as(target, start.endpoint) == Some(start.name)
            &&& !m.peers.contains_key(start.endpoint)
        }),
    decreases list.len(),
{
    if list.len() > 0 {
        let rest = list.drop_last();
        assert(forall|j: int| 0 <= j < rest.len() ==> #[trigger] rest[j] == list[j]);
        assert(list[list.len() - 1] == list.last());
        lemma_managed_stay(m, rest);
        if i < super::manage_all(m, rest).started.len() {
            lemma_started(m, rest, target, i);
        }
    }
}

/// Managed peers stay managed as others are taken in.
proof fn lemma_managed_stay(m: Managed, list: Seq<(Seq<u8>, Seq<char>)>)
    ensures
        m.peers.dom().subset_of(super::manage_all(m, list).peers.dom()),
    decreases list.len(),
{
    if list.len() > 0 {
        lemma_managed_stay(m, list.drop_last());
    }
}

/// A stopped task is the one its peer is managed by.
proof fn lemma_stopped(list: Seq<(Seq<u8>, HandleView)>, target: Map<Seq<u8>, Record>, j: int)
    requires
        0 <= j < sorted_map::kept(list, super::dropping(target)).len(),
    ensures
        ({
            let gone = sorted_map::kept(list, super::dropping(target));
            exists|i: int|
                0 <= i < list.len() && (#[trigger] list[i]).0 == gone[j].0 && list[i].1.task
                    == gone[j].1
        }),
    decreases list.len(),
{
    let rest = list.drop_last();
    if j < sorted_map::kept(rest, super::dropping(target)).len() {
        lemma_stopped(rest, target, j);
        let gone = sorted_map::kept(rest, super::dropping(target));
        let i = choose|i: int|
            0 <= i < rest.len() && (#[trigger] rest[i]).0 == gone[j].0 && rest[i].1.task
                == gone[j].1;
        assert(list[i] == rest[i]);
    } else {
        assert(list[list.len() - 1] == list.last());
    }
}

/// A peer still alive is not among the disconnected ones.
proof fn lemma_not_severed(
    s: PeerSetView,
    target: Map<Seq<u8>, Record>,
    h: HubView,
    peer: Seq<u8>,
)
    requires
        s.peers.dom().finite(),
        crate::config::state::paired_as(target, peer) is Some,
    ensures
        ({
            let hub = super::disconnected_all(h, super::severed_by(s, target));
            h.peers.contains_key(peer) ==> hub.peers.contains_key(peer) && hub.peers[peer]
                == h.peers[peer]
        }),
{
    let cut = super::severed_by(s, target);
    lemma_disconnected_all(h, cut, peer);
    sorted_map::lemma_kept::<EndpointId, HandleView, u64>(s.peers, super::severing(target));
    sorted_map::lemma_map_of_keys(cut, peer);
}

/// Aligning leaves exactly the alive peers managed, each under its current
/// name.
pub proof fn syncing_aligns(s: PeerSetView, target: Map<Seq<u8>, Record>)
    requires
        s.peers.dom().finite(),
        target.dom().finite(),
    ensures
        aligned(super::synced(s, target).peers, target),
{
    let list = crate::config::state::alive_listing(target);
    lemma_alive(target);
    let base = Managed {
        peers: sorted_map::reworked(s.peers, super::keeping(target)),
        next_task: s.next_task,
        started: Seq::empty(),
    };
    lemma_manage_all(base, list, target);
    let after = super::synced(s, target).peers;
    assert forall|peer: Seq<u8>|
        (#[trigger] crate::config::state::paired_as(target, peer)) is Some implies after.contains_key(
        peer,
    ) by {
        let i = choose|i: int| 0 <= i < list.len() && (#[trigger] list[i]).0 == peer;
        assert(after.contains_key(list[i].0));
    }
}

/// A peer that stays alive under its name keeps its task, what the task is at,
/// and its connection.
pub proof fn unchanged_peers_are_left_alone(
    s: PeerSetView,
    target: Map<Seq<u8>, Record>,
    h: HubView,
    peer: Seq<u8>,
)
    requires
        s.peers.dom().finite(),
        target.dom().finite(),
        s.peers.contains_key(peer),
        crate::config::state::paired_as(target, peer) == Some(s.peers[peer].name),
    ensures
        ({
            let after = super::synced(s, target);
            let hub = super::disconnected_all(h, super::severed_by(s, target));
            &&& after.peers.contains_key(peer)
            &&& after.peers[peer] == s.peers[peer]
            &&& forall|i: int|
                0 <= i < super::stopped_by(s, target).len() ==> (#[trigger] super::stopped_by(
                    s,
                    target,
                )[i]).0 != peer
            &&& h.peers.contains_key(peer) ==> hub.peers.contains_key(peer) && hub.peers[peer]
                == h.peers[peer]
        }),
{
    let list = crate::config::state::alive_listing(target);
    lemma_alive(target);
    let base = Managed {
        peers: sorted_map::reworked(s.peers, super::keeping(target)),
        next_task: s.next_task,
        started: Seq::empty(),
    };
    lemma_manage_all(base, list, target);
    assert(base.peers.contains_key(peer));
    lemma_not_severed(s, target, h, peer);
    sorted_map::lemma_kept::<EndpointId, HandleView, u64>(s.peers, super::dropping(target));
    sorted_map::lemma_map_of_keys(super::stopped_by(s, target), peer);
}

/// A renamed peer is respawned: its task is stopped, and one with a fresh number
/// is started under the new name. Its connection is not dropped.
pub proof fn renamed_peers_are_respawned(
    s: PeerSetView,
    target: Map<Seq<u8>, Record>,
    h: HubView,
    peer: Seq<u8>,
    name: Seq<char>,
)
    requires
        s.peers.dom().finite(),
        target.dom().finite(),
        s.next_task + target.len() <= u64::MAX,
        s.peers.contains_key(peer),
        crate::config::state::paired_as(target, peer) == Some(name),
        s.peers[peer].name != name,
    ensures
        ({
            let after = super::synced(s, target);
            let hub = super::disconnected_all(h, super::severed_by(s, target));
            &&& super::stopped_by(s, target).contains((peer, s.peers[peer].task))
            &&& after.peers.contains_key(peer)
            &&& after.peers[peer].name == name
            &&& after.peers[peer].state == PeerStateView::Connecting { failures: 0 }
            &&& s.next_task <= after.peers[peer].task < after.next_task
            &&& after.started.contains(
                StartView { endpoint: peer, name, task: after.peers[peer].task },
            )
            &&& h.peers.contains_key(peer) ==> hub.peers.contains_key(peer) && hub.peers[peer]
                == h.peers[peer]
        }),
{
    lemma_taken_in(s, target, peer, name);
    lemma_not_severed(s, target, h, peer);
    let gone = super::stopped_by(s, target);
    sorted_map::lemma_kept::<EndpointId, HandleView, u64>(s.peers, super::dropping(target));
    sorted_map::lemma_map_of_keys(gone, peer);
    assert(sorted_map::reworked(s.peers, super::dropping(target)).contains_key(peer));
    let j = choose|j: int| 0 <= j < gone.len() && (#[trigger] gone[j]).0 == peer;
    sorted_map::lemma_listing_exists::<EndpointId, HandleView>(s.peers);
    lemma_stopped(sorted_map::listing::<EndpointId, HandleView>(s.peers), target, j);
    assert(gone[j] == (peer, s.peers[peer].task));
}

/// A peer that is newly alive gets a task, with a fresh number.
pub proof fn new_peers_are_taken_in(
    s: PeerSetView,
    target: Map<Seq<u8>, Record>,
    peer: Seq<u8>,
    name: Seq<char>,
)
    requires
        s.peers.dom().finite(),
        target.dom().finite(),
        s.next_task + target.len() <= u64::MAX,
        !s.peers.contains_key(peer),
        crate::config::state::paired_as(target, peer) == Some(name),
    ensures
        ({
            let after = super::synced(s, target);
            &&& after.peers.contains_key(peer)
            &&& after.peers[peer].name == name
            &&& after.peers[peer].state == PeerStateView::Connecting { failures: 0 }
            &&& s.next_task <= after.peers[peer].task < after.next_task
            &&& after.started.contains(
                StartView { endpoint: peer, name, task: after.peers[peer].task },
            )
        }),
{
    lemma_taken_in(s, target, peer, name);
}

/// Tasks are started for no others than the new and the renamed peers.
pub proof fn only_new_and_renamed_peers_are_started(
    s: PeerSetView,
    target: Map<Seq<u8>, Record>,
    i: int,
)
    requires
        s.peers.dom().finite(),
        target.dom().finite(),
        0 <= i < super::synced(s, target).started.len(),
    ensures
        ({
            let start = super::synced(s, target).started[i];
            &&& crate::config::state::paired_as(target, start.endpoint) == Some(start.name)
            &&& super::name_of(s.peers, start.endpoint) != Some(start.name)
        }),
{
    let base = Managed {
        peers: sorted_map::reworked(s.peers, super::keeping(target)),
        next_task: s.next_task,
        started: Seq::empty(),
    };
    let list = crate::config::state::alive_listing(target);
    lemma_alive(target);
    lemma_started(base, list, target, i);
    let start = super::synced(s, target).started[i];
    if super::name_of(s.peers, start.endpoint) == Some(start.name) {
        assert(base.peers.contains_key(start.endpoint));
    }
}

/// The peers a sync disconnects are exactly the managed ones that are no longer
/// alive.
pub proof fn only_removed_peers_are_severed(
    s: PeerSetView,
    target: Map<Seq<u8>, Record>,
    peer: Seq<u8>,
)
    requires
        s.peers.dom().finite(),
    ensures
        (exists|i: int|
            0 <= i < super::severed_by(s, target).len() && (#[trigger] super::severed_by(
                s,
                target,
            )[i]).0 == peer) <==> s.peers.contains_key(peer)
            && crate::config::state::paired_as(target, peer) is None,
{
    let cut = super::severed_by(s, target);
    sorted_map::lemma_kept::<EndpointId, HandleView, u64>(s.peers, super::severing(target));
    sorted_map::lemma_map_of_keys(cut, peer);
    assert(sorted_map::map_of(cut).contains_key(peer) <==> s.peers.contains_key(peer)
        && super::severing(target)(peer, s.peers[peer]) is Some);
}

/// A managed peer that is no longer alive is disconnected: the hub has nothing
/// more to send it. Nothing else in the hub changes hands.
pub proof fn removed_peers_are_severed(s: PeerSetView, target: Map<Seq<u8>, Record>, h: HubView)
    requires
        s.peers.dom().finite(),
        forall|peer: Seq<u8>| #[trigger]
            h.peers.contains_key(peer) ==> s.peers.contains_key(peer),
    ensures
        ({
            let hub = super::disconnected_all(h, super::severed_by(s, target));
            &&& forall|peer: Seq<u8>| #[trigger]
                hub.peers.contains_key(peer) ==> crate::config::state::paired_as(target, peer)
                    is Some
            &&& hub.membership == h.membership
            &&& hub.announce_seq == h.announce_seq
            &&& hub.repos.dom() == h.repos.dom()
            &&& forall|name: Seq<char>| #[trigger]
                h.repos.contains_key(name) ==> hub.repos[name].id == h.repos[name].id
        }),
{
    let gone = super::severed_by(s, target);
    let hub = super::disconnected_all(h, gone);
    sorted_map::lemma_kept::<EndpointId, HandleView, u64>(s.peers, super::severing(target));
    lemma_disconnected_all(h, gone, Seq::empty());
    assert forall|peer: Seq<u8>| #[trigger] hub.peers.contains_key(
        peer,
    ) implies crate::config::state::paired_as(target, peer) is Some by {
        lemma_disconnected_all(h, gone, peer);
        sorted_map::lemma_map_of_keys(gone, peer);
        assert(s.peers.contains_key(peer));
        if crate::config::state::paired_as(target, peer) is None {
            assert(sorted_map::reworked(s.peers, super::severing(target)).contains_key(peer));
        }
    }
}

/// Aligning again with the same alive peers stops and starts nothing.
pub proof fn syncing_again_changes_nothing(s: PeerSetView, target: Map<Seq<u8>, Record>)
    requires
        s.peers.dom().finite(),
        target.dom().finite(),
        aligned(s.peers, target),
    ensures
        super::stopped_by(s, target).len() == 0,
        super::severed_by(s, target).len() == 0,
        super::synced(s, target) == (Managed {
            peers: s.peers,
            next_task: s.next_task,
            started: Seq::empty(),
        }),
{
    let gone = super::stopped_by(s, target);
    sorted_map::lemma_kept::<EndpointId, HandleView, u64>(s.peers, super::dropping(target));
    if gone.len() > 0 {
        sorted_map::lemma_map_of_keys(gone, gone[0].0);
        assert(sorted_map::map_of(gone).contains_key(gone[0].0));
        assert(s.peers.contains_key(gone[0].0));
    }
    let cut = super::severed_by(s, target);
    sorted_map::lemma_kept::<EndpointId, HandleView, u64>(s.peers, super::severing(target));
    if cut.len() > 0 {
        sorted_map::lemma_map_of_keys(cut, cut[0].0);
        assert(sorted_map::map_of(cut).contains_key(cut[0].0));
        assert(s.peers.contains_key(cut[0].0));
    }
    assert forall|peer: Seq<u8>| #[trigger] s.peers.contains_key(peer) implies super::keeping(
        target,
    )(peer, s.peers[peer]) == Some(s.peers[peer]) by {}
    assert(sorted_map::reworked(s.peers, super::keeping(target)) =~= s.peers);
    let list = crate::config::state::alive_listing(target);
    lemma_alive(target);
    assert forall|i: int| 0 <= i < list.len() implies s.peers.contains_key(
        (#[trigger] list[i]).0,
    ) by {
        assert(crate::config::state::paired_as(target, list[i].0) is Some);
    }
    lemma_manage_known(
        Managed { peers: s.peers, next_task: s.next_task, started: Seq::empty() },
        list,
    );
}

proof fn lemma_manage_known(m: Managed, list: Seq<(Seq<u8>, Seq<char>)>)
    requires
        forall|i: int| 0 <= i < list.len() ==> m.peers.contains_key((#[trigger] list[i]).0),
    ensures
        super::manage_all(m, list) == m,
    decreases list.len(),
{
    if list.len() > 0 {
        let rest = list.drop_last();
        assert(forall|i: int| 0 <= i < rest.len() ==> #[trigger] rest[i] == list[i]);
        lemma_manage_known(m, rest);
        assert(list[list.len() - 1] == list.last());
    }
}

/// A sync stops exactly the tasks of the peers that are not paired anymore, or
/// under another name, and disconnects exactly those not paired anymore.
pub proof fn tasks_stop_with_their_pairing(
    s: PeerSetView,
    target: Map<Seq<u8>, Record>,
    peer: Seq<u8>,
    task: u64,
)
    requires
        s.peers.dom().finite(),
    ensures
        ({
            let paired = target.contains_key(peer) && target[peer].payload is Some;
            let managed = s.peers.contains_key(peer) && s.peers[peer].task == task;
            &&& super::stopped_by(s, target).contains((peer, task)) <==> managed && !(paired
                && target[peer].payload == Some(s.peers[peer].name))
            &&& super::severed_by(s, target).contains((peer, task)) <==> managed && !paired
        }),
{
    sorted_map::kept_entries_are_those_chosen::<EndpointId, HandleView, u64>(
        s.peers,
        super::dropping(target),
    );
    sorted_map::kept_entries_are_those_chosen::<EndpointId, HandleView, u64>(
        s.peers,
        super::severing(target),
    );
}

/// The status shows a connection as it is: one being made with its failures, one
/// that is up with its path and age, and one that failed with its error and the
/// time to the next attempt.
pub proof fn connections_are_shown_as_they_are(
    state: super::PeerStateView,
    path: Option<crate::daemon::control::protocol::PathInfoView>,
    now: u64,
)
    ensures
        match (state, super::connection_of(state, path, now)) {
            (
                super::PeerStateView::Connecting { failures },
                crate::daemon::control::protocol::ConnectionView::Connecting { failures: shown },
            ) => shown == failures,
            (
                super::PeerStateView::Connected { conn, since },
                crate::daemon::control::protocol::ConnectionView::Connected {
                    path: shown,
                    since_secs,
                },
            ) => {
                &&& shown == path
                &&& since <= now ==> since_secs == (now - since) / 1000
                &&& since > now ==> since_secs == 0
            },
            (
                super::PeerStateView::Backoff { until, error },
                crate::daemon::control::protocol::ConnectionView::Backoff {
                    retry_in_secs,
                    error: shown,
                },
            ) => {
                &&& shown == error
                &&& now <= until ==> retry_in_secs == (until - now) / 1000
                &&& now > until ==> retry_in_secs == 0
            },
            _ => false,
        },
{
}

/// A managed peer goes by its name and a path is known exactly where one was
/// found.
pub proof fn lookups_find_what_is_there(
    peers: Map<Seq<u8>, HandleView>,
    paths: Map<Seq<u8>, crate::daemon::control::protocol::PathInfoView>,
    peer: Seq<u8>,
)
    ensures
        super::name_of(peers, peer) is Some <==> peers.contains_key(peer),
        peers.contains_key(peer) ==> super::name_of(peers, peer)->Some_0 == peers[peer].name,
        super::known_path(paths, peer) is Some <==> paths.contains_key(peer),
        paths.contains_key(peer) ==> super::known_path(paths, peer)->Some_0 == paths[peer],
{
}

/// Disconnecting peers closes connections that were theirs, and theirs alone.
pub proof fn only_their_connections_are_closed(h: HubView, gone: Seq<(Seq<u8>, u64)>, conn: u64)
    ensures
        super::closed_by(h, gone).contains(conn) ==> exists|i: int|
            0 <= i < gone.len() && h.peers.contains_key((#[trigger] gone[i]).0)
                && h.peers[gone[i].0].conn == conn,
    decreases gone.len(),
{
    if gone.len() > 0 {
        let rest = gone.drop_last();
        only_their_connections_are_closed(h, rest, conn);
        lemma_left(h, rest, gone.last().0);
        assert(gone[gone.len() - 1] == gone.last());
        let before = super::closed_by(h, rest);
        let after = super::closed_by(h, gone);
        if after.contains(conn) {
            let n = choose|n: int| 0 <= n < after.len() && after[n] == conn;
            if n < before.len() {
                assert(before[n] == conn);
                let i = choose|i: int|
                    0 <= i < rest.len() && h.peers.contains_key((#[trigger] rest[i]).0)
                        && h.peers[rest[i].0].conn == conn;
                assert(gone[i] == rest[i]);
            }
        }
    }
}

proof fn lemma_left(h: HubView, gone: Seq<(Seq<u8>, u64)>, peer: Seq<u8>)
    ensures
        ({
            let after = super::disconnected_all(h, gone);
            after.peers.contains_key(peer) ==> h.peers.contains_key(peer) && after.peers[peer]
                == h.peers[peer]
        }),
    decreases gone.len(),
{
    if gone.len() > 0 {
        lemma_left(h, gone.drop_last(), peer);
    }
}

} // verus!
