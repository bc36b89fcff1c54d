//! Per-repo inbound announcement slots.

use vstd::prelude::*;

use crate::net::endpoint::EndpointId;
use crate::net::sync::duplicate_heads;
use crate::sorted_map::{self, SortedMap};

verus! {

/// An announcement received from a peer, drained by a repo task.
pub struct PeerAnnounce {
    pub peer: EndpointId,
    /// Sequence it was drained at, so a failed fetch can requeue the heads
    /// without clobbering a newer announcement.
    pub seq: u64,
    pub heads: Vec<Vec<u8>>,
}

/// A drained announcement by content.
#[verifier::ext_equal]
pub struct PeerAnnounceView {
    pub peer: Seq<u8>,
    pub seq: nat,
    pub heads: Seq<Seq<u8>>,
}

impl View for PeerAnnounce {
    type V = PeerAnnounceView;

    open spec fn view(&self) -> PeerAnnounceView {
        PeerAnnounceView {
            peer: self.peer@,
            seq: self.seq as nat,
            heads: crate::net::sync::heads_view(self.heads@),
        }
    }
}

/// One peer's slot: the highest announcement sequence seen and its heads. The
/// heads survive draining (marked `drained`), so the peer's last known state
/// can be demoted to an orphan announcement when the repo is unregistered, and
/// the watermark fends off reordered stale announcements arriving after a
/// drain.
pub struct Slot {
    pub seq: u64,
    pub heads: Vec<Vec<u8>>,
    pub drained: bool,
}

/// A slot by content.
#[verifier::ext_equal]
pub struct SlotView {
    pub seq: nat,
    pub heads: Seq<Seq<u8>>,
    pub drained: bool,
}

impl View for Slot {
    type V = SlotView;

    open spec fn view(&self) -> SlotView {
        SlotView {
            seq: self.seq as nat,
            heads: crate::net::sync::heads_view(self.heads@),
            drained: self.drained,
        }
    }
}

/// Inbound announcements for one repo: the latest per peer, drained by the repo
/// task.
pub struct Inbox {
    slots: SortedMap<EndpointId, Slot>,
}

impl View for Inbox {
    type V = Map<Seq<u8>, SlotView>;

    closed spec fn view(&self) -> Map<Seq<u8>, SlotView> {
        self.slots@
    }
}

/// Whether an announcement is older than, or as old as, what a peer's slot
/// holds.
pub open spec fn stale(slots: Map<Seq<u8>, SlotView>, peer: Seq<u8>, seq: nat) -> bool {
    slots.contains_key(peer) && slots[peer].seq >= seq
}

/// The slots after an announcement.
pub open spec fn offered(
    slots: Map<Seq<u8>, SlotView>,
    peer: Seq<u8>,
    seq: nat,
    heads: Seq<Seq<u8>>,
) -> Map<Seq<u8>, SlotView> {
    if stale(slots, peer, seq) {
        slots
    } else {
        slots.insert(peer, SlotView { seq, heads, drained: false })
    }
}

/// The slots after a retraction.
pub open spec fn retracted(slots: Map<Seq<u8>, SlotView>, peer: Seq<u8>, seq: nat) -> Map<
    Seq<u8>,
    SlotView,
> {
    if stale(slots, peer, seq) {
        slots
    } else {
        slots.insert(peer, SlotView { seq, heads: Seq::empty(), drained: true })
    }
}

/// The rule that marks a slot drained.
pub open spec fn mark_drained() -> spec_fn(Seq<u8>, SlotView) -> Option<SlotView> {
    |peer: Seq<u8>, slot: SlotView| Some(SlotView { drained: true, ..slot })
}

/// The slots after a drain.
pub open spec fn drained(slots: Map<Seq<u8>, SlotView>) -> Map<Seq<u8>, SlotView> {
    sorted_map::reworked(slots, mark_drained())
}

/// The rule that reads what a drain hands out.
pub open spec fn pending() -> spec_fn(Seq<u8>, SlotView) -> Option<PeerAnnounceView> {
    |peer: Seq<u8>, slot: SlotView|
        if slot.drained {
            None
        } else {
            Some(PeerAnnounceView { peer, seq: slot.seq, heads: slot.heads })
        }
}

/// What a drain hands out: every undrained announcement, by peer.
pub open spec fn undrained(slots: Map<Seq<u8>, SlotView>) -> Seq<(Seq<u8>, PeerAnnounceView)> {
    sorted_map::kept(sorted_map::listing::<EndpointId, SlotView>(slots), pending())
}

/// The rule that reads a peer's last known heads.
pub open spec fn known_heads() -> spec_fn(Seq<u8>, SlotView) -> Option<Seq<Seq<u8>>> {
    |peer: Seq<u8>, slot: SlotView|
        if slot.heads.len() == 0 {
            None
        } else {
            Some(slot.heads)
        }
}

/// The last announced heads of every peer that has not retracted the repo.
pub open spec fn last_heads(slots: Map<Seq<u8>, SlotView>) -> Seq<(Seq<u8>, Seq<Seq<u8>>)> {
    sorted_map::kept(sorted_map::listing::<EndpointId, SlotView>(slots), known_heads())
}

/// The slots after failed heads were put back.
pub open spec fn requeued(
    slots: Map<Seq<u8>, SlotView>,
    peer: Seq<u8>,
    seq: nat,
    heads: Seq<Seq<u8>>,
) -> Map<Seq<u8>, SlotView> {
    if slots.contains_key(peer) && slots[peer].seq == seq && slots[peer].drained {
        slots.insert(peer, SlotView { seq, heads, drained: false })
    } else {
        slots
    }
}

/// Drained announcements by peer.
pub open spec fn announces_view(announces: Seq<PeerAnnounce>) -> Seq<
    (Seq<u8>, PeerAnnounceView),
> {
    announces.map_values(|a: PeerAnnounce| (a.peer@, a@))
}

/// Peers' heads by content.
pub open spec fn peer_heads_view(heads: Seq<(EndpointId, Vec<Vec<u8>>)>) -> Seq<
    (Seq<u8>, Seq<Seq<u8>>),
> {
    heads.map_values(
        |h: (EndpointId, Vec<Vec<u8>>)| (h.0@, crate::net::sync::heads_view(h.1@)),
    )
}

impl Inbox {
    /// Slots are finitely many.
    pub proof fn lemma_finite(&self)
        ensures
            self@.dom().finite(),
    {
        self.slots.lemma_finite();
    }

    pub fn new() -> (inbox: Self)
        ensures
            inbox@ == Map::<Seq<u8>, SlotView>::empty(),
    {
        Inbox { slots: SortedMap::new() }
    }

    /// Stores an announcement unless a newer one was already seen; says
    /// whether it did.
    pub fn offer(&mut self, peer: EndpointId, seq: u64, heads: Vec<Vec<u8>>) -> (stored: bool)
        ensures
            stored == !stale(old(self)@, peer@, seq as nat),
            final(self)@ == offered(
                old(self)@,
                peer@,
                seq as nat,
                crate::net::sync::heads_view(heads@),
            ),
    {
        if let Some(slot) = self.slots.get(&peer) {
            if slot.seq >= seq {
                return false;
            }
        }
        self.slots.insert(peer, Slot { seq, heads, drained: false });
        true
    }

    /// Drops a peer's slot (its connection is gone).
    pub fn forget(&mut self, peer: &EndpointId)
        ensures
            final(self)@ == old(self)@.remove(peer@),
    {
        self.slots.remove(peer);
    }

    /// Records a retraction: the watermark advances and the heads clear, so a
    /// reordered pre-retraction announcement stays rejected while a later
    /// re-registration's announcements come through.
    pub fn retract(&mut self, peer: EndpointId, seq: u64)
        ensures
            final(self)@ == retracted(old(self)@, peer@, seq as nat),
    {
        if let Some(slot) = self.slots.get(&peer) {
            if slot.seq >= seq {
                return;
            }
        }
        let heads: Vec<Vec<u8>> = Vec::new();
        assert(crate::net::sync::heads_view(heads@) =~= Seq::<Seq<u8>>::empty());
        self.slots.insert(peer, Slot { seq, heads, drained: true });
    }

    /// The last announced heads of every peer, drained or not, for demotion to
    /// orphan announcements on unregistration. Peers that retracted the repo
    /// (no heads) are not included.
    pub fn snapshot(&self) -> (heads: Vec<(EndpointId, Vec<Vec<u8>>)>)
        ensures
            peer_heads_view(heads@) == last_heads(self@),
    {
        let mut heads: Vec<(EndpointId, Vec<Vec<u8>>)> = Vec::new();
        let len: usize = self.slots.len();
        let ghost list = sorted_map::listing::<EndpointId, SlotView>(self.slots@);
        let mut i: usize = 0;
        assert(peer_heads_view(heads@) =~= sorted_map::kept(list.take(0), known_heads()));
        while i < len
            invariant
                i <= len,
                len == list.len(),
                list == sorted_map::listing::<EndpointId, SlotView>(self.slots@),
                peer_heads_view(heads@) == sorted_map::kept(list.take(i as int), known_heads()),
            decreases len - i,
        {
            let (peer, slot): (&EndpointId, &Slot) = self.slots.entry_at(i);
            let ghost before = heads@;
            proof {
                sorted_map::lemma_kept_step(list, i as int, known_heads());
            }
            if slot.heads.len() > 0 {
                let copy = duplicate_heads(&slot.heads);
                heads.push((*peer, copy));
                assert(peer_heads_view(heads@) =~= peer_heads_view(before).push(
                    (peer@, slot@.heads),
                ));
            }
            i = i + 1;
        }
        assert(list.take(len as int) =~= list);
        heads
    }

    /// Takes all undrained announcements, keeping the per-peer sequence
    /// watermarks.
    pub fn drain(&mut self) -> (announces: Vec<PeerAnnounce>)
        ensures
            announces_view(announces@) == undrained(old(self)@),
            final(self)@ == drained(old(self)@),
    {
        let mut announces: Vec<PeerAnnounce> = Vec::new();
        let mut marked: SortedMap<EndpointId, Slot> = SortedMap::new();
        let len: usize = self.slots.len();
        let ghost slots = self.slots@;
        let ghost list = sorted_map::listing::<EndpointId, SlotView>(slots);
        proof {
            self.slots.lemma_finite();
        }
        let mut i: usize = 0;
        assert(announces_view(announces@) =~= sorted_map::kept(list.take(0), pending()));
        assert(list.skip(0) =~= list);
        while i < len
            invariant
                i <= len,
                len == list.len(),
                sorted_map::listing::<EndpointId, SlotView>(self.slots@) == list.skip(i as int),
                announces_view(announces@) == sorted_map::kept(list.take(i as int), pending()),
                marked@ == sorted_map::map_of(
                    sorted_map::kept(list.take(i as int), mark_drained()),
                ),
            decreases len - i,
        {
            let (peer, slot): (EndpointId, Slot) = self.slots.take_first();
            assert((peer@, slot@) == list[i as int]);
            assert(list.skip(i as int).skip(1) =~= list.skip(i + 1));
            let ghost before = announces@;
            proof {
                sorted_map::lemma_kept_step(list, i as int, pending());
                sorted_map::lemma_kept_step(list, i as int, mark_drained());
            }
            if !slot.drained {
                announces.push(
                    PeerAnnounce { peer, seq: slot.seq, heads: duplicate_heads(&slot.heads) },
                );
                assert(announces_view(announces@) =~= announces_view(before).push(
                    (peer@, announces@.last()@),
                ));
            }
            marked.insert(peer, Slot { seq: slot.seq, heads: slot.heads, drained: true });
            i = i + 1;
        }
        proof {
            assert(list.take(len as int) =~= list);
            sorted_map::lemma_kept::<EndpointId, SlotView, SlotView>(slots, mark_drained());
        }
        self.slots = marked;
        announces
    }

    /// Restores heads a fetch failed to apply, so the next drain retries them.
    /// A newer announcement arriving meanwhile supersedes them (it bumps the
    /// slot past `seq`), and a fresh connection drops the slot entirely, so the
    /// retry never resurrects stale or revoked state, short of a fresh
    /// announcement that was drained under the same `seq`. The retry is driven
    /// by the repo task's own timer, which avoids hot-looping against a peer
    /// that keeps failing.
    pub fn requeue(&mut self, peer: EndpointId, seq: u64, heads: Vec<Vec<u8>>)
        ensures
            final(self)@ == requeued(
                old(self)@,
                peer@,
                seq as nat,
                crate::net::sync::heads_view(heads@),
            ),
    {
        if let Some(slot) = self.slots.get(&peer) {
            if slot.seq == seq && slot.drained {
                self.slots.insert(peer, Slot { seq, heads, drained: false });
            }
        }
    }
}

} // verus!
