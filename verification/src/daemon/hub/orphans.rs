//! Orphan announcements: the latest announcement each peer made for repo names
//! not registered here.
//!
//! Peers replay all their repos on connect, so these are how `clone` learns a
//! repo's id and heads and who serves it. They are bounded per peer and pruned
//! on disconnect.

use vstd::prelude::*;

use crate::config::state::repo::RepoId;
use crate::net::endpoint::EndpointId;
use crate::net::sync::duplicate_heads;
use crate::order::{Duplicate, Same};
use crate::sorted_map::{self, SortedMap};
use crate::text::join3;

verus! {

/// Cap on unregistered repo names tracked *per peer*, so one peer (hostile or
/// simply repo-rich) cannot evict the names other peers announce. A peer's
/// entries are pruned when it disconnects.
pub const MAX_ORPHAN_REPOS_PER_PEER: usize = 64;

/// The latest announcement one peer made for an unregistered repo name.
pub struct OrphanAnnounce {
    pub id: RepoId,
    pub heads: Vec<Vec<u8>>,
}

/// An orphan announcement by content.
#[verifier::ext_equal]
pub struct OrphanView {
    pub id: Seq<char>,
    pub heads: Seq<Seq<u8>>,
}

impl View for OrphanAnnounce {
    type V = OrphanView;

    open spec fn view(&self) -> OrphanView {
        OrphanView { id: self.id@, heads: crate::net::sync::heads_view(self.heads@) }
    }
}

impl Duplicate for OrphanAnnounce {
    fn duplicate(&self) -> (copy: Self) {
        OrphanAnnounce { id: self.id.duplicate(), heads: duplicate_heads(&self.heads) }
    }
}

/// A peer that can serve a `clone` of an unregistered repo, with the op heads
/// it claims.
pub struct CloneSource {
    pub peer: EndpointId,
    pub heads: Vec<Vec<u8>>,
}

/// Clone sources by content.
pub open spec fn sources_view(sources: Seq<CloneSource>) -> Seq<(Seq<u8>, Seq<Seq<u8>>)> {
    sources.map_values(|s: CloneSource| (s.peer@, crate::net::sync::heads_view(s.heads@)))
}

/// Why a repo cannot be cloned.
#[derive(PartialEq, Eq, Debug)]
pub enum CloneError {
    /// No connected peer announces the name.
    Nobody { name: String },
    /// Peers announce unrelated repos under the name.
    Disagreement { name: String },
}

/// Why a repo cannot be cloned, as contracts speak of it.
pub enum CloneFault {
    Nobody { name: Seq<char> },
    Disagreement { name: Seq<char> },
}

impl View for CloneError {
    type V = CloneFault;

    open spec fn view(&self) -> CloneFault {
        match self {
            CloneError::Nobody { name } => CloneFault::Nobody { name: name@ },
            CloneError::Disagreement { name } => CloneFault::Disagreement { name: name@ },
        }
    }
}

impl CloneError {
    /// The error as shown to the user.
    pub fn message(&self) -> (text: String)
        ensures
            text@ == match self@ {
                CloneFault::Nobody { name } => "no connected peer announces a repo named `"@ + name
                    + "`; check that the other machine's daemon is running and the name is correct"@,
                CloneFault::Disagreement { name } =>
                "peers announce different repos under the name `"@ + name
                    + "`; resolve the conflict before cloning"@,
            },
    {
        match self {
            CloneError::Nobody { name } => join3(
                "no connected peer announces a repo named `",
                name.as_str(),
                "`; check that the other machine's daemon is running and the name is correct",
            ),
            CloneError::Disagreement { name } => join3(
                "peers announce different repos under the name `",
                name.as_str(),
                "`; resolve the conflict before cloning",
            ),
        }
    }
}

/// Orphan announcements by repo name and peer.
pub type OrphanMap = Map<Seq<char>, Map<Seq<u8>, OrphanView>>;

/// The announcements made for a name.
pub open spec fn made_for(orphans: OrphanMap, name: Seq<char>) -> Map<Seq<u8>, OrphanView> {
    if orphans.contains_key(name) {
        orphans[name]
    } else {
        Map::empty()
    }
}

/// The names a peer holds an entry for.
pub open spec fn held_by(orphans: OrphanMap, peer: Seq<u8>) -> Set<Seq<char>> {
    orphans.dom().filter(|name: Seq<char>| orphans[name].contains_key(peer))
}

/// Whether a peer's announcement for a name is kept: a known name always
/// updates, a new one only below the cap.
pub open spec fn has_room(orphans: OrphanMap, peer: Seq<u8>, name: Seq<char>) -> bool {
    made_for(orphans, name).contains_key(peer) || held_by(orphans, peer).len()
        < MAX_ORPHAN_REPOS_PER_PEER
}

/// The announcements with one more.
pub open spec fn remembered(
    orphans: OrphanMap,
    peer: Seq<u8>,
    name: Seq<char>,
    announce: OrphanView,
) -> OrphanMap {
    if has_room(orphans, peer, name) {
        orphans.insert(name, made_for(orphans, name).insert(peer, announce))
    } else {
        orphans
    }
}

/// The announcements without a peer's for a name.
pub open spec fn forgotten(orphans: OrphanMap, name: Seq<char>, peer: Seq<u8>) -> OrphanMap {
    if !orphans.contains_key(name) {
        orphans
    } else if orphans[name].remove(peer) == Map::<Seq<u8>, OrphanView>::empty() {
        orphans.remove(name)
    } else {
        orphans.insert(name, orphans[name].remove(peer))
    }
}

/// The rule that drops a peer's entries, and the names left with none.
pub open spec fn without_peer(peer: Seq<u8>) -> spec_fn(
    Seq<char>,
    Map<Seq<u8>, OrphanView>,
) -> Option<Map<Seq<u8>, OrphanView>> {
    |name: Seq<char>, peers: Map<Seq<u8>, OrphanView>|
        if peers.remove(peer) == Map::<Seq<u8>, OrphanView>::empty() {
            None
        } else {
            Some(peers.remove(peer))
        }
}

/// The announcements without a peer's.
pub open spec fn forgotten_peer(orphans: OrphanMap, peer: Seq<u8>) -> OrphanMap {
    sorted_map::reworked(orphans, without_peer(peer))
}

/// The announcements that several peers demote to orphans, one after the other.
pub open spec fn demoted(
    orphans: OrphanMap,
    name: Seq<char>,
    id: Seq<char>,
    heads: Seq<(Seq<u8>, Seq<Seq<u8>>)>,
) -> OrphanMap
    decreases heads.len(),
{
    if heads.len() == 0 {
        orphans
    } else {
        remembered(
            demoted(orphans, name, id, heads.drop_last()),
            heads.last().0,
            name,
            OrphanView { id, heads: heads.last().1 },
        )
    }
}

/// The orphan announcements a hub holds.
pub struct Orphans {
    names: SortedMap<String, SortedMap<EndpointId, OrphanAnnounce>>,
}

impl View for Orphans {
    type V = OrphanMap;

    closed spec fn view(&self) -> OrphanMap {
        self.names@
    }
}

impl Orphans {
    /// Orphan announcements are finitely many.
    pub proof fn lemma_finite(&self)
        ensures
            self@.dom().finite(),
            forall|name: Seq<char>| #[trigger]
                self@.contains_key(name) ==> self@[name].dom().finite(),
    {
        self.names.lemma_finite();
        assert forall|name: Seq<char>| #[trigger]
            self@.contains_key(name) implies self@[name].dom().finite() by {
            let made = self.names.lemma_held(name);
            made.lemma_finite();
        }
    }

    pub fn new() -> (orphans: Self)
        ensures
            orphans@ == Map::<Seq<char>, Map<Seq<u8>, OrphanView>>::empty(),
    {
        Orphans { names: SortedMap::new() }
    }

    /// The announcements made for a name, if any.
    pub fn get(&self, name: &str) -> (peers: Option<&SortedMap<EndpointId, OrphanAnnounce>>)
        ensures
            match peers {
                Some(p) => self@.contains_key(name@) && p@ == self@[name@],
                None => !self@.contains_key(name@),
            },
    {
        self.names.get(&name.to_owned())
    }

    /// Records `announce` as `peer`'s latest for the unregistered `name`.
    /// Refuses (returning `false`) a new name that would put the peer over
    /// [`MAX_ORPHAN_REPOS_PER_PEER`]; a known name always updates.
    pub fn remember(&mut self, peer: EndpointId, name: &str, announce: OrphanAnnounce) -> (kept:
        bool)
        ensures
            kept == has_room(old(self)@, peer@, name@),
            final(self)@ == remembered(old(self)@, peer@, name@, announce@),
    {
        let key = name.to_owned();
        let known: bool = match self.names.get(&key) {
            Some(peers) => peers.contains_key(&peer),
            None => false,
        };
        if !known && self.count_held_by(&peer) >= MAX_ORPHAN_REPOS_PER_PEER {
            return false;
        }
        let mut peers = match self.names.remove(&key) {
            Some(peers) => peers,
            None => SortedMap::new(),
        };
        peers.insert(peer, announce);
        self.names.insert(key, peers);
        assert(self@ =~= remembered(old(self)@, peer@, name@, announce@));
        true
    }

    /// Drops `peer`'s entry for `name` (it retracted the repo).
    pub fn forget(&mut self, name: &str, peer: &EndpointId)
        ensures
            final(self)@ == forgotten(old(self)@, name@, peer@),
    {
        let key = name.to_owned();
        match self.names.remove(&key) {
            None => {
                assert(self@ =~= old(self)@);
            },
            Some(mut peers) => {
                peers.remove(peer);
                if !peers.is_empty() {
                    self.names.insert(key, peers);
                }
                assert(self@ =~= forgotten(old(self)@, name@, peer@));
            },
        }
    }

    /// Drops every entry `peer` holds (its connection is gone).
    pub fn forget_peer(&mut self, peer: &EndpointId)
        ensures
            final(self)@ == forgotten_peer(old(self)@, peer@),
    {
        let ghost names = self.names@;
        let ghost list = sorted_map::listing::<String, Map<Seq<u8>, OrphanView>>(names);
        let ghost rule = without_peer(peer@);
        let len: usize = self.names.len();
        let mut left: SortedMap<String, SortedMap<EndpointId, OrphanAnnounce>> = SortedMap::new();
        let mut i: usize = 0;
        proof {
            self.names.lemma_finite();
        }
        assert(list.skip(0) =~= list);
        while i < len
            invariant
                i <= len,
                len == list.len(),
                rule == without_peer(peer@),
                sorted_map::listing::<String, Map<Seq<u8>, OrphanView>>(self.names@) == list.skip(
                    i as int,
                ),
                left@ == sorted_map::map_of(sorted_map::kept(list.take(i as int), rule)),
            decreases len - i,
        {
            let (name, mut peers): (String, SortedMap<EndpointId, OrphanAnnounce>) =
                self.names.take_first();
            assert((name@, peers@) == list[i as int]);
            assert(list.skip(i as int).skip(1) =~= list.skip(i + 1));
            proof {
                sorted_map::lemma_kept_step(list, i as int, rule);
            }
            peers.remove(peer);
            if !peers.is_empty() {
                left.insert(name, peers);
            }
            i = i + 1;
        }
        proof {
            assert(list.take(len as int) =~= list);
            sorted_map::lemma_kept::<
                String,
                Map<Seq<u8>, OrphanView>,
                Map<Seq<u8>, OrphanView>,
            >(names, rule);
        }
        self.names = left;
    }

    /// Takes every announcement for `name`, which is being registered.
    pub fn take(&mut self, name: &str) -> (peers: SortedMap<EndpointId, OrphanAnnounce>)
        ensures
            peers@ == made_for(old(self)@, name@),
            final(self)@ == old(self)@.remove(name@),
    {
        match self.names.remove(&name.to_owned()) {
            Some(peers) => peers,
            None => SortedMap::new(),
        }
    }

    /// How many orphan names hold an entry for `peer`, against
    /// [`MAX_ORPHAN_REPOS_PER_PEER`].
    fn count_held_by(&self, peer: &EndpointId) -> (count: usize)
        ensures
            count == held_by(self@, peer@).len(),
    {
        let ghost names = self.names@;
        let ghost list = sorted_map::listing::<String, Map<Seq<u8>, OrphanView>>(names);
        let len: usize = self.names.len();
        let mut count: usize = 0;
        let ghost mut seen: Set<Seq<char>> = Set::empty();
        let mut i: usize = 0;
        while i < len
            invariant
                i <= len,
                count <= i,
                len == list.len(),
                names == self.names@,
                list == sorted_map::listing::<String, Map<Seq<u8>, OrphanView>>(names),
                sorted_map::is_listing::<String, Map<Seq<u8>, OrphanView>>(list, names),
                seen.finite(),
                count == seen.len(),
                forall|n: Seq<char>| #[trigger]
                    seen.contains(n) <==> exists|j: int|
                        0 <= j < i && (#[trigger] list[j]).0 == n && list[j].1.contains_key(peer@),
            decreases len - i,
        {
            let (name, peers): (&String, &SortedMap<EndpointId, OrphanAnnounce>) =
                self.names.entry_at(i);
            if peers.contains_key(peer) {
                proof {
                    if seen.contains(name@) {
                        let j = choose|j: int|
                            0 <= j < i && (#[trigger] list[j]).0 == name@
                                && list[j].1.contains_key(peer@);
                        assert(<String as crate::order::Key>::before(list[j].0, list[i as int].0));
                        <String as crate::order::Key>::irreflexive(name@);
                    }
                    let before = seen;
                    seen = seen.insert(name@);
                    assert forall|n: Seq<char>| #[trigger] seen.contains(n) <==> exists|j: int|
                        0 <= j < i + 1 && (#[trigger] list[j]).0 == n && list[j].1.contains_key(
                            peer@,
                        ) by {
                        if n == name@ {
                            assert(list[i as int].0 == n);
                        } else {
                            assert(seen.contains(n) <==> before.contains(n));
                        }
                    }
                }
                count = count + 1;
            } else {
                assert forall|n: Seq<char>| #[trigger] seen.contains(n) <==> exists|j: int|
                    0 <= j < i + 1 && (#[trigger] list[j]).0 == n && list[j].1.contains_key(
                        peer@,
                    ) by {
                    if exists|j: int|
                        0 <= j < i + 1 && (#[trigger] list[j]).0 == n && list[j].1.contains_key(
                            peer@,
                        ) {
                        let j = choose|j: int|
                            0 <= j < i + 1 && (#[trigger] list[j]).0 == n
                                && list[j].1.contains_key(peer@);
                        assert(j < i);
                    }
                }
            }
            i = i + 1;
        }
        proof {
            assert forall|n: Seq<char>| seen.contains(n) <==> held_by(self@, peer@).contains(n) by {
                if held_by(self@, peer@).contains(n) {
                    let j = choose|j: int| 0 <= j < list.len() && (#[trigger] list[j]).0 == n;
                    assert(list[j].1.contains_key(peer@));
                }
            }
            assert(seen =~= held_by(self@, peer@));
        }
        count
    }
}

/// The rule that reads the announcements of connected peers.
pub open spec fn of_connected(connected: Set<Seq<u8>>) -> spec_fn(
    Seq<u8>,
    OrphanView,
) -> Option<OrphanView> {
    |peer: Seq<u8>, announce: OrphanView|
        if connected.contains(peer) {
            Some(announce)
        } else {
            None
        }
}

/// The announcements connected peers made for a name, by peer.
pub open spec fn announcers(
    orphans: OrphanMap,
    connected: Set<Seq<u8>>,
    name: Seq<char>,
) -> Seq<(Seq<u8>, OrphanView)> {
    sorted_map::kept(
        sorted_map::listing::<EndpointId, OrphanView>(made_for(orphans, name)),
        of_connected(connected),
    )
}

/// What a `clone` of a name resolves to: the id every announcing peer agrees
/// on, and each peer's heads.
pub open spec fn clone_resolution(
    orphans: OrphanMap,
    connected: Set<Seq<u8>>,
    name: Seq<char>,
) -> Result<(Seq<char>, Seq<(Seq<u8>, Seq<Seq<u8>>)>), CloneFault> {
    let sources = announcers(orphans, connected, name);
    if sources.len() == 0 {
        Err(CloneFault::Nobody { name })
    } else if exists|i: int| 0 <= i < sources.len() && (#[trigger] sources[i]).1.id
        != sources[0].1.id {
        Err(CloneFault::Disagreement { name })
    } else {
        Ok((sources[0].1.id, sources.map_values(|s: (Seq<u8>, OrphanView)| (s.0, s.1.heads))))
    }
}

impl Orphans {
    /// Resolves a `clone` of the repo named `name` among connected peers.
    pub(super) fn resolve_clone<V: View>(
        &self,
        connected: &SortedMap<EndpointId, V>,
        name: &str,
    ) -> (r: Result<(RepoId, Vec<CloneSource>), CloneError>)
        ensures
            match r {
                Ok(found) => clone_resolution(self@, connected@.dom(), name@) == Ok::<
                    (Seq<char>, Seq<(Seq<u8>, Seq<Seq<u8>>)>),
                    CloneFault,
                >((found.0@, sources_view(found.1@))),
                Err(e) => clone_resolution(self@, connected@.dom(), name@) == Err::<
                    (Seq<char>, Seq<(Seq<u8>, Seq<Seq<u8>>)>),
                    CloneFault,
                >(e@),
            },
    {
        let ghost rule = of_connected(connected@.dom());
        let ghost heads_of = |s: (Seq<u8>, OrphanView)| (s.0, s.1.heads);
        let peers = match self.get(name) {
            Some(peers) => peers,
            None => {
                proof {
                    let nothing = Map::<Seq<u8>, OrphanView>::empty();
                    sorted_map::lemma_listing_exists::<EndpointId, OrphanView>(nothing);
                    sorted_map::lemma_listing_len::<EndpointId, OrphanView>(nothing);
                }
                return Err(CloneError::Nobody { name: name.to_owned() });
            },
        };
        let len: usize = peers.len();
        let ghost list = sorted_map::listing::<EndpointId, OrphanView>(peers@);
        let mut first: Option<RepoId> = None;
        let mut agree: bool = true;
        let mut sources: Vec<CloneSource> = Vec::new();
        let mut i: usize = 0;
        assert(sources_view(sources@) =~= sorted_map::kept(list.take(0), rule).map_values(
            heads_of,
        ));
        while i < len
            invariant
                i <= len,
                len == list.len(),
                list == sorted_map::listing::<EndpointId, OrphanView>(peers@),
                rule == of_connected(connected@.dom()),
                heads_of == (|s: (Seq<u8>, OrphanView)| (s.0, s.1.heads)),
                sources_view(sources@) == sorted_map::kept(list.take(i as int), rule).map_values(
                    heads_of,
                ),
                ({
                    let kept = sorted_map::kept(list.take(i as int), rule);
                    &&& first is Some <==> kept.len() > 0
                    &&& first is Some ==> first->Some_0@ == kept[0].1.id
                    &&& agree <==> !(exists|j: int|
                        0 <= j < kept.len() && (#[trigger] kept[j]).1.id != kept[0].1.id)
                }),
            decreases len - i,
        {
            let (peer, announce): (&EndpointId, &OrphanAnnounce) = peers.entry_at(i);
            let ghost before = sources@;
            let ghost old_kept = sorted_map::kept(list.take(i as int), rule);
            let ghost new_kept = sorted_map::kept(list.take(i + 1), rule);
            proof {
                sorted_map::lemma_kept_step(list, i as int, rule);
            }
            if connected.contains_key(peer) {
                assert(new_kept =~= old_kept.push((peer@, announce@)));
                let same: bool = match &first {
                    None => true,
                    Some(id) => id.same(&announce.id),
                };
                if first.is_none() {
                    first = Some(announce.id.duplicate());
                }
                proof {
                    let was = agree;
                    if was && same {
                        assert forall|j: int| 0 <= j < new_kept.len() implies (
                        #[trigger] new_kept[j]).1.id == new_kept[0].1.id by {
                            if j < old_kept.len() {
                                assert(new_kept[j] == old_kept[j]);
                            }
                        }
                    }
                    if !was {
                        let j = choose|j: int|
                            0 <= j < old_kept.len() && (#[trigger] old_kept[j]).1.id
                                != old_kept[0].1.id;
                        assert(new_kept[j] == old_kept[j]);
                    }
                    if !same {
                        assert(new_kept[old_kept.len() as int].1.id != new_kept[0].1.id);
                    }
                }
                agree = agree && same;
                let heads = duplicate_heads(&announce.heads);
                sources.push(CloneSource { peer: *peer, heads });
                assert(sources_view(sources@) =~= sources_view(before).push(
                    (peer@, announce@.heads),
                ));
                assert(new_kept.map_values(heads_of) =~= old_kept.map_values(heads_of).push(
                    (peer@, announce@.heads),
                ));
            }
            i = i + 1;
        }
        assert(list.take(len as int) =~= list);
        match first {
            None => Err(CloneError::Nobody { name: name.to_owned() }),
            Some(id) => if agree {
                Ok((id, sources))
            } else {
                Err(CloneError::Disagreement { name: name.to_owned() })
            },
        }
    }
}

} // verus!
