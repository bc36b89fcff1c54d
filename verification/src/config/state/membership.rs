//! Gossip-replicated membership records.
//!
//! [`Peer`] and [`MeshRepo`] are versioned registers: the higher version wins,
//! and ties resolve to the retired state (removed), then to the smaller
//! payload, so every machine converges on the same record without clocks.
//! Tombstones are records too and must be remembered, so a machine that missed
//! a removal cannot undo it.

use vstd::prelude::*;

use super::repo::RepoId;
use crate::net::endpoint::EndpointId;
use crate::order::{Duplicate, Key, Rel, Same, relate_text};
use crate::sorted_map::SortedMap;

verus! {

/// Cap on machines tracked in the mesh state, tombstones included. A personal
/// mesh is a handful of machines; the cap keeps a peer from growing the state
/// file (and the membership we must be able to gossip) without bound.
pub const MAX_MESH_PEERS: usize = 256;

/// Cap on the machines tracked besides this one: the gossiped membership adds
/// our own record and must still fit [`MAX_MESH_PEERS`].
pub const MAX_OTHER_PEERS: usize = 255;

/// Cap on repos tracked in the mesh-wide repo list, same reasoning.
pub const MAX_MESH_REPOS: usize = 1024;

/// Cap on a record's version. Versions only ever advance by one per local
/// change, so a record beyond this is corrupted or hostile: without the cap, a
/// record parked at `u64::MAX` could never be superseded again, permanently
/// freezing a machine out of the mesh.
pub const MAX_RECORD_VERSION: u64 = 0x1_0000_0000;

/// A versioned register: what it says while in use, and nothing once retired.
#[verifier::ext_equal]
pub struct Record {
    pub version: nat,
    pub payload: Option<Seq<char>>,
}

/// Whether one record outranks another: higher version first, retirement
/// beating use on ties, then the smaller payload.
pub open spec fn outranks(a: Record, b: Record) -> bool {
    ||| a.version > b.version
    ||| a.version == b.version && a.payload is None && b.payload is Some
    ||| a.version == b.version && a.payload is Some && b.payload is Some
        && crate::order::text_before(a.payload->Some_0, b.payload->Some_0)
}

/// A gossip-replicated versioned register. [`Peer`] and [`MeshRepo`] are the
/// two implementors.
pub trait Register: Duplicate + View<V = Record> {
    /// Bumped on every local change, so the change outranks other machines.
    fn version(&self) -> (version: u64)
        ensures
            version == self@.version,
    ;

    /// Whether this record outranks `other` and should replace it on merge.
    fn outranks(&self, other: &Self) -> (r: bool)
        ensures
            r == outranks(self@, other@),
    ;
}

/// A machine's record in the mesh.
#[derive(PartialEq, Eq, Debug)]
pub struct Peer {
    /// Bumped on every local change to the record, so the change outranks the
    /// state every other machine holds.
    pub version: u64,
    pub status: PeerStatus,
}

/// Whether a machine is part of the mesh. `Removed` is a tombstone.
#[derive(PartialEq, Eq, Debug)]
pub enum PeerStatus {
    Alive { name: String },
    Removed,
}

/// A repo's record in the mesh-wide list.
#[derive(PartialEq, Eq, Debug)]
pub struct MeshRepo {
    /// Bumped on every local change to the record.
    pub version: u64,
    pub status: MeshRepoStatus,
}

/// Whether a repo name is in use on the mesh. `Removed` is a tombstone.
#[derive(PartialEq, Eq, Debug)]
pub enum MeshRepoStatus {
    Present { id: RepoId },
    Removed,
}

/// The membership one machine gossips: its whole view of the mesh. Sent as
/// idempotent latest-wins snapshots (on connect, on every change, and
/// periodically), so a lost message is healed by a later one.
pub struct Membership {
    pub peers: SortedMap<EndpointId, Peer>,
    /// The mesh-wide repo list, tombstones included.
    pub repos: SortedMap<String, MeshRepo>,
}

/// A membership: the records by endpoint and by repo name.
#[verifier::ext_equal]
pub struct MembershipView {
    pub peers: Map<Seq<u8>, Record>,
    pub repos: Map<Seq<char>, Record>,
}

impl View for Peer {
    type V = Record;

    open spec fn view(&self) -> Record {
        Record {
            version: self.version as nat,
            payload: match self.status {
                PeerStatus::Alive { name } => Some(name@),
                PeerStatus::Removed => None,
            },
        }
    }
}

impl View for MeshRepo {
    type V = Record;

    open spec fn view(&self) -> Record {
        Record {
            version: self.version as nat,
            payload: match self.status {
                MeshRepoStatus::Present { id } => Some(id@),
                MeshRepoStatus::Removed => None,
            },
        }
    }
}

impl View for Membership {
    type V = MembershipView;

    open spec fn view(&self) -> MembershipView {
        MembershipView { peers: self.peers@, repos: self.repos@ }
    }
}

impl Duplicate for Peer {
    fn duplicate(&self) -> (copy: Self) {
        Peer {
            version: self.version,
            status: match &self.status {
                PeerStatus::Alive { name } => PeerStatus::Alive { name: name.clone() },
                PeerStatus::Removed => PeerStatus::Removed,
            },
        }
    }
}

impl Duplicate for MeshRepo {
    fn duplicate(&self) -> (copy: Self) {
        MeshRepo {
            version: self.version,
            status: match &self.status {
                MeshRepoStatus::Present { id } => MeshRepoStatus::Present { id: id.duplicate() },
                MeshRepoStatus::Removed => MeshRepoStatus::Removed,
            },
        }
    }
}

impl Duplicate for Membership {
    fn duplicate(&self) -> (copy: Self) {
        Membership { peers: self.peers.duplicate(), repos: self.repos.duplicate() }
    }
}

impl Same for Peer {
    fn same(&self, other: &Self) -> (same: bool) {
        self.version == other.version && match (self.name(), other.name()) {
            (Some(a), Some(b)) => crate::order::same_text(a, b),
            (None, None) => true,
            _ => false,
        }
    }
}

impl Same for MeshRepo {
    fn same(&self, other: &Self) -> (same: bool) {
        self.version == other.version && match (self.id(), other.id()) {
            (Some(a), Some(b)) => a.same(b),
            (None, None) => true,
            _ => false,
        }
    }
}

impl Same for Membership {
    fn same(&self, other: &Self) -> (same: bool) {
        self.peers.same(&other.peers) && self.repos.same(&other.repos)
    }
}

impl Peer {
    /// The machine's name while it is part of the mesh; `None` for a
    /// tombstone.
    pub fn name(&self) -> (name: Option<&str>)
        ensures
            match name {
                Some(n) => self@.payload == Some(n@),
                None => self@.payload is None,
            },
    {
        match &self.status {
            PeerStatus::Alive { name } => Some(name.as_str()),
            PeerStatus::Removed => None,
        }
    }
}

impl MeshRepo {
    /// The repo's mesh id while the name is in use; `None` for a tombstone.
    pub fn id(&self) -> (id: Option<&RepoId>)
        ensures
            match id {
                Some(i) => self@.payload == Some(i@),
                None => self@.payload is None,
            },
    {
        match &self.status {
            MeshRepoStatus::Present { id } => Some(id),
            MeshRepoStatus::Removed => None,
        }
    }
}

/// Ranks two registers by version, retirement and payload.
fn outranks_by(
    version: u64,
    payload: Option<&str>,
    other_version: u64,
    other_payload: Option<&str>,
) -> (r: bool)
    ensures
        r == outranks(
            (Record {
                version: version as nat,
                payload: match payload {
                    Some(p) => Some(p@),
                    None => None,
                },
            }),
            (Record {
                version: other_version as nat,
                payload: match other_payload {
                    Some(p) => Some(p@),
                    None => None,
                },
            }),
        ),
{
    if version != other_version {
        return version > other_version;
    }
    match (payload, other_payload) {
        (None, Some(_)) => true,
        (Some(ours), Some(theirs)) => {
            let rel = relate_text(ours, theirs);
            proof {
                <String as Key>::irreflexive(ours@);
                if rel == Rel::After {
                    if crate::order::text_before(ours@, theirs@) {
                        <String as Key>::chains(ours@, theirs@, ours@);
                    }
                }
            }
            rel == Rel::Before
        },
        _ => false,
    }
}

impl Register for Peer {
    fn version(&self) -> (version: u64) {
        self.version
    }

    fn outranks(&self, other: &Self) -> (r: bool) {
        outranks_by(self.version, self.name(), other.version, other.name())
    }
}

impl Register for MeshRepo {
    fn version(&self) -> (version: u64) {
        self.version
    }

    fn outranks(&self, other: &Self) -> (r: bool) {
        let ours = match self.id() {
            Some(id) => Some(id.as_str()),
            None => None,
        };
        let theirs = match other.id() {
            Some(id) => Some(id.as_str()),
            None => None,
        };
        outranks_by(self.version, ours, other.version, theirs)
    }
}

/// The version of the record under a key, 0 where there is none.
pub open spec fn version_under<A>(map: Map<A, Record>, key: A) -> nat {
    if map.contains_key(key) {
        map[key].version
    } else {
        0
    }
}

/// Whether a gossiped record is adopted: it must outrank what is held, and a
/// key not known yet is only added below `cap`.
pub open spec fn adopts<A>(map: Map<A, Record>, key: A, record: Record, cap: nat) -> bool {
    if map.contains_key(key) {
        outranks(record, map[key])
    } else {
        map.len() < cap
    }
}

/// The version a local change to the record under `key` must carry to outrank
/// the stored one. Refuses to pass [`MAX_RECORD_VERSION`]: a saturating bump
/// would make the record unchangeable, so one parked at the ceiling is reported
/// (with its version) instead of silently freezing its subject out.
pub fn bumped_version<K: Key, V: Register>(map: &SortedMap<K, V>, key: &K) -> (r: Result<u64, u64>)
    ensures
        match r {
            Ok(version) => version_under(map@, key@) < MAX_RECORD_VERSION && version
                == version_under(map@, key@) + 1,
            Err(version) => version == version_under(map@, key@) && version >= MAX_RECORD_VERSION,
        },
{
    let version: u64 = match map.get(key) {
        Some(record) => record.version(),
        None => 0,
    };
    if version >= MAX_RECORD_VERSION {
        return Err(version);
    }
    Ok(version + 1)
}

/// The version after `version` for a record that must stay gossipable: what
/// reaches the ceiling would be skipped by every merge, so it is refused.
pub fn next_version(version: u64) -> (r: Result<u64, u64>)
    ensures
        match r {
            Ok(next) => next == version + 1 && next < MAX_RECORD_VERSION,
            Err(stuck) => stuck == version && version + 1 >= MAX_RECORD_VERSION,
        },
{
    if version >= MAX_RECORD_VERSION - 1 {
        Err(version)
    } else {
        Ok(version + 1)
    }
}

/// Whether a gossiped `record` should be adopted into `map` under `key`: it
/// must outrank what we hold, and a key we do not know is only added while the
/// map is below `cap`, so a peer cannot grow our state without bound.
pub fn should_adopt<K: Key, V: Register>(
    map: &SortedMap<K, V>,
    key: &K,
    record: &V,
    cap: usize,
) -> (r: bool)
    ensures
        r == adopts(map@, key@, record@, cap as nat),
{
    match map.get(key) {
        Some(ours) => record.outranks(ours),
        None => map.len() < cap,
    }
}

/// Ranking is a strict order: no record outranks itself, and ranking chains.
pub proof fn outranks_is_strict(a: Record, b: Record, c: Record)
    ensures
        !outranks(a, a),
        outranks(a, b) && outranks(b, c) ==> outranks(a, c),
        outranks(a, b) ==> !outranks(b, a),
{
    if a.payload is Some {
        <String as Key>::irreflexive(a.payload->Some_0);
    }
    if a.payload is Some && b.payload is Some && crate::order::text_before(
        a.payload->Some_0,
        b.payload->Some_0,
    ) {
        if c.payload is Some && crate::order::text_before(b.payload->Some_0, c.payload->Some_0) {
            <String as Key>::chains(a.payload->Some_0, b.payload->Some_0, c.payload->Some_0);
        }
        if crate::order::text_before(b.payload->Some_0, a.payload->Some_0) {
            <String as Key>::chains(a.payload->Some_0, b.payload->Some_0, a.payload->Some_0);
        }
    }
}

/// Of two different records one always outranks the other, so every machine
/// settles a disagreement the same way.
pub proof fn outranks_is_total(a: Record, b: Record)
    ensures
        a == b || outranks(a, b) || outranks(b, a),
{
    if a.payload is Some && b.payload is Some {
        <String as Key>::connected(a.payload->Some_0, b.payload->Some_0);
    }
}

/// The limits every machine goes by.
pub proof fn limits()
    ensures
        MAX_MESH_PEERS == 256,
        MAX_OTHER_PEERS + 1 == MAX_MESH_PEERS,
        MAX_MESH_REPOS == 1024,
        MAX_RECORD_VERSION == 0x1_0000_0000,
{
}

/// A newer version outranks whatever it says, and an older one never does.
pub proof fn newer_versions_outrank(a: Record, b: Record)
    requires
        a.version > b.version,
    ensures
        outranks(a, b),
        !outranks(b, a),
{
}

/// On a tie the retired record outranks the one in use, and of two in use the
/// one that says what sorts first.
pub proof fn ties_are_settled(a: Record, b: Record)
    requires
        a.version == b.version,
    ensures
        a.payload is None && b.payload is Some ==> outranks(a, b) && !outranks(b, a),
        a.payload is Some && b.payload is Some ==> (outranks(a, b) <==> crate::order::text_before(
            a.payload->Some_0,
            b.payload->Some_0,
        )),
        a.payload is None && b.payload is None ==> !outranks(a, b),
{
}

/// A known key takes any record that outranks the held one, at any size; an
/// unknown one takes whatever comes, but only below the cap.
pub proof fn adoption_takes_rank_or_room<A>(
    map: Map<A, Record>,
    key: A,
    record: Record,
    cap: nat,
)
    ensures
        map.contains_key(key) ==> (adopts(map, key, record, cap) <==> outranks(record, map[key])),
        !map.contains_key(key) ==> (adopts(map, key, record, cap) <==> map.len() < cap),
        version_under(map, key) == if map.contains_key(key) {
            map[key].version
        } else {
            0
        },
{
}

} // verus!
