//! Mesh state file (`mesh.json`).
//!
//! This file holds the machine's copy of the mesh state, in two parts: what is
//! replicated across the mesh by the membership gossip (this machine's own
//! record, the peer records, tombstones included, and the mesh-wide repo list)
//! and what is strictly local (the repos registered here, with their paths).
//!
//! The daemon is the only writer; the CLI mutates it through the control
//! socket, and may read the file directly (for pre-checks and completion),
//! treating what it sees as advisory.

pub mod error;
pub mod guarantees;
pub mod laws;
pub mod machine;
pub mod membership;
pub mod repo;

use vstd::prelude::*;

use self::error::{Fault, StateError};
use self::machine::{Machine, MachineView, RenameError};
use self::membership::{
    MAX_MESH_REPOS, MAX_OTHER_PEERS, MAX_RECORD_VERSION, Membership, MembershipView, MeshRepo,
    MeshRepoStatus, Peer, PeerStatus, Record, bumped_version, should_adopt,
};
use self::repo::{Repo, RepoId, RepoView};
use crate::config::name::validate_name;
use crate::config::path::FsPath;
use crate::net::endpoint::EndpointId;
use crate::order::{Duplicate, Same, same_text};
use crate::sorted_map::{self, SortedMap};

verus! {

/// This machine's copy of the mesh state.
///
/// `machine`, `peers` and `mesh_repos` are replicated across the mesh by the
/// membership gossip; `repos` (with its local paths) never leaves this machine.
pub struct MeshState {
    /// This machine's own record.
    pub machine: Machine,
    /// The other machines of the mesh, keyed by endpoint id. Includes
    /// tombstones (removed peers), which gossip must remember so a removal
    /// cannot be undone by a machine that missed it.
    pub peers: SortedMap<EndpointId, Peer>,
    /// Repos registered on this machine, keyed by their mesh-wide name.
    pub repos: SortedMap<String, Repo>,
    /// Every repo the mesh knows, registered here or not. Includes tombstones
    /// (removed repos), which gossip must remember so a machine that missed the
    /// removal cannot resurrect the name.
    pub mesh_repos: SortedMap<String, MeshRepo>,
}

/// A mesh state: its records by endpoint and by name.
#[verifier::ext_equal]
pub struct MeshView {
    pub machine: MachineView,
    pub peers: Map<Seq<u8>, Record>,
    pub repos: Map<Seq<char>, RepoView>,
    pub mesh_repos: Map<Seq<char>, Record>,
}

impl View for MeshState {
    type V = MeshView;

    open spec fn view(&self) -> MeshView {
        MeshView {
            machine: self.machine@,
            peers: self.peers@,
            repos: self.repos@,
            mesh_repos: self.mesh_repos@,
        }
    }
}

impl Duplicate for MeshState {
    fn duplicate(&self) -> (copy: Self) {
        MeshState {
            machine: self.machine.duplicate(),
            peers: self.peers.duplicate(),
            repos: self.repos.duplicate(),
            mesh_repos: self.mesh_repos.duplicate(),
        }
    }
}

impl Same for MeshState {
    fn same(&self, other: &Self) -> (same: bool) {
        self.machine.same(&other.machine) && self.peers.same(&other.peers) && self.repos.same(
            &other.repos,
        ) && self.mesh_repos.same(&other.mesh_repos)
    }
}

/// The name under which an endpoint is paired, if alive.
pub open spec fn paired_as(peers: Map<Seq<u8>, Record>, endpoint: Seq<u8>) -> Option<Seq<char>> {
    if peers.contains_key(endpoint) {
        peers[endpoint].payload
    } else {
        None
    }
}

/// The id the mesh knows for a repo name, if the name is in use.
pub open spec fn mesh_id(mesh_repos: Map<Seq<char>, Record>, name: Seq<char>) -> Option<Seq<char>> {
    if mesh_repos.contains_key(name) {
        mesh_repos[name].payload
    } else {
        None
    }
}

/// The entries in use among listed records, with what they say.
pub open spec fn in_use<A>(list: Seq<(A, Record)>) -> Seq<(A, Seq<char>)>
    decreases list.len(),
{
    if list.len() == 0 {
        Seq::empty()
    } else {
        let rest = in_use(list.drop_last());
        match list.last().1.payload {
            Some(payload) => rest.push((list.last().0, payload)),
            None => rest,
        }
    }
}

/// The alive peers by endpoint, with their names.
pub open spec fn alive_listing(peers: Map<Seq<u8>, Record>) -> Seq<(Seq<u8>, Seq<char>)> {
    in_use(sorted_map::listing::<EndpointId, Record>(peers))
}

/// The repo names in use on the mesh, with their ids.
pub open spec fn mesh_listing(mesh_repos: Map<Seq<char>, Record>) -> Seq<(Seq<char>, Seq<char>)> {
    in_use(sorted_map::listing::<String, Record>(mesh_repos))
}

/// The first listed repo with an id.
pub open spec fn first_with_id(list: Seq<(Seq<char>, RepoView)>, id: Seq<char>) -> Option<
    Seq<char>,
>
    decreases list.len(),
{
    if list.len() == 0 {
        None
    } else {
        match first_with_id(list.drop_last(), id) {
            Some(name) => Some(name),
            None => if list.last().1.id == id {
                Some(list.last().0)
            } else {
                None
            },
        }
    }
}

/// The first listed repo at a path, however the path is spelled.
pub open spec fn first_at_path(list: Seq<(Seq<char>, RepoView)>, path: Seq<u8>) -> Option<
    Seq<char>,
>
    decreases list.len(),
{
    if list.len() == 0 {
        None
    } else {
        match first_at_path(list.drop_last(), path) {
            Some(name) => Some(name),
            None => if crate::config::path::same_path(list.last().1.path, path) {
                Some(list.last().0)
            } else {
                None
            },
        }
    }
}

/// The name under which a repo id is registered, if any.
pub open spec fn registered_as(repos: Map<Seq<char>, RepoView>, id: Seq<char>) -> Option<
    Seq<char>,
> {
    first_with_id(sorted_map::listing::<String, RepoView>(repos), id)
}

/// The name under which a path is registered, if any.
pub open spec fn registered_at(repos: Map<Seq<char>, RepoView>, path: Seq<u8>) -> Option<
    Seq<char>,
> {
    first_at_path(sorted_map::listing::<String, RepoView>(repos), path)
}

/// The listed peers that carry a name.
pub open spec fn carriers(alive: Seq<(Seq<u8>, Seq<char>)>, name: Seq<char>) -> Seq<Seq<u8>>
    decreases alive.len(),
{
    if alive.len() == 0 {
        Seq::empty()
    } else {
        let rest = carriers(alive.drop_last(), name);
        if alive.last().1 == name {
            rest.push(alive.last().0)
        } else {
            rest
        }
    }
}

/// The alive peer a selector means: the only one of that name, else the one
/// with that endpoint id.
pub open spec fn resolved(s: MeshView, selector: Seq<char>) -> Result<Seq<u8>, Fault> {
    let named = carriers(alive_listing(s.peers), selector);
    if named.len() == 1 {
        Ok(named[0])
    } else if named.len() > 1 {
        Err(Fault::AmbiguousPeer { selector })
    } else {
        match crate::net::endpoint::endpoint_of(selector) {
            None => Err(Fault::NoPeer { selector }),
            Some(endpoint) => if paired_as(s.peers, endpoint) is Some {
                Ok(endpoint)
            } else {
                Err(Fault::NotPaired { endpoint })
            },
        }
    }
}

/// What stands against pairing a peer.
pub open spec fn new_peer_fault(s: MeshView, name: Seq<char>, endpoint: Seq<u8>) -> Option<Fault> {
    match crate::config::name::name_fault(name) {
        Some(fault) => Some(Fault::Name { kind: "peer"@, fault }),
        None => match paired_as(s.peers, endpoint) {
            Some(existing) => Some(Fault::AlreadyPaired { endpoint, name: existing }),
            None => None,
        },
    }
}

/// What stands against registering a repo under a name and path.
pub open spec fn new_repo_fault(s: MeshView, name: Seq<char>, path: Seq<u8>) -> Option<Fault> {
    match crate::config::name::name_fault(name) {
        Some(fault) => Some(Fault::Name { kind: "repo"@, fault }),
        None => if s.repos.contains_key(name) {
            Some(Fault::RepoExists { name })
        } else {
            match registered_at(s.repos, path) {
                Some(existing) => Some(Fault::PathAdded { path, name: existing }),
                None => None,
            }
        },
    }
}

/// Whether registering a name with an id would fork it.
pub open spec fn forks(s: MeshView, name: Seq<char>, id: Seq<char>) -> bool {
    mesh_id(s.mesh_repos, name) is Some && mesh_id(s.mesh_repos, name) != Some(id)
}

/// What stands against adding a peer.
pub open spec fn add_peer_fault(s: MeshView, endpoint: Seq<u8>, name: Seq<char>) -> Option<Fault> {
    match new_peer_fault(s, name, endpoint) {
        Some(fault) => Some(fault),
        None => if !s.peers.contains_key(endpoint) && s.peers.len() >= MAX_OTHER_PEERS {
            Some(Fault::MeshFull)
        } else if membership::version_under(s.peers, endpoint) >= MAX_RECORD_VERSION {
            Some(
                Fault::Corrupted {
                    subject: crate::net::endpoint::hex_lower(endpoint),
                    version: membership::version_under(s.peers, endpoint),
                },
            )
        } else {
            None
        },
    }
}

/// A map with the record under a key changed: what it says now, one version up.
pub open spec fn rewritten<A>(
    map: Map<A, Record>,
    key: A,
    payload: Option<Seq<char>>,
) -> Map<A, Record> {
    map.insert(key, Record { version: membership::version_under(map, key) + 1, payload })
}

/// What stands against removing the peer a selector means.
pub open spec fn remove_peer_fault(s: MeshView, selector: Seq<char>) -> Option<Fault> {
    match resolved(s, selector) {
        Err(fault) => Some(fault),
        Ok(endpoint) => if membership::version_under(s.peers, endpoint) >= MAX_RECORD_VERSION {
            Some(
                Fault::Corrupted {
                    subject: crate::net::endpoint::hex_lower(endpoint),
                    version: membership::version_under(s.peers, endpoint),
                },
            )
        } else {
            None
        },
    }
}

/// What stands against registering a repo.
pub open spec fn add_repo_fault(s: MeshView, name: Seq<char>, repo: RepoView) -> Option<Fault> {
    match new_repo_fault(s, name, repo.path) {
        Some(fault) => Some(fault),
        None => if forks(s, name, repo.id) {
            Some(Fault::ForksName { name })
        } else {
            match registered_as(s.repos, repo.id) {
                Some(existing) => Some(Fault::RepoRegistered { id: repo.id, name: existing }),
                None => if !s.mesh_repos.contains_key(name) && s.mesh_repos.len()
                    >= MAX_MESH_REPOS {
                    Some(Fault::MeshReposFull)
                } else if membership::version_under(s.mesh_repos, name) >= MAX_RECORD_VERSION {
                    Some(
                        Fault::Corrupted {
                            subject: name,
                            version: membership::version_under(s.mesh_repos, name),
                        },
                    )
                } else {
                    None
                },
            }
        },
    }
}

/// What stands against retiring a repo name.
pub open spec fn remove_repo_fault(s: MeshView, name: Seq<char>) -> Option<Fault> {
    if !s.repos.contains_key(name) && !s.mesh_repos.contains_key(name) {
        Some(Fault::NoMeshRepo { name })
    } else if !s.repos.contains_key(name) && s.mesh_repos[name].payload is None {
        Some(Fault::RepoRemoved { name })
    } else if membership::version_under(s.mesh_repos, name) >= MAX_RECORD_VERSION {
        Some(
            Fault::Corrupted {
                subject: name,
                version: membership::version_under(s.mesh_repos, name),
            },
        )
    } else {
        None
    }
}

/// Whether a gossiped peer record may be held at all: below the version
/// ceiling, and under a usable name while alive.
pub open spec fn holdable_peer(record: Record) -> bool {
    &&& record.version < MAX_RECORD_VERSION
    &&& record.payload is Some ==> crate::config::name::valid_name(record.payload->Some_0)
}

/// Whether a gossiped repo record may be held at all: below the version
/// ceiling, and under a usable name.
pub open spec fn holdable_repo(name: Seq<char>, record: Record) -> bool {
    record.version < MAX_RECORD_VERSION && crate::config::name::valid_name(name)
}

/// The state after one gossiped peer record.
pub open spec fn merge_peer(
    s: MeshView,
    entry: (Seq<u8>, Record),
    local: Seq<u8>,
) -> MeshView {
    let (endpoint, record) = entry;
    if record.version >= MAX_RECORD_VERSION {
        s
    } else if endpoint == local {
        MeshView { machine: machine::observed(s.machine, record), ..s }
    } else if holdable_peer(record) && membership::adopts(
        s.peers,
        endpoint,
        record,
        MAX_OTHER_PEERS as nat,
    ) {
        MeshView { peers: s.peers.insert(endpoint, record), ..s }
    } else {
        s
    }
}

/// The state after one gossiped repo record.
pub open spec fn merge_repo(s: MeshView, entry: (Seq<char>, Record)) -> MeshView {
    let (name, record) = entry;
    if holdable_repo(name, record) && membership::adopts(
        s.mesh_repos,
        name,
        record,
        MAX_MESH_REPOS as nat,
    ) {
        MeshView {
            mesh_repos: s.mesh_repos.insert(name, record),
            repos: if record.payload is None {
                s.repos.remove(name)
            } else {
                s.repos
            },
            ..s
        }
    } else {
        s
    }
}

/// The state after gossiped peer records, taken in order.
pub open spec fn merge_peers(
    s: MeshView,
    list: Seq<(Seq<u8>, Record)>,
    local: Seq<u8>,
) -> MeshView
    decreases list.len(),
{
    if list.len() == 0 {
        s
    } else {
        merge_peer(merge_peers(s, list.drop_last(), local), list.last(), local)
    }
}

/// The state after gossiped repo records, taken in order.
pub open spec fn merge_repos(s: MeshView, list: Seq<(Seq<char>, Record)>) -> MeshView
    decreases list.len(),
{
    if list.len() == 0 {
        s
    } else {
        merge_repo(merge_repos(s, list.drop_last()), list.last())
    }
}

/// The state after a gossiped membership.
pub open spec fn merged(s: MeshView, remote: MembershipView, local: Seq<u8>) -> MeshView {
    merge_repos(
        merge_peers(s, sorted_map::listing::<EndpointId, Record>(remote.peers), local),
        sorted_map::listing::<String, Record>(remote.repos),
    )
}

/// The membership a state gossips.
pub open spec fn membership_of(s: MeshView, local: Seq<u8>) -> MembershipView {
    MembershipView {
        peers: s.peers.insert(local, machine::own_record(s.machine)),
        repos: s.mesh_repos,
    }
}

impl Default for MeshState {
    /// An empty state, for a machine that has not joined a mesh.
    fn default() -> (state: Self)
        ensures
            state@.machine.version == 0,
            exists|host: Seq<char>|
                state@.machine.name == #[trigger] machine::machine_name(host),
            state@.peers == Map::<Seq<u8>, Record>::empty(),
            state@.repos == Map::<Seq<char>, RepoView>::empty(),
            state@.mesh_repos == Map::<Seq<char>, Record>::empty(),
    {
        MeshState {
            machine: Machine::default(),
            peers: SortedMap::new(),
            repos: SortedMap::new(),
            mesh_repos: SortedMap::new(),
        }
    }
}

impl MeshState {
    /// The name under which an endpoint is paired, if alive.
    pub fn peer_name(&self, endpoint: &EndpointId) -> (name: Option<&str>)
        ensures
            match name {
                Some(n) => paired_as(self@.peers, endpoint@) == Some(n@),
                None => paired_as(self@.peers, endpoint@) is None,
            },
    {
        match self.peers.get(endpoint) {
            Some(peer) => peer.name(),
            None => None,
        }
    }

    /// The alive peers, as `(endpoint, name)` pairs in endpoint order.
    pub fn alive_peers(&self) -> (alive: Vec<(EndpointId, String)>)
        ensures
            alive@.map_values(|p: (EndpointId, String)| (p.0@, p.1@)) == alive_listing(
                self@.peers,
            ),
    {
        let mut alive: Vec<(EndpointId, String)> = Vec::new();
        let len: usize = self.peers.len();
        let ghost list = sorted_map::listing::<EndpointId, Record>(self@.peers);
        let ghost shown = |p: (EndpointId, String)| (p.0@, p.1@);
        let mut i: usize = 0;
        assert(alive@.map_values(shown) =~= in_use(list.take(0)));
        while i < len
            invariant
                i <= len,
                len == list.len(),
                list == sorted_map::listing::<EndpointId, Record>(self.peers@),
                shown == (|p: (EndpointId, String)| (p.0@, p.1@)),
                alive@.map_values(shown) == in_use(list.take(i as int)),
            decreases len - i,
        {
            let (endpoint, peer): (&EndpointId, &Peer) = self.peers.entry_at(i);
            let ghost before = alive@;
            assert(list.take(i + 1).drop_last() =~= list.take(i as int));
            if let Some(name) = peer.name() {
                alive.push((*endpoint, name.to_owned()));
                assert(alive@.map_values(shown) =~= before.map_values(shown).push(
                    (endpoint@, name@),
                ));
            }
            i = i + 1;
        }
        assert(list.take(len as int) =~= list);
        alive
    }

    /// The name under which a repo id is registered, if any.
    pub fn repo_name(&self, id: &RepoId) -> (name: Option<&str>)
        ensures
            match name {
                Some(n) => registered_as(self@.repos, id@) == Some(n@),
                None => registered_as(self@.repos, id@) is None,
            },
    {
        let len: usize = self.repos.len();
        let ghost list = sorted_map::listing::<String, RepoView>(self@.repos);
        let mut i: usize = 0;
        while i < len
            invariant
                i <= len,
                len == list.len(),
                list == sorted_map::listing::<String, RepoView>(self.repos@),
                first_with_id(list.take(i as int), id@) is None,
            decreases len - i,
        {
            let (name, repo): (&String, &Repo) = self.repos.entry_at(i);
            assert(list.take(i + 1).drop_last() =~= list.take(i as int));
            if repo.id.same(id) {
                proof {
                    lemma_first_with_id_stays(list, i + 1, id@);
                }
                return Some(name.as_str());
            }
            i = i + 1;
        }
        assert(list.take(len as int) =~= list);
        None
    }

    /// Checks that a peer can be paired under this name and endpoint.
    /// Duplicate names are allowed (machines are identified by their key; two
    /// laptops may both be called `laptop`), an alive endpoint is not.
    pub fn validate_new_peer(&self, name: &str, endpoint: &EndpointId) -> (r: Result<
        (),
        StateError,
    >)
        ensures
            match r {
                Ok(()) => new_peer_fault(self@, name@, endpoint@) is None,
                Err(e) => new_peer_fault(self@, name@, endpoint@) == Some(e@),
            },
    {
        match validate_name("peer", name) {
            Ok(()) => {},
            Err(e) => {
                return Err(StateError::Name(e));
            },
        }
        match self.peer_name(endpoint) {
            Some(existing) => Err(
                StateError::AlreadyPaired { endpoint: *endpoint, name: existing.to_owned() },
            ),
            None => Ok(()),
        }
    }

    /// Checks that a repo can be registered here under this name and path. Two
    /// spellings of one directory must not register twice, so the path is to
    /// be given in canonical form, as the registered ones are. A path that does
    /// not resolve is given as it is, and told apart by its components.
    pub fn validate_new_repo(&self, name: &str, path: &FsPath) -> (r: Result<(), StateError>)
        ensures
            match r {
                Ok(()) => new_repo_fault(self@, name@, path@) is None,
                Err(e) => new_repo_fault(self@, name@, path@) == Some(e@),
            },
    {
        match validate_name("repo", name) {
            Ok(()) => {},
            Err(e) => {
                return Err(StateError::Name(e));
            },
        }
        if self.repos.contains_key(&name.to_owned()) {
            return Err(StateError::RepoExists { name: name.to_owned() });
        }
        let len: usize = self.repos.len();
        let ghost list = sorted_map::listing::<String, RepoView>(self@.repos);
        let mut i: usize = 0;
        while i < len
            invariant
                i <= len,
                len == list.len(),
                list == sorted_map::listing::<String, RepoView>(self.repos@),
                crate::config::name::valid_name(name@),
                !self.repos@.contains_key(name@),
                first_at_path(list.take(i as int), path@) is None,
            decreases len - i,
        {
            let (existing, repo): (&String, &Repo) = self.repos.entry_at(i);
            assert(list.take(i + 1).drop_last() =~= list.take(i as int));
            if repo.path.same_path(path) {
                proof {
                    lemma_first_at_path_stays(list, i + 1, path@);
                }
                return Err(
                    StateError::PathAdded { path: path.duplicate(), name: existing.clone() },
                );
            }
            i = i + 1;
        }
        assert(list.take(len as int) =~= list);
        Ok(())
    }

    /// The id the mesh knows for a repo name, if the name is live there.
    pub fn mesh_repo_id(&self, name: &str) -> (id: Option<&RepoId>)
        ensures
            match id {
                Some(i) => mesh_id(self@.mesh_repos, name@) == Some(i@),
                None => mesh_id(self@.mesh_repos, name@) is None,
            },
    {
        match self.mesh_repos.get(&name.to_owned()) {
            Some(repo) => repo.id(),
            None => None,
        }
    }

    /// The repo names the mesh knows, in use (not removed), in order.
    pub fn mesh_repo_names(&self) -> (names: Vec<String>)
        ensures
            names@.map_values(|n: String| n@) == mesh_listing(self@.mesh_repos).map_values(
                |e: (Seq<char>, Seq<char>)| e.0,
            ),
    {
        let mut names: Vec<String> = Vec::new();
        let len: usize = self.mesh_repos.len();
        let ghost list = sorted_map::listing::<String, Record>(self@.mesh_repos);
        let ghost shown = |n: String| n@;
        let ghost first = |e: (Seq<char>, Seq<char>)| e.0;
        let mut i: usize = 0;
        assert(names@.map_values(shown) =~= in_use(list.take(0)).map_values(first));
        while i < len
            invariant
                i <= len,
                len == list.len(),
                list == sorted_map::listing::<String, Record>(self.mesh_repos@),
                shown == (|n: String| n@),
                first == (|e: (Seq<char>, Seq<char>)| e.0),
                names@.map_values(shown) == in_use(list.take(i as int)).map_values(first),
            decreases len - i,
        {
            let (name, repo): (&String, &MeshRepo) = self.mesh_repos.entry_at(i);
            let ghost before = names@;
            assert(list.take(i + 1).drop_last() =~= list.take(i as int));
            if repo.id().is_some() {
                names.push(name.clone());
                assert(names@.map_values(shown) =~= before.map_values(shown).push(name@));
                assert(in_use(list.take(i + 1)).map_values(first) =~= in_use(
                    list.take(i as int),
                ).map_values(first).push(name@));
            }
            i = i + 1;
        }
        assert(list.take(len as int) =~= list);
        names
    }

    /// Checks that registering `name` with this id agrees with the mesh: a name
    /// the mesh already knows may only be registered with its id (that is what
    /// a clone does), since anything else forks the name into two unrelated
    /// repos.
    pub fn ensure_mesh_id(&self, name: &str, id: &RepoId) -> (r: Result<(), StateError>)
        ensures
            match r {
                Ok(()) => !forks(self@, name@, id@),
                Err(e) => forks(self@, name@, id@) && e@ == (Fault::ForksName { name: name@ }),
            },
    {
        match self.mesh_repo_id(name) {
            Some(mesh_id) => if mesh_id.same(id) {
                Ok(())
            } else {
                Err(StateError::ForksName { name: name.to_owned() })
            },
            None => Ok(()),
        }
    }

    /// Registers a paired peer as alive, superseding any tombstone: the bumped
    /// version propagates the re-add through the gossip.
    pub fn add_peer(&mut self, endpoint: EndpointId, name: String) -> (r: Result<(), StateError>)
        ensures
            match r {
                Ok(()) => {
                    &&& add_peer_fault(old(self)@, endpoint@, name@) is None
                    &&& final(self)@ == MeshView {
                        peers: rewritten(old(self)@.peers, endpoint@, Some(name@)),
                        ..old(self)@
                    }
                },
                Err(e) => {
                    &&& add_peer_fault(old(self)@, endpoint@, name@) == Some(e@)
                    &&& final(self)@ == old(self)@
                },
            },
    {
        match self.validate_new_peer(name.as_str(), &endpoint) {
            Ok(()) => {},
            Err(e) => {
                return Err(e);
            },
        }
        // The same cap the merge and the wire enforce: going past it here would
        // make our own membership undecodable by every peer, which silently
        // stops us from gossiping anything at all.
        if !self.peers.contains_key(&endpoint) && self.peers.len() >= MAX_OTHER_PEERS {
            return Err(StateError::MeshFull);
        }
        match bumped_version(&self.peers, &endpoint) {
            Ok(version) => {
                self.peers.insert(endpoint, Peer { version, status: PeerStatus::Alive { name } });
                Ok(())
            },
            Err(version) => Err(StateError::Corrupted { subject: endpoint.to_text(), version }),
        }
    }

    /// Renames this machine; the bumped version propagates the rename through
    /// the gossip.
    pub fn rename_machine(&mut self, name: String) -> (r: Result<(), StateError>)
        ensures
            final(self)@ == (MeshView { machine: final(self)@.machine, ..old(self)@ }),
            match r {
                Ok(()) => {
                    &&& crate::config::name::valid_name(name@)
                    &&& name@ == old(self)@.machine.name ==> final(self)@.machine
                        == old(self)@.machine
                    &&& name@ != old(self)@.machine.name ==> {
                        &&& old(self)@.machine.version + 1 < MAX_RECORD_VERSION
                        &&& final(self)@.machine == MachineView {
                            name: name@,
                            version: old(self)@.machine.version + 1,
                        }
                    }
                },
                Err(e) => {
                    &&& final(self)@.machine == old(self)@.machine
                    &&& e@ == match crate::config::name::name_fault(name@) {
                        Some(fault) => Fault::Name { kind: "machine"@, fault },
                        None => Fault::Corrupted {
                            subject: "this machine"@,
                            version: old(self)@.machine.version,
                        },
                    }
                    &&& crate::config::name::valid_name(name@) ==> {
                        &&& name@ != old(self)@.machine.name
                        &&& old(self)@.machine.version + 1 >= MAX_RECORD_VERSION
                    }
                },
            },
    {
        match self.machine.rename(name) {
            Ok(()) => Ok(()),
            Err(RenameError::Name(e)) => Err(StateError::Name(e)),
            Err(RenameError::Corrupted { version }) => Err(
                StateError::Corrupted { subject: "this machine".to_owned(), version },
            ),
        }
    }

    /// Tombstones an alive peer, resolved by name or full endpoint id. The
    /// tombstone propagates the removal through the gossip.
    pub fn remove_peer(&mut self, selector: &str) -> (r: Result<EndpointId, StateError>)
        ensures
            match r {
                Ok(endpoint) => {
                    &&& remove_peer_fault(old(self)@, selector@) is None
                    &&& resolved(old(self)@, selector@) == Ok::<Seq<u8>, Fault>(endpoint@)
                    &&& final(self)@ == MeshView {
                        peers: rewritten(old(self)@.peers, endpoint@, None),
                        ..old(self)@
                    }
                },
                Err(e) => {
                    &&& remove_peer_fault(old(self)@, selector@) == Some(e@)
                    &&& final(self)@ == old(self)@
                },
            },
    {
        let endpoint = match self.resolve_peer(selector) {
            Ok(endpoint) => endpoint,
            Err(e) => {
                return Err(e);
            },
        };
        match bumped_version(&self.peers, &endpoint) {
            Ok(version) => {
                self.peers.insert(endpoint, Peer { version, status: PeerStatus::Removed });
                Ok(endpoint)
            },
            Err(version) => Err(StateError::Corrupted { subject: endpoint.to_text(), version }),
        }
    }

    /// Resolves an alive peer from a name or a full endpoint id. Names are
    /// matched first: a peer could otherwise be named after another peer's
    /// endpoint id and shadow it. Where no alive peer goes by it, the id of a
    /// paired machine, written in hex, selects that machine.
    pub fn resolve_peer(&self, selector: &str) -> (r: Result<EndpointId, StateError>)
        ensures
            match r {
                Ok(endpoint) => resolved(self@, selector@) == Ok::<Seq<u8>, Fault>(endpoint@),
                Err(e) => resolved(self@, selector@) == Err::<Seq<u8>, Fault>(e@),
            },
            forall|endpoint: Seq<u8>|
                selector@ == #[trigger] crate::net::endpoint::hex_lower(endpoint)
                    && crate::config::key::is_public_key(endpoint)
                    && carriers(alive_listing(self@.peers), selector@).len() == 0
                    && paired_as(self@.peers, endpoint) is Some ==> (r matches Ok(e) && e@
                    == endpoint),
    {
        let alive = self.alive_peers();
        let ghost shown = |p: (EndpointId, String)| (p.0@, p.1@);
        let ghost list = alive_listing(self@.peers);
        let mut named: Vec<EndpointId> = Vec::new();
        let mut i: usize = 0;
        let ghost key = |e: EndpointId| e@;
        assert(named@.map_values(key) =~= carriers(list.take(0), selector@));
        while i < alive.len()
            invariant
                i <= alive@.len(),
                shown == (|p: (EndpointId, String)| (p.0@, p.1@)),
                key == (|e: EndpointId| e@),
                list == alive@.map_values(shown),
                named@.map_values(key) == carriers(list.take(i as int), selector@),
            decreases alive@.len() - i,
        {
            let ghost before = named@;
            assert(list.take(i + 1).drop_last() =~= list.take(i as int));
            assert(list[i as int] == shown(alive@[i as int]));
            if same_text(alive[i].1.as_str(), selector) {
                named.push(alive[i].0);
                assert(named@.map_values(key) =~= before.map_values(key).push(list[i as int].0));
            }
            i = i + 1;
        }
        assert(list.take(i as int) =~= list);
        assert(named@.map_values(key).len() == named@.len());
        if named.len() == 1 {
            assert(named@.map_values(key)[0] == named@[0]@);
            return Ok(named[0]);
        }
        if named.len() > 1 {
            return Err(StateError::AmbiguousPeer { selector: selector.to_owned() });
        }
        match EndpointId::parse(selector) {
            None => Err(StateError::NoPeer { selector: selector.to_owned() }),
            Some(endpoint) => if self.peer_name(&endpoint).is_some() {
                Ok(endpoint)
            } else {
                Err(StateError::NotPaired { endpoint })
            },
        }
    }

    /// Adds a repo, rejecting duplicate names, paths and ids, and records it in
    /// the mesh-wide repo list, superseding any tombstone. The path is to be in
    /// canonical form, so path comparisons never have to resolve stored entries
    /// again.
    pub fn add_repo(&mut self, name: String, repo: Repo) -> (r: Result<(), StateError>)
        ensures
            match r {
                Ok(()) => {
                    &&& add_repo_fault(old(self)@, name@, repo@) is None
                    &&& final(self)@ == MeshView {
                        mesh_repos: rewritten(old(self)@.mesh_repos, name@, Some(repo@.id)),
                        repos: old(self)@.repos.insert(name@, repo@),
                        ..old(self)@
                    }
                },
                Err(e) => {
                    &&& add_repo_fault(old(self)@, name@, repo@) == Some(e@)
                    &&& final(self)@ == old(self)@
                },
            },
    {
        match self.validate_new_repo(name.as_str(), &repo.path) {
            Ok(()) => {},
            Err(e) => {
                return Err(e);
            },
        }
        match self.ensure_mesh_id(name.as_str(), &repo.id) {
            Ok(()) => {},
            Err(e) => {
                return Err(e);
            },
        }
        if let Some(existing) = self.repo_name(&repo.id) {
            return Err(
                StateError::RepoRegistered { id: repo.id.duplicate(), name: existing.to_owned() },
            );
        }
        if !self.mesh_repos.contains_key(&name) && self.mesh_repos.len() >= MAX_MESH_REPOS {
            return Err(StateError::MeshReposFull);
        }
        match bumped_version(&self.mesh_repos, &name) {
            Ok(version) => {
                self.mesh_repos.insert(
                    name.clone(),
                    MeshRepo {
                        version,
                        status: MeshRepoStatus::Present { id: repo.id.duplicate() },
                    },
                );
                self.repos.insert(name, repo);
                Ok(())
            },
            Err(version) => Err(StateError::Corrupted { subject: name, version }),
        }
    }

    /// Retires a repo name from the mesh: tombstones the mesh record and
    /// unregisters the repo here. The tombstone propagates the removal, so
    /// every machine stops syncing the repo; none of them touch its files.
    /// Returns whether the repo was registered on this machine.
    pub fn remove_repo(&mut self, name: &str) -> (r: Result<bool, StateError>)
        ensures
            match r {
                Ok(registered) => {
                    &&& remove_repo_fault(old(self)@, name@) is None
                    &&& registered == old(self)@.repos.contains_key(name@)
                    &&& final(self)@ == MeshView {
                        mesh_repos: rewritten(old(self)@.mesh_repos, name@, None),
                        repos: old(self)@.repos.remove(name@),
                        ..old(self)@
                    }
                },
                Err(e) => {
                    &&& remove_repo_fault(old(self)@, name@) == Some(e@)
                    &&& final(self)@ == old(self)@
                },
            },
    {
        let key = name.to_owned();
        if !self.repos.contains_key(&key) {
            match self.mesh_repos.get(&key) {
                None => {
                    return Err(StateError::NoMeshRepo { name: key });
                },
                Some(mesh) => {
                    if mesh.id().is_none() {
                        return Err(StateError::RepoRemoved { name: key });
                    }
                },
            }
        }
        match bumped_version(&self.mesh_repos, &key) {
            Ok(version) => {
                self.mesh_repos.insert(
                    key.clone(),
                    MeshRepo { version, status: MeshRepoStatus::Removed },
                );
                Ok(self.repos.remove(&key).is_some())
            },
            Err(version) => Err(StateError::Corrupted { subject: key, version }),
        }
    }

    /// Unregisters a repo on this machine only, returning its record. The mesh
    /// record is untouched: the other machines keep syncing the repo among
    /// themselves, and it stays clonable here (that is also the only way back
    /// in, since re-adding it would fork the name).
    pub fn forget_repo(&mut self, name: &str) -> (r: Result<Repo, StateError>)
        ensures
            match r {
                Ok(repo) => {
                    &&& old(self)@.repos.contains_key(name@)
                    &&& repo@ == old(self)@.repos[name@]
                    &&& final(self)@ == MeshView {
                        repos: old(self)@.repos.remove(name@),
                        ..old(self)@
                    }
                },
                Err(e) => {
                    &&& !old(self)@.repos.contains_key(name@)
                    &&& e@ == (Fault::NotRegistered { name: name@ })
                    &&& final(self)@ == old(self)@
                },
            },
    {
        let key = name.to_owned();
        match self.repos.remove(&key) {
            Some(repo) => Ok(repo),
            None => {
                assert(old(self)@.repos.remove(name@) =~= old(self)@.repos);
                Err(StateError::NotRegistered { name: key })
            },
        }
    }

    /// The membership this machine gossips: its own record under `local`, every
    /// peer record (tombstones included) and the mesh-wide repo list.
    pub fn membership(&self, local: EndpointId) -> (membership: Membership)
        ensures
            membership@ == membership_of(self@, local@),
    {
        let mut peers = self.peers.duplicate();
        peers.insert(local, self.machine.record());
        Membership { peers, repos: self.mesh_repos.duplicate() }
    }

    /// Whether the gossiped part of the state (see [`Self::membership`])
    /// differs, without building it.
    pub fn membership_differs(&self, other: &Self) -> (differs: bool)
        ensures
            differs == !(self@.machine == other@.machine && self@.peers == other@.peers
                && self@.mesh_repos == other@.mesh_repos),
    {
        !(self.machine.same(&other.machine) && self.peers.same(&other.peers)
            && self.mesh_repos.same(&other.mesh_repos))
    }

    /// Merges a peer's membership into ours. `local` is this machine's own
    /// endpoint.
    ///
    /// Records merge as versioned registers (see the `membership` submodule),
    /// so every machine converges on the same state without clocks. Adopting a
    /// removed repo also unregisters it here: that is how the removal reaches
    /// the machines that hold it.
    ///
    /// Copies of our own record are absorbed by [`Machine::observe`] and never
    /// stored as peers.
    ///
    /// New entries stop being adopted at the caps while updates to known ones
    /// keep flowing.
    pub fn merge_membership(&mut self, remote: &Membership, local: &EndpointId)
        ensures
            final(self)@ == merged(old(self)@, remote@, local@),
    {
        let ghost start = self@;
        let ghost peers = sorted_map::listing::<EndpointId, Record>(remote@.peers);
        let ghost repos = sorted_map::listing::<String, Record>(remote@.repos);
        let peers_len: usize = remote.peers.len();
        let mut i: usize = 0;
        while i < peers_len
            invariant
                i <= peers_len,
                peers_len == peers.len(),
                peers == sorted_map::listing::<EndpointId, Record>(remote.peers@),
                self@ == merge_peers(start, peers.take(i as int), local@),
            decreases peers_len - i,
        {
            let (endpoint, record): (&EndpointId, &Peer) = remote.peers.entry_at(i);
            assert(peers.take(i + 1).drop_last() =~= peers.take(i as int));
            self.merge_peer_record(endpoint, record, local);
            i = i + 1;
        }
        assert(peers.take(peers_len as int) =~= peers);
        let ghost middle = self@;
        let repos_len: usize = remote.repos.len();
        let mut j: usize = 0;
        while j < repos_len
            invariant
                j <= repos_len,
                repos_len == repos.len(),
                repos == sorted_map::listing::<String, Record>(remote.repos@),
                self@ == merge_repos(middle, repos.take(j as int)),
            decreases repos_len - j,
        {
            let (name, record): (&String, &MeshRepo) = remote.repos.entry_at(j);
            assert(repos.take(j + 1).drop_last() =~= repos.take(j as int));
            self.merge_repo_record(name, record);
            j = j + 1;
        }
        assert(repos.take(repos_len as int) =~= repos);
    }

    /// Merges one gossiped peer record.
    fn merge_peer_record(&mut self, endpoint: &EndpointId, record: &Peer, local: &EndpointId)
        ensures
            final(self)@ == merge_peer(old(self)@, (endpoint@, record@), local@),
    {
        // Strictly below the ceiling: a record *at* it could never be
        // superseded by a local change, freezing the machine's status.
        if record.version >= MAX_RECORD_VERSION {
            return;
        }
        if endpoint.same(local) {
            self.machine.observe(record);
            return;
        }
        if let Some(name) = record.name() {
            if validate_name("peer", name).is_err() {
                return;
            }
        }
        if should_adopt(&self.peers, endpoint, record, MAX_OTHER_PEERS) {
            self.peers.insert(*endpoint, record.duplicate());
        }
    }

    /// Merges one gossiped repo record.
    fn merge_repo_record(&mut self, name: &String, record: &MeshRepo)
        ensures
            final(self)@ == merge_repo(old(self)@, (name@, record@)),
    {
        if validate_name("repo", name.as_str()).is_err() || record.version >= MAX_RECORD_VERSION {
            return;
        }
        // Two unrelated repos claiming one name is a conflict only the user can
        // settle, but the list must still converge, so the ranking decides it
        // everywhere the same way. The sync-level conflict surfaces it.
        if !should_adopt(&self.mesh_repos, name, record, MAX_MESH_REPOS) {
            return;
        }
        self.mesh_repos.insert(name.clone(), record.duplicate());
        // A repo removed mesh-wide stops being synced here; its files stay
        // where they are.
        if record.id().is_none() {
            self.repos.remove(name);
        }
    }
}

/// What is found in a prefix is found in the whole.
proof fn lemma_first_with_id_stays(list: Seq<(Seq<char>, RepoView)>, n: int, id: Seq<char>)
    requires
        0 <= n <= list.len(),
        first_with_id(list.take(n), id) is Some,
    ensures
        first_with_id(list, id) == first_with_id(list.take(n), id),
    decreases list.len() - n,
{
    if n < list.len() {
        assert(list.take(n + 1).drop_last() =~= list.take(n));
        lemma_first_with_id_stays(list, n + 1, id);
    } else {
        assert(list.take(n) =~= list);
    }
}

/// What is found in a prefix is found in the whole.
proof fn lemma_first_at_path_stays(list: Seq<(Seq<char>, RepoView)>, n: int, path: Seq<u8>)
    requires
        0 <= n <= list.len(),
        first_at_path(list.take(n), path) is Some,
    ensures
        first_at_path(list, path) == first_at_path(list.take(n), path),
    decreases list.len() - n,
{
    if n < list.len() {
        assert(list.take(n + 1).drop_last() =~= list.take(n));
        lemma_first_at_path_stays(list, n + 1, path);
    } else {
        assert(list.take(n) =~= list);
    }
}

} // verus!
