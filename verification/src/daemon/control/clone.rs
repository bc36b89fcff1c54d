//! The clone handler: pull a mesh repo from an announcing peer and register it.

use vstd::prelude::*;

use crate::config::path::FsPath;
use crate::config::state::error::{Fault, StateError};
use crate::config::state::repo::RepoId;
use crate::daemon::control::protocol::{
    CloneProgress, CloneProgressView, Response, ResponseView, TransferPhase, TransferProgress,
};
use crate::daemon::hub::PeerSenderView;
use crate::daemon::hub::orphans::{CloneError, CloneFault, CloneSource};
use crate::daemon::store::{MeshStore, StoreView};
use crate::net::endpoint::EndpointId;
use crate::net::sync::duplicate_heads;
use crate::text::{join2, join3};

verus! {

/// Why a clone is refused before it starts.
#[derive(PartialEq, Eq, Debug)]
pub enum CloneRefusal {
    /// No peer to pull from.
    Source(CloneError),
    /// The repo cannot be registered.
    State(StateError),
    /// The repo is registered here under another name.
    AlreadyHere { name: String, existing: String },
}

/// Why a clone is refused, as contracts speak of it.
pub enum RefusalView {
    Source(CloneFault),
    State(Fault),
    AlreadyHere { name: Seq<char>, existing: Seq<char> },
}

impl View for CloneRefusal {
    type V = RefusalView;

    open spec fn view(&self) -> RefusalView {
        match self {
            CloneRefusal::Source(e) => RefusalView::Source(e@),
            CloneRefusal::State(e) => RefusalView::State(e@),
            CloneRefusal::AlreadyHere { name, existing } => RefusalView::AlreadyHere {
                name: name@,
                existing: existing@,
            },
        }
    }
}

impl CloneRefusal {
    /// The refusal as shown to the user.
    pub fn message(&self) -> (text: String)
        ensures
            match self@ {
                RefusalView::Source(CloneFault::Nobody { name }) => text@
                    == "no connected peer announces a repo named `"@ + name
                    + "`; check that the other machine's daemon is running and the name is correct"@,
                RefusalView::Source(CloneFault::Disagreement { name }) => text@
                    == "peers announce different repos under the name `"@ + name
                    + "`; resolve the conflict before cloning"@,
                RefusalView::State(fault) => text@ == crate::config::state::error::fault_text(
                    fault,
                ),
                RefusalView::AlreadyHere { name, existing } => text@ == "`"@ + name
                    + "` is the repo already registered here as `"@ + existing + "`"@,
            },
    {
        match self {
            CloneRefusal::Source(e) => e.message(),
            CloneRefusal::State(e) => e.message(),
            CloneRefusal::AlreadyHere { name, existing } => {
                let mut text = join3(
                    "`",
                    name.as_str(),
                    "` is the repo already registered here as `",
                );
                text.append(existing.as_str());
                text.append("`");
                text
            },
        }
    }
}

/// The id and sources of a repo that can be cloned.
pub open spec fn cloneable(s: StoreView, name: Seq<char>, path: Seq<u8>) -> Result<
    (Seq<char>, Seq<(Seq<u8>, Seq<Seq<u8>>)>),
    RefusalView,
> {
    match crate::daemon::hub::orphans::clone_resolution(s.hub.orphans, s.hub.peers.dom(), name) {
        Err(fault) => Err(RefusalView::Source(fault)),
        Ok((id, sources)) => match crate::config::state::new_repo_fault(s.state, name, path) {
            Some(fault) => Err(RefusalView::State(fault)),
            None => if crate::config::state::forks(s.state, name, id) {
                Err(RefusalView::State(Fault::ForksName { name }))
            } else {
                match crate::config::state::registered_as(s.state.repos, id) {
                    Some(existing) => Err(RefusalView::AlreadyHere { name, existing }),
                    None => Ok((id, sources)),
                }
            },
        },
    }
}

/// Checks that a clone can succeed, before the (long) pull. Only the
/// re-validation when registering is authoritative: the state may change during
/// the pull.
pub fn check_clone(store: &MeshStore, name: &str, path: &FsPath) -> (r: Result<
    (RepoId, ClonePull),
    CloneRefusal,
>)
    ensures
        match (cloneable(store@, name@, path@), r) {
            (Ok((id, sources)), Ok(found)) => {
                &&& found.0@ == id
                &&& found.1@ == (PullView { left: sources, last_error: "no usable source peer"@ })
            },
            (Err(refusal), Err(e)) => e@ == refusal,
            _ => false,
        },
{
    let (id, sources): (RepoId, Vec<CloneSource>) = match store.hub.clone_sources(name) {
        Ok(found) => found,
        Err(e) => {
            return Err(CloneRefusal::Source(e));
        },
    };
    match store.state.validate_new_repo(name, path) {
        Ok(()) => {},
        Err(e) => {
            return Err(CloneRefusal::State(e));
        },
    }
    match store.state.ensure_mesh_id(name, &id) {
        Ok(()) => {},
        Err(e) => {
            return Err(CloneRefusal::State(e));
        },
    }
    if let Some(existing) = store.state.repo_name(&id) {
        return Err(
            CloneRefusal::AlreadyHere { name: name.to_owned(), existing: existing.to_owned() },
        );
    }
    Ok((id, ClonePull::new(sources)))
}

/// The sources a clone still has to try, and why the last one failed.
pub struct ClonePull {
    sources: Vec<CloneSource>,
    tried: usize,
    last_error: String,
}

/// A clone's sources by content.
#[verifier::ext_equal]
pub struct PullView {
    pub left: Seq<(Seq<u8>, Seq<Seq<u8>>)>,
    pub last_error: Seq<char>,
}

impl View for ClonePull {
    type V = PullView;

    closed spec fn view(&self) -> PullView {
        PullView {
            left: crate::daemon::hub::orphans::sources_view(self.sources@).skip(self.tried as int),
            last_error: self.last_error@,
        }
    }
}

/// A source to pull from.
pub struct PullFrom {
    pub peer: EndpointId,
    pub conn: u64,
    /// The op heads to pull.
    pub wants: Vec<Vec<u8>>,
    /// The progress shown from here on: counters restart with every source, so
    /// a fallback is visible and a stalled dial still heartbeats fresh state.
    pub progress: CloneProgress,
}

/// How a pull failed.
#[derive(PartialEq, Eq, Debug)]
pub enum PullFailure {
    TimedOut,
    Failed { error: String },
}

/// What a failed pull is reported as.
pub open spec fn pull_error(peer: Seq<u8>, failure: PullFailure) -> Seq<char> {
    match failure {
        PullFailure::TimedOut => "pull from "@ + crate::net::endpoint::hex_lower(peer)
            + " timed out"@,
        PullFailure::Failed { error } => "pull from "@ + crate::net::endpoint::hex_lower(peer)
            + " failed: "@ + error@,
    }
}

/// The sources from the first connected one on.
pub open spec fn from_connected(
    left: Seq<(Seq<u8>, Seq<Seq<u8>>)>,
    peers: Map<Seq<u8>, PeerSenderView>,
) -> Seq<(Seq<u8>, Seq<Seq<u8>>)>
    decreases left.len(),
{
    if left.len() == 0 || peers.contains_key(left[0].0) {
        left
    } else {
        from_connected(left.skip(1), peers)
    }
}

/// What a peer is called while it is pulled from: its paired name, or its
/// endpoint id.
pub open spec fn source_name(s: StoreView, peer: Seq<u8>) -> Seq<char> {
    match crate::config::state::paired_as(s.state.peers, peer) {
        Some(name) => name,
        None => crate::net::endpoint::hex_lower(peer),
    }
}

/// The progress shown before a source is picked, so the heartbeat covers the
/// whole handler: the CLI treats a silent gap over its idle budget as a dead
/// daemon.
pub fn unpicked() -> (progress: CloneProgress)
    ensures
        progress@.peer == Seq::<char>::empty(),
        progress@.transfer == (TransferProgress {
            phase: TransferPhase::Ops,
            current: 0,
            total: None,
            bytes: 0,
        }),
{
    CloneProgress { peer: String::new(), transfer: TransferProgress::start(TransferPhase::Ops) }
}

impl ClonePull {
    #[verifier::type_invariant]
    spec fn within(self) -> bool {
        self.tried <= self.sources@.len()
    }

    /// A pull that has tried no source yet.
    pub fn new(sources: Vec<CloneSource>) -> (pull: Self)
        ensures
            pull@ == (PullView {
                left: crate::daemon::hub::orphans::sources_view(sources@),
                last_error: "no usable source peer"@,
            }),
    {
        let pull = ClonePull { sources, tried: 0, last_error: "no usable source peer".to_owned() };
        assert(crate::daemon::hub::orphans::sources_view(sources@).skip(0)
            =~= crate::daemon::hub::orphans::sources_view(sources@));
        pull
    }

    /// The next source to pull from; those not connected anymore are passed
    /// over.
    pub fn next_source(&mut self, store: &MeshStore) -> (source: Option<PullFrom>)
        ensures
            final(self)@.last_error == old(self)@.last_error,
            ({
                let usable = from_connected(old(self)@.left, store@.hub.peers);
                match source {
                    None => usable.len() == 0 && final(self)@.left == usable,
                    Some(from) => {
                        &&& usable.len() > 0
                        &&& from.peer@ == usable[0].0
                        &&& from.conn == store@.hub.peers[usable[0].0].conn
                        &&& crate::net::sync::heads_view(from.wants@) == usable[0].1
                        &&& from.progress@ == CloneProgressView {
                            peer: source_name(store@, usable[0].0),
                            transfer: TransferProgress {
                                phase: TransferPhase::Ops,
                                current: 0,
                                total: None,
                                bytes: 0,
                            },
                        }
                        &&& final(self)@.left == usable.skip(1)
                    },
                }
            }),
    {
        proof {
            use_type_invariant(&*self);
        }
        let ghost all = crate::daemon::hub::orphans::sources_view(self.sources@);
        let len: usize = self.sources.len();
        let mut i: usize = self.tried;
        while i < len
            invariant
                i <= len,
                len == self.sources@.len(),
                len == all.len(),
                all == crate::daemon::hub::orphans::sources_view(self.sources@),
                self.tried <= i,
                self@ == old(self)@,
                from_connected(old(self)@.left, store@.hub.peers) == from_connected(
                    all.skip(i as int),
                    store@.hub.peers,
                ),
            decreases len - i,
        {
            let peer = self.sources[i].peer;
            assert(all.skip(i as int)[0] == all[i as int]);
            assert(all.skip(i as int).skip(1) =~= all.skip(i + 1));
            if let Some(conn) = store.hub.connection(&peer) {
                let name = match store.state.peer_name(&peer) {
                    Some(name) => name.to_owned(),
                    None => peer.to_text(),
                };
                let wants = duplicate_heads(&self.sources[i].heads);
                self.tried = i + 1;
                return Some(
                    PullFrom {
                        peer,
                        conn,
                        wants,
                        progress: CloneProgress {
                            peer: name,
                            transfer: TransferProgress::start(TransferPhase::Ops),
                        },
                    },
                );
            }
            i = i + 1;
        }
        self.tried = len;
        assert(all.skip(len as int) =~= Seq::empty());
        None
    }

    /// Records that a source failed.
    pub fn failed(&mut self, peer: &EndpointId, failure: PullFailure)
        ensures
            final(self)@ == (PullView {
                last_error: pull_error(peer@, failure),
                ..old(self)@
            }),
    {
        proof {
            use_type_invariant(&*self);
        }
        let error = match failure {
            PullFailure::TimedOut => join3("pull from ", peer.to_text().as_str(), " timed out"),
            PullFailure::Failed { error } => join2(
                join3("pull from ", peer.to_text().as_str(), " failed: ").as_str(),
                error.as_str(),
            ),
        };
        self.last_error = error;
    }

    /// The answer once no source is left: why the last one failed.
    pub fn give_up(&self) -> (response: Response)
        ensures
            response@ == ResponseView::Error(self@.last_error),
    {
        Response::Error(self.last_error.clone())
    }
}

/// Every source tried leaves fewer to try, so a clone ends.
pub proof fn sources_run_out(
    left: Seq<(Seq<u8>, Seq<Seq<u8>>)>,
    peers: Map<Seq<u8>, PeerSenderView>,
)
    ensures
        from_connected(left, peers).len() <= left.len(),
        from_connected(left, peers).len() > 0 ==> peers.contains_key(
            from_connected(left, peers)[0].0,
        ),
    decreases left.len(),
{
    if left.len() > 0 && !peers.contains_key(left[0].0) {
        sources_run_out(left.skip(1), peers);
    }
}

/// A repo that may be cloned can be registered with its id, as long as the mesh
/// has room for its record and can change it.
pub proof fn clonable_repos_register(
    s: StoreView,
    name: Seq<char>,
    path: Seq<u8>,
    id: Seq<char>,
    sources: Seq<(Seq<u8>, Seq<Seq<u8>>)>,
)
    requires
        cloneable(s, name, path) == Ok::<
            (Seq<char>, Seq<(Seq<u8>, Seq<Seq<u8>>)>),
            RefusalView,
        >((id, sources)),
        s.state.mesh_repos.contains_key(name) || s.state.mesh_repos.len()
            < crate::config::state::membership::MAX_MESH_REPOS,
        crate::config::state::membership::version_under(s.state.mesh_repos, name)
            < crate::config::state::membership::MAX_RECORD_VERSION,
    ensures
        crate::config::state::add_repo_fault(
            s.state,
            name,
            crate::config::state::repo::RepoView { id, path },
        ) is None,
{
}

/// A clone is accepted whenever it can succeed. Where the connected peers that
/// announce a name agree on its id, the name is usable and free here, nothing is
/// registered here at the path or with the id, and the mesh knows the name under
/// that id or not at all, the clone gets that id and, as its sources, exactly
/// those peers, each with the heads it announces. It is refused only otherwise.
pub proof fn possible_clones_are_accepted(
    s: StoreView,
    name: Seq<char>,
    path: Seq<u8>,
    id: Seq<char>,
    peer: Seq<u8>,
    heads: Seq<Seq<u8>>,
)
    requires
        crate::config::state::laws::real_state(s.state),
        s.hub.orphans.contains_key(name) ==> s.hub.orphans[name].dom().finite(),
    ensures
        ({
            let r = cloneable(s, name, path);
            let made = s.hub.orphans[name];
            let listed = s.hub.orphans.contains_key(name);
            let agreed = listed && (exists|p: Seq<u8>| #[trigger]
                s.hub.peers.contains_key(p) && made.contains_key(p)) && (forall|p: Seq<u8>|
                #[trigger] s.hub.peers.contains_key(p) && made.contains_key(p) ==> made[p].id
                    == id);
            let free = crate::config::name::valid_name(name) && !s.state.repos.contains_key(name)
                && (forall|held: Seq<char>| #[trigger]
                s.state.repos.contains_key(held) ==> s.state.repos[held].id != id
                    && !crate::config::path::same_path(s.state.repos[held].path, path));
            let known = s.state.mesh_repos.contains_key(name)
                && s.state.mesh_repos[name].payload is Some;
            let fits = known ==> s.state.mesh_repos[name].payload == Some(id);
            &&& agreed && free && fits ==> r is Ok && r->Ok_0.0 == id
            &&& r is Ok && r->Ok_0.0 == id ==> agreed && free && fits
            &&& r is Ok ==> (r->Ok_0.1.contains((peer, heads)) <==> listed && made.contains_key(
                peer,
            ) && s.hub.peers.contains_key(peer) && heads == made[peer].heads)
        }),
{
    let o = s.hub.orphans;
    let connected = s.hub.peers.dom();
    let made = crate::daemon::hub::orphans::made_for(o, name);
    crate::daemon::hub::guarantees::clones_need_agreement(o, connected, name, peer, heads);
    crate::config::state::guarantees::registering_is_refused_for_a_reason(
        s.state,
        name,
        crate::config::state::repo::RepoView { id, path },
    );
    crate::config::state::guarantees::registered_repos_are_found(s.state, id, path);
    let found = crate::daemon::hub::orphans::clone_resolution(o, connected, name);
    assert forall|p: Seq<u8>| #[trigger] made.contains_key(p) && connected.contains(
        p,
    ) implies s.hub.peers.contains_key(p) && o.contains_key(name) && o[name].contains_key(p) by {}
    if o.contains_key(name) && exists|p: Seq<u8>| #[trigger]
        s.hub.peers.contains_key(p) && o[name].contains_key(p) {
        let p = choose|p: Seq<u8>| #[trigger]
            s.hub.peers.contains_key(p) && o[name].contains_key(p);
        assert(made.contains_key(p) && connected.contains(p));
        crate::daemon::hub::guarantees::clones_need_agreement(o, connected, name, p, heads);
    }
    if found is Ok {
        assert forall|p: Seq<u8>| #[trigger]
            s.hub.peers.contains_key(p) && made.contains_key(p) implies made[p].id
            == found->Ok_0.0 by {
            crate::daemon::hub::guarantees::clones_need_agreement(o, connected, name, p, heads);
        }
        let q = choose|q: Seq<u8>| #[trigger] made.contains_key(q) && connected.contains(q);
        assert(s.hub.peers.contains_key(q));
    }
    if cloneable(s, name, path) is Ok {
        assert(cloneable(s, name, path)->Ok_0 == found->Ok_0);
    }
}

/// A refused clone is refused for the first thing that stands against it: no
/// source to pull from, then the name or the path, then the mesh's own id for
/// the name, then the id being registered here already.
pub proof fn clones_are_refused_for_a_reason(s: StoreView, name: Seq<char>, path: Seq<u8>)
    requires
        crate::config::state::laws::real_state(s.state),
        s.hub.orphans.contains_key(name) ==> s.hub.orphans[name].dom().finite(),
    ensures
        ({
            let r = cloneable(s, name, path);
            let found = crate::daemon::hub::orphans::clone_resolution(
                s.hub.orphans,
                s.hub.peers.dom(),
                name,
            );
            let id = found->Ok_0.0;
            let fault = crate::config::state::new_repo_fault(s.state, name, path);
            let known = s.state.mesh_repos.contains_key(name)
                && s.state.mesh_repos[name].payload is Some;
            let forked = known && s.state.mesh_repos[name].payload != Some(id);
            &&& found is Err ==> r == Err::<
                (Seq<char>, Seq<(Seq<u8>, Seq<Seq<u8>>)>),
                RefusalView,
            >(RefusalView::Source(found->Err_0))
            &&& found is Ok && fault is Some ==> r == Err::<
                (Seq<char>, Seq<(Seq<u8>, Seq<Seq<u8>>)>),
                RefusalView,
            >(RefusalView::State(fault->Some_0))
            &&& found is Ok && fault is None && forked ==> r == Err::<
                (Seq<char>, Seq<(Seq<u8>, Seq<Seq<u8>>)>),
                RefusalView,
            >(RefusalView::State(Fault::ForksName { name }))
            &&& found is Ok && fault is None && !forked && r is Err ==> {
                &&& r->Err_0 is AlreadyHere
                &&& r->Err_0->AlreadyHere_name == name
                &&& s.state.repos.contains_key(r->Err_0->existing)
                &&& s.state.repos[r->Err_0->existing].id == id
            }
            &&& r is Ok ==> r == Ok::<(Seq<char>, Seq<(Seq<u8>, Seq<Seq<u8>>)>), RefusalView>(
                found->Ok_0,
            )
        }),
{
    let found = crate::daemon::hub::orphans::clone_resolution(
        s.hub.orphans,
        s.hub.peers.dom(),
        name,
    );
    crate::config::state::guarantees::registered_repos_are_found(s.state, found->Ok_0.0, path);
}

/// A clone tries its sources in order, passing over those that left and only
/// those; it gives up only when every source left is gone.
pub proof fn sources_are_tried_in_order(
    left: Seq<(Seq<u8>, Seq<Seq<u8>>)>,
    peers: Map<Seq<u8>, PeerSenderView>,
)
    ensures
        ({
            let usable = from_connected(left, peers);
            let passed = left.len() - usable.len();
            &&& 0 <= passed
            &&& usable == left.skip(passed)
            &&& forall|i: int|
                0 <= i < passed ==> !peers.contains_key((#[trigger] left[i]).0)
            &&& usable.len() > 0 ==> peers.contains_key(usable[0].0)
        }),
    decreases left.len(),
{
    let usable = from_connected(left, peers);
    let passed = left.len() - usable.len();
    if left.len() == 0 || peers.contains_key(left[0].0) {
        assert(left.skip(0) =~= left);
    } else {
        let rest = left.skip(1);
        sources_are_tried_in_order(rest, peers);
        assert(left.skip(passed) =~= rest.skip(passed - 1));
        assert forall|i: int| 0 <= i < passed implies !peers.contains_key(
            (#[trigger] left[i]).0,
        ) by {
            if i > 0 {
                assert(rest[i - 1] == left[i]);
            }
        }
    }
}

/// A source goes by the name it is paired under while it is, and by its endpoint
/// id otherwise.
pub proof fn sources_go_by_their_names(s: StoreView, peer: Seq<u8>)
    ensures
        ({
            let paired = s.state.peers.contains_key(peer) && s.state.peers[peer].payload is Some;
            &&& paired ==> Some(source_name(s, peer)) == s.state.peers[peer].payload
            &&& !paired ==> source_name(s, peer) == crate::net::endpoint::hex_lower(peer)
        }),
{
}

} // verus!
