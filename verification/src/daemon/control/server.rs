//! Server side of the control socket: what each request asks of the daemon and
//! how it is answered.

use vstd::prelude::*;

use crate::config::path::FsPath;
use crate::config::state::error::StateError;
use crate::config::state::repo::{Repo, RepoId};
use crate::daemon::control::protocol::{
    ConflictStatus, ConflictView, PathInfo, PathInfoView, PausedStatus, PausedView, PeerReport,
    PeerReportView, PeerStatusView, RepoStatusView, Request, RequestView,
    Response, ResponseView, Status, StatusView,
};
use crate::daemon::peers::HandleView;
use crate::daemon::repos::whole_secs;
use crate::daemon::store::{
    MeshStore, Mutation, MutationView, Outcome, OutcomeView, Prepared, StoreView,
};
use crate::net::endpoint::EndpointId;
use crate::net::sync::{StatusReport, StatusReportView};
use crate::order::Duplicate;
use crate::sorted_map::{self, SortedMap};
use crate::text::{decimal_text, join3};

verus! {

/// Time budget for a whole pairing exchange, from dialing to completion.
pub const PAIRING_TIMEOUT: u64 = 60_000;

/// Initial retry delay after an accept error, escalating to the max.
pub const ACCEPT_ERROR_BACKOFF: u64 = 100;

/// Ceiling of the retry delay after accept errors.
pub const ACCEPT_ERROR_BACKOFF_MAX: u64 = 5_000;

/// What a request asks of the daemon.
pub enum Work {
    /// Snapshot the daemon state.
    Status,
    /// Issue a pairing ticket.
    HostPairing,
    /// Run a pairing exchange with the host of a ticket.
    JoinPairing { ticket: String },
    /// Pull a repo and register it.
    Clone { name: String, path: FsPath },
    /// Find the repo a path lies in, then register it.
    Discover { name: String, path: FsPath },
    /// Change the mesh state.
    Mutate { mutation: Mutation },
}

/// What a request asks of the daemon, by content.
pub enum WorkView {
    Status,
    HostPairing,
    JoinPairing { ticket: Seq<char> },
    Clone { name: Seq<char>, path: Seq<u8> },
    Discover { name: Seq<char>, path: Seq<u8> },
    Mutate { mutation: MutationView },
}

impl View for Work {
    type V = WorkView;

    open spec fn view(&self) -> WorkView {
        match self {
            Work::Status => WorkView::Status,
            Work::HostPairing => WorkView::HostPairing,
            Work::JoinPairing { ticket } => WorkView::JoinPairing { ticket: ticket@ },
            Work::Clone { name, path } => WorkView::Clone { name: name@, path: path@ },
            Work::Discover { name, path } => WorkView::Discover { name: name@, path: path@ },
            Work::Mutate { mutation } => WorkView::Mutate { mutation: mutation@ },
        }
    }
}

/// The work a request is.
pub open spec fn work_of(request: RequestView) -> WorkView {
    match request {
        RequestView::Status => WorkView::Status,
        RequestView::PairHost => WorkView::HostPairing,
        RequestView::PairJoin { ticket } => WorkView::JoinPairing { ticket },
        RequestView::CloneRepo { name, path } => WorkView::Clone { name, path },
        RequestView::AddRepo { name, path } => WorkView::Discover { name, path },
        RequestView::RemoveRepo { name } => WorkView::Mutate {
            mutation: MutationView::RemoveRepo { name },
        },
        RequestView::RemovePeer { peer } => WorkView::Mutate {
            mutation: MutationView::RemovePeer { peer },
        },
        RequestView::ForgetRepo { name } => WorkView::Mutate {
            mutation: MutationView::ForgetRepo { name },
        },
        RequestView::RenameMachine { name } => WorkView::Mutate {
            mutation: MutationView::RenameMachine { name },
        },
    }
}

/// Sorts a request by the work it is.
pub fn handle(request: Request) -> (work: Work)
    ensures
        work@ == work_of(request@),
{
    match request {
        Request::Status => Work::Status,
        Request::PairHost => Work::HostPairing,
        Request::PairJoin { ticket } => Work::JoinPairing { ticket },
        Request::CloneRepo { name, path } => Work::Clone { name, path },
        Request::AddRepo { name, path } => Work::Discover { name, path },
        Request::RemoveRepo { name } => Work::Mutate { mutation: Mutation::RemoveRepo { name } },
        Request::RemovePeer { peer } => Work::Mutate { mutation: Mutation::RemovePeer { peer } },
        Request::ForgetRepo { name } => Work::Mutate { mutation: Mutation::ForgetRepo { name } },
        Request::RenameMachine { name } => Work::Mutate {
            mutation: Mutation::RenameMachine { name },
        },
    }
}

/// The change that registers a discovered repo under a fresh id. The workspace
/// root found is what is stored, not the path that was asked for: that keeps two
/// spellings of one repo from registering twice.
pub fn register(name: String, root: FsPath) -> (mutation: Mutation)
    ensures
        ({
            let m = mutation@;
            &&& m is AddRepo
            &&& m->AddRepo_name == name@
            &&& m->repo.path == root@
            &&& crate::config::state::repo::valid_repo_id(m->repo.id)
        }),
{
    Mutation::AddRepo { name, repo: Repo { id: RepoId::generate(), path: root } }
}

/// How the outcome of a change is answered. A merged membership has no one to
/// answer.
pub open spec fn answer_of(outcome: OutcomeView) -> Option<ResponseView> {
    match outcome {
        OutcomeView::Merged => None,
        OutcomeView::Paired { name, endpoint } => Some(ResponseView::Paired { name, endpoint }),
        OutcomeView::RepoAdded => Some(ResponseView::RepoAdded),
        OutcomeView::RepoRemoved { was_local } => Some(ResponseView::RepoRemoved { was_local }),
        OutcomeView::PeerRemoved { endpoint } => Some(ResponseView::PeerRemoved(endpoint)),
        OutcomeView::RepoForgotten { path } => Some(ResponseView::RepoForgotten { path }),
        OutcomeView::MachineRenamed => Some(ResponseView::MachineRenamed),
    }
}

/// Answers a change that was made.
pub fn answer(outcome: Outcome) -> (response: Option<Response>)
    ensures
        match response {
            Some(r) => answer_of(outcome@) == Some(r@),
            None => answer_of(outcome@) is None,
        },
{
    match outcome {
        Outcome::Merged => None,
        Outcome::Paired { name, endpoint } => Some(Response::Paired { name, endpoint }),
        Outcome::RepoAdded => Some(Response::RepoAdded),
        Outcome::RepoRemoved { was_local } => Some(Response::RepoRemoved { was_local }),
        Outcome::PeerRemoved { endpoint } => Some(Response::PeerRemoved(endpoint)),
        Outcome::RepoForgotten { path } => Some(Response::RepoForgotten { path }),
        Outcome::MachineRenamed => Some(Response::MachineRenamed),
    }
}

/// Answers a change that was refused.
pub fn refuse(error: &StateError) -> (response: Response)
    ensures
        response@ == ResponseView::Error(crate::config::state::error::fault_text(error@)),
{
    Response::Error(error.message())
}

/// How joining a pairing went.
#[derive(PartialEq, Eq, Debug)]
pub enum Joining {
    /// The host was reached and proved possession of the ticket.
    Proved { endpoint: EndpointId, name: String },
    /// The exchange failed.
    Failed { error: String },
    /// The time budget ran out.
    TimedOut,
    /// The client closed its end of the connection.
    ClientGone,
}

/// What follows an attempt to join a pairing.
pub enum Joined {
    /// Nobody is waiting for an answer anymore.
    Abandoned,
    /// Answer that the pairing failed.
    Failed { error: String },
    /// Save and commit the peer, then answer the outcome.
    Register { prepared: Prepared },
}

/// What the client is told when joining takes longer than [`PAIRING_TIMEOUT`].
pub open spec fn joining_timeout() -> Seq<char> {
    "pairing timed out after "@ + crate::text::decimal((PAIRING_TIMEOUT / 1_000) as nat) + "s"@
}

/// Settles an attempt to join a pairing hosted by another machine. Only a
/// completed exchange registers a peer, so a cancelled join cannot pair behind
/// the user's back.
pub fn pair_join(store: &MeshStore, joining: Joining) -> (joined: Joined)
    ensures
        match joining {
            Joining::ClientGone => joined is Abandoned,
            Joining::TimedOut => {
                &&& joined is Failed
                &&& joined->error@ == joining_timeout()
            },
            Joining::Failed { error } => {
                &&& joined is Failed
                &&& joined->error@ == error@
            },
            Joining::Proved { endpoint, name } => {
                let peer = MutationView::AddPairedPeer { endpoint: endpoint@, name: name@ };
                match crate::daemon::store::mutated(store@.state, peer, store@.local) {
                    Err(fault) => {
                        &&& joined is Failed
                        &&& joined->error@ == crate::config::state::error::fault_text(fault)
                    },
                    Ok((after, outcome)) => {
                        &&& joined is Register
                        &&& joined->prepared.outcome@ == outcome
                        &&& match joined->prepared.next {
                            Some(next) => next@ == after && after != store@.state,
                            None => after == store@.state,
                        }
                    },
                }
            },
        },
{
    match joining {
        Joining::ClientGone => Joined::Abandoned,
        Joining::TimedOut => Joined::Failed {
            error: join3(
                "pairing timed out after ",
                decimal_text(PAIRING_TIMEOUT / 1_000).as_str(),
                "s",
            ),
        },
        Joining::Failed { error } => Joined::Failed { error },
        Joining::Proved { endpoint, name } => match store.add_paired_peer(endpoint, name) {
            Ok(prepared) => Joined::Register { prepared },
            Err(e) => Joined::Failed { error: e.message() },
        },
    }
}

/// Contested names with the contesting peers' names; peers that are not managed
/// are left out.
pub open spec fn named_conflicts(
    list: Seq<(Seq<char>, Seq<u8>)>,
    peers: Map<Seq<u8>, HandleView>,
) -> Seq<ConflictView>
    decreases list.len(),
{
    if list.len() == 0 {
        Seq::empty()
    } else {
        let rest = named_conflicts(list.drop_last(), peers);
        match crate::daemon::peers::name_of(peers, list.last().1) {
            Some(peer) => rest.push(ConflictView { repo: list.last().0, peer }),
            None => rest,
        }
    }
}

/// Reports under their peers' names; peers that are not managed are left out.
pub open spec fn named_reports(
    list: Seq<(Seq<u8>, StatusReportView)>,
    peers: Map<Seq<u8>, HandleView>,
) -> Seq<PeerReportView>
    decreases list.len(),
{
    if list.len() == 0 {
        Seq::empty()
    } else {
        let rest = named_reports(list.drop_last(), peers);
        match crate::daemon::peers::name_of(peers, list.last().0) {
            Some(peer) => rest.push(PeerReportView { peer, report: list.last().1 }),
            None => rest,
        }
    }
}

/// The names of the managed ones among peers.
pub open spec fn peer_names(list: Seq<Seq<u8>>, peers: Map<Seq<u8>, HandleView>) -> Seq<Seq<char>>
    decreases list.len(),
{
    if list.len() == 0 {
        Seq::empty()
    } else {
        let rest = peer_names(list.drop_last(), peers);
        match crate::daemon::peers::name_of(peers, list.last()) {
            Some(peer) => rest.push(peer),
            None => rest,
        }
    }
}

/// Paused repos with the names of the peers that pause them.
pub open spec fn named_pauses(
    list: Seq<(Seq<char>, Seq<Seq<u8>>)>,
    peers: Map<Seq<u8>, HandleView>,
) -> Seq<PausedView> {
    list.map_values(
        |e: (Seq<char>, Seq<Seq<u8>>)| PausedView { repo: e.0, peers: peer_names(e.1, peers) },
    )
}

/// The names that are not registered here.
pub open spec fn unregistered_names<V>(
    names: Seq<Seq<char>>,
    repos: Map<Seq<char>, V>,
) -> Seq<Seq<char>>
    decreases names.len(),
{
    if names.len() == 0 {
        Seq::empty()
    } else {
        let rest = unregistered_names(names.drop_last(), repos);
        if repos.contains_key(names.last()) {
            rest
        } else {
            rest.push(names.last())
        }
    }
}

/// The clonable names of a state: in use on the mesh, and not registered here.
pub open spec fn clonable(s: crate::config::state::MeshView) -> Seq<Seq<char>> {
    unregistered_names(
        crate::config::state::mesh_listing(s.mesh_repos).map_values(
            |e: (Seq<char>, Seq<char>)| e.0,
        ),
        s.repos,
    )
}

/// The daemon state a store is in, at a steady and a wall clock time.
pub open spec fn status_of(
    s: StoreView,
    paths: Map<Seq<u8>, PathInfoView>,
    jj_version: Option<Seq<char>>,
    started: u64,
    now: u64,
    wall: u64,
) -> StatusView {
    StatusView {
        name: s.state.machine.name,
        endpoint: s.local,
        uptime_secs: crate::daemon::repos::secs_between(started, wall),
        jj_version,
        peers: sorted_map::listing::<EndpointId, HandleView>(s.peers.peers).map_values(
            |e: (Seq<u8>, HandleView)|
                PeerStatusView {
                    name: e.1.name,
                    endpoint: e.0,
                    connection: crate::daemon::peers::connection_of(
                        e.1.state,
                        crate::daemon::peers::known_path(paths, e.0),
                        now,
                    ),
                },
        ),
        repos: sorted_map::listing::<String, crate::daemon::repos::HandleView>(
            s.repos.repos,
        ).map_values(
            |e: (Seq<char>, crate::daemon::repos::HandleView)|
                RepoStatusView {
                    name: e.0,
                    path: e.1.path,
                    watch: crate::daemon::repos::watch_of(e.1.state, now, wall),
                },
        ),
        available: clonable(s.state),
        conflicts: named_conflicts(
            crate::daemon::hub::contests(
                sorted_map::listing::<String, crate::daemon::hub::RepoEntryView>(s.hub.repos),
            ),
            s.peers.peers,
        ),
        paused: named_pauses(crate::daemon::hub::paused_listing(s.hub), s.peers.peers),
        peer_reports: named_reports(
            sorted_map::listing::<EndpointId, StatusReportView>(s.hub.reports),
            s.peers.peers,
        ),
    }
}

/// The mesh repos not registered here, which can be cloned.
pub fn available_repos(state: &crate::config::state::MeshState) -> (available: Vec<String>)
    ensures
        available@.map_values(|n: String| n@) == clonable(state@),
{
    let names = state.mesh_repo_names();
    let ghost view = |n: String| n@;
    let ghost all = names@.map_values(view);
    let mut available: Vec<String> = Vec::new();
    let mut i: usize = 0;
    assert(available@.map_values(view) =~= unregistered_names(all.take(0), state@.repos));
    while i < names.len()
        invariant
            i <= names@.len(),
            view == (|n: String| n@),
            all == names@.map_values(view),
            available@.map_values(view) == unregistered_names(all.take(i as int), state@.repos),
        decreases names@.len() - i,
    {
        let ghost before = available@;
        assert(all.take(i + 1).drop_last() =~= all.take(i as int));
        assert(all.take(i + 1).last() == names@[i as int]@);
        if !state.repos.contains_key(&names[i]) {
            available.push(names[i].clone());
            assert(available@.map_values(view) =~= before.map_values(view).push(
                names@[i as int]@,
            ));
        }
        i = i + 1;
    }
    assert(all.take(i as int) =~= all);
    available
}

/// Contested names, peers resolved to (and filtered by) their paired name: hub
/// state recorded for a since-unpaired peer can no longer be acted on, and the
/// endpoint is not ours to show.
fn conflicts(store: &MeshStore) -> (conflicts: Vec<ConflictStatus>)
    ensures
        conflicts@.map_values(|c: ConflictStatus| c@) == named_conflicts(
            crate::daemon::hub::contests(
                sorted_map::listing::<String, crate::daemon::hub::RepoEntryView>(store@.hub.repos),
            ),
            store@.peers.peers,
        ),
{
    let contested = store.hub.conflicts();
    let ghost pair = |c: (String, EndpointId)| (c.0@, c.1@);
    let ghost view = |c: ConflictStatus| c@;
    let ghost all = contested@.map_values(pair);
    let mut conflicts: Vec<ConflictStatus> = Vec::new();
    let mut i: usize = 0;
    assert(conflicts@.map_values(view) =~= named_conflicts(all.take(0), store@.peers.peers));
    while i < contested.len()
        invariant
            i <= contested@.len(),
            pair == (|c: (String, EndpointId)| (c.0@, c.1@)),
            view == (|c: ConflictStatus| c@),
            all == contested@.map_values(pair),
            conflicts@.map_values(view) == named_conflicts(
                all.take(i as int),
                store@.peers.peers,
            ),
        decreases contested@.len() - i,
    {
        let ghost before = conflicts@;
        assert(all.take(i + 1).drop_last() =~= all.take(i as int));
        assert(all.take(i + 1).last() == pair(contested@[i as int]));
        if let Some(peer) = store.peers.name_of(&contested[i].1) {
            conflicts.push(
                ConflictStatus { repo: contested[i].0.clone(), peer: peer.to_owned() },
            );
            assert(conflicts@.map_values(view) =~= before.map_values(view).push(
                ConflictView { repo: contested@[i as int].0@, peer: peer@ },
            ));
        }
        i = i + 1;
    }
    assert(all.take(i as int) =~= all);
    conflicts
}

/// The reports of the managed peers, under their names.
fn reports(store: &MeshStore) -> (reports: Vec<PeerReport>)
    ensures
        reports@.map_values(|r: PeerReport| r@) == named_reports(
            sorted_map::listing::<EndpointId, StatusReportView>(store@.hub.reports),
            store@.peers.peers,
        ),
{
    let held = store.hub.peer_reports();
    let ghost pair = |r: (EndpointId, StatusReport)| (r.0@, r.1@);
    let ghost view = |r: PeerReport| r@;
    let ghost all = held@.map_values(pair);
    let mut reports: Vec<PeerReport> = Vec::new();
    let mut i: usize = 0;
    assert(reports@.map_values(view) =~= named_reports(all.take(0), store@.peers.peers));
    while i < held.len()
        invariant
            i <= held@.len(),
            pair == (|r: (EndpointId, StatusReport)| (r.0@, r.1@)),
            view == (|r: PeerReport| r@),
            all == held@.map_values(pair),
            reports@.map_values(view) == named_reports(all.take(i as int), store@.peers.peers),
        decreases held@.len() - i,
    {
        let ghost before = reports@;
        assert(all.take(i + 1).drop_last() =~= all.take(i as int));
        assert(all.take(i + 1).last() == pair(held@[i as int]));
        if let Some(peer) = store.peers.name_of(&held[i].0) {
            reports.push(PeerReport { peer: peer.to_owned(), report: held[i].1.duplicate() });
            assert(reports@.map_values(view) =~= before.map_values(view).push(
                PeerReportView { peer: peer@, report: held@[i as int].1@ },
            ));
        }
        i = i + 1;
    }
    assert(all.take(i as int) =~= all);
    reports
}

/// The names of the managed ones among peers.
fn names_of(store: &MeshStore, peers: &Vec<EndpointId>) -> (names: Vec<String>)
    ensures
        names@.map_values(|n: String| n@) == peer_names(
            peers@.map_values(|e: EndpointId| e@),
            store@.peers.peers,
        ),
{
    let ghost key = |e: EndpointId| e@;
    let ghost view = |n: String| n@;
    let ghost all = peers@.map_values(key);
    let mut names: Vec<String> = Vec::new();
    let mut i: usize = 0;
    assert(names@.map_values(view) =~= peer_names(all.take(0), store@.peers.peers));
    while i < peers.len()
        invariant
            i <= peers@.len(),
            key == (|e: EndpointId| e@),
            view == (|n: String| n@),
            all == peers@.map_values(key),
            names@.map_values(view) == peer_names(all.take(i as int), store@.peers.peers),
        decreases peers@.len() - i,
    {
        let ghost before = names@;
        assert(all.take(i + 1).drop_last() =~= all.take(i as int));
        assert(all.take(i + 1).last() == peers@[i as int]@);
        if let Some(peer) = store.peers.name_of(&peers[i]) {
            names.push(peer.to_owned());
            assert(names@.map_values(view) =~= before.map_values(view).push(peer@));
        }
        i = i + 1;
    }
    assert(all.take(i as int) =~= all);
    names
}

/// The paused repos, with the names of the peers that pause them.
fn pauses(store: &MeshStore) -> (paused: Vec<PausedStatus>)
    ensures
        paused@.map_values(|p: PausedStatus| p@) == named_pauses(
            crate::daemon::hub::paused_listing(store@.hub),
            store@.peers.peers,
        ),
{
    let held = store.hub.paused_repos();
    let ghost pair = |p: (String, Vec<EndpointId>)| (p.0@, p.1@.map_values(|e: EndpointId| e@));
    let ghost view = |p: PausedStatus| p@;
    let ghost all = held@.map_values(pair);
    let mut paused: Vec<PausedStatus> = Vec::new();
    let mut i: usize = 0;
    assert(paused@.map_values(view) =~= named_pauses(all.take(0), store@.peers.peers));
    while i < held.len()
        invariant
            i <= held@.len(),
            pair == (|p: (String, Vec<EndpointId>)|
                (p.0@, p.1@.map_values(|e: EndpointId| e@))),
            view == (|p: PausedStatus| p@),
            all == held@.map_values(pair),
            paused@.map_values(view) == named_pauses(all.take(i as int), store@.peers.peers),
        decreases held@.len() - i,
    {
        let ghost before = paused@;
        let peers = names_of(store, &held[i].1);
        paused.push(PausedStatus { repo: held[i].0.clone(), peers });
        proof {
            let added = PausedView {
                repo: all[i as int].0,
                peers: peer_names(all[i as int].1, store@.peers.peers),
            };
            assert(all[i as int] == pair(held@[i as int]));
            assert(paused@.last()@ == added);
            assert(paused@.map_values(view) =~= before.map_values(view).push(added));
            assert(named_pauses(all.take(i + 1), store@.peers.peers) =~= named_pauses(
                all.take(i as int),
                store@.peers.peers,
            ).push(added));
        }
        i = i + 1;
    }
    assert(all.take(i as int) =~= all);
    paused
}

/// Snapshots the daemon state, given the network paths the connections have
/// selected, when the daemon started, and the time by the steady and the wall
/// clock.
pub fn status(
    store: &MeshStore,
    paths: &SortedMap<EndpointId, PathInfo>,
    jj_version: &Option<String>,
    started: u64,
    now: u64,
    wall: u64,
) -> (status: Status)
    ensures
        status@ == status_of(
            store@,
            paths@,
            crate::net::sync::text_view(*jj_version),
            started,
            now,
            wall,
        ),
{
    let peers = store.peers.statuses(paths, now);
    let repos = store.repos.statuses(now, wall);
    Status {
        name: store.state.machine.name.clone(),
        endpoint: store.local,
        uptime_secs: whole_secs(started, wall),
        jj_version: match jj_version {
            Some(version) => Some(version.clone()),
            None => None,
        },
        peers,
        repos,
        available: available_repos(&store.state),
        conflicts: conflicts(store),
        paused: pauses(store),
        peer_reports: reports(store),
    }
}

/// The clonable repos are exactly those in use on the mesh and not registered
/// here.
pub proof fn clonable_repos_are_elsewhere(s: crate::config::state::MeshView, name: Seq<char>)
    requires
        crate::config::state::laws::real_state(s),
    ensures
        clonable(s).contains(name) <==> {
            &&& s.mesh_repos.contains_key(name)
            &&& s.mesh_repos[name].payload is Some
            &&& !s.repos.contains_key(name)
        },
{
    let listing = crate::config::state::mesh_listing(s.mesh_repos);
    let names = listing.map_values(|e: (Seq<char>, Seq<char>)| e.0);
    lemma_unregistered_names(names, s.repos, name);
    let id = s.mesh_repos[name].payload->Some_0;
    crate::config::state::guarantees::listings_show_what_is_in_use(s, Seq::empty(), name, id);
    if names.contains(name) {
        let i = choose|i: int| 0 <= i < names.len() && names[i] == name;
        let said = listing[i].1;
        assert(listing[i] == (name, said));
        crate::config::state::guarantees::listings_show_what_is_in_use(
            s,
            Seq::empty(),
            name,
            said,
        );
    }
    if listing.contains((name, id)) {
        let i = choose|i: int| 0 <= i < listing.len() && listing[i] == (name, id);
        assert(names[i] == name);
    }
}

proof fn lemma_unregistered_names<V>(
    names: Seq<Seq<char>>,
    repos: Map<Seq<char>, V>,
    name: Seq<char>,
)
    ensures
        unregistered_names(names, repos).contains(name) <==> names.contains(name)
            && !repos.contains_key(name),
    decreases names.len(),
{
    if names.len() > 0 {
        let rest = names.drop_last();
        lemma_unregistered_names(rest, repos, name);
        let before = unregistered_names(rest, repos);
        let after = unregistered_names(names, repos);
        assert(names[names.len() - 1] == names.last());
        if rest.contains(name) {
            let i = choose|i: int| 0 <= i < rest.len() && rest[i] == name;
            assert(names[i] == name);
        }
        if before.contains(name) {
            let i = choose|i: int| 0 <= i < before.len() && before[i] == name;
            assert(after[i] == name);
        }
        if names.last() == name && !repos.contains_key(name) {
            assert(after[after.len() - 1] == name);
        }
        if after.contains(name) {
            let i = choose|i: int| 0 <= i < after.len() && after[i] == name;
            if i < before.len() {
                assert(before[i] == name);
            }
        }
        if names.contains(name) {
            let i = choose|i: int| 0 <= i < names.len() && names[i] == name;
            if i < rest.len() {
                assert(rest[i] == name);
            }
        }
    }
}

/// The names shown for peers are exactly those of the managed ones among them.
pub proof fn managed_peers_are_named(
    list: Seq<Seq<u8>>,
    peers: Map<Seq<u8>, HandleView>,
    name: Seq<char>,
)
    ensures
        peer_names(list, peers).contains(name) <==> exists|i: int|
            0 <= i < list.len() && peers.contains_key(#[trigger] list[i]) && peers[list[i]].name
                == name,
    decreases list.len(),
{
    if list.len() > 0 {
        let rest = list.drop_last();
        managed_peers_are_named(rest, peers, name);
        let before = peer_names(rest, peers);
        let after = peer_names(list, peers);
        assert(forall|i: int| 0 <= i < rest.len() ==> #[trigger] rest[i] == list[i]);
        assert(list[list.len() - 1] == list.last());
        if before.contains(name) {
            let i = choose|i: int| 0 <= i < before.len() && before[i] == name;
            assert(after[i] == name);
            let n = choose|n: int|
                0 <= n < rest.len() && peers.contains_key(#[trigger] rest[n])
                    && peers[rest[n]].name == name;
            assert(peers.contains_key(list[n]));
        }
        if peers.contains_key(list.last()) && peers[list.last()].name == name {
            assert(after[after.len() - 1] == name);
        }
        if after.contains(name) {
            let i = choose|i: int| 0 <= i < after.len() && after[i] == name;
            if i < before.len() {
                assert(before[i] == name);
            }
        }
        if exists|i: int|
            0 <= i < list.len() && peers.contains_key(#[trigger] list[i]) && peers[list[i]].name
                == name {
            let i = choose|i: int|
                0 <= i < list.len() && peers.contains_key(#[trigger] list[i])
                    && peers[list[i]].name == name;
            if i < rest.len() {
                assert(peers.contains_key(rest[i]));
            }
        }
    }
}

/// The conflicts shown are exactly those with managed peers, by their names.
pub proof fn conflicts_with_managed_peers_are_shown(
    list: Seq<(Seq<char>, Seq<u8>)>,
    peers: Map<Seq<u8>, HandleView>,
    shown: ConflictView,
)
    ensures
        named_conflicts(list, peers).contains(shown) <==> exists|i: int|
            0 <= i < list.len() && (#[trigger] list[i]).0 == shown.repo && peers.contains_key(
                list[i].1,
            ) && peers[list[i].1].name == shown.peer,
    decreases list.len(),
{
    if list.len() > 0 {
        let rest = list.drop_last();
        conflicts_with_managed_peers_are_shown(rest, peers, shown);
        let before = named_conflicts(rest, peers);
        let after = named_conflicts(list, peers);
        assert(forall|i: int| 0 <= i < rest.len() ==> #[trigger] rest[i] == list[i]);
        assert(list[list.len() - 1] == list.last());
        if before.contains(shown) {
            let i = choose|i: int| 0 <= i < before.len() && before[i] == shown;
            assert(after[i] == shown);
            let n = choose|n: int|
                0 <= n < rest.len() && (#[trigger] rest[n]).0 == shown.repo
                    && peers.contains_key(rest[n].1) && peers[rest[n].1].name == shown.peer;
            assert(list[n].0 == shown.repo);
        }
        if list.last().0 == shown.repo && peers.contains_key(list.last().1)
            && peers[list.last().1].name == shown.peer {
            assert(after[after.len() - 1] == shown);
        }
        if after.contains(shown) {
            let i = choose|i: int| 0 <= i < after.len() && after[i] == shown;
            if i < before.len() {
                assert(before[i] == shown);
            }
        }
        if exists|i: int|
            0 <= i < list.len() && (#[trigger] list[i]).0 == shown.repo && peers.contains_key(
                list[i].1,
            ) && peers[list[i].1].name == shown.peer {
            let i = choose|i: int|
                0 <= i < list.len() && (#[trigger] list[i]).0 == shown.repo
                    && peers.contains_key(list[i].1) && peers[list[i].1].name == shown.peer;
            if i < rest.len() {
                assert(rest[i].0 == shown.repo);
            }
        }
    }
}

/// The reports shown are exactly those of managed peers, under their names.
pub proof fn reports_of_managed_peers_are_shown(
    list: Seq<(Seq<u8>, StatusReportView)>,
    peers: Map<Seq<u8>, HandleView>,
    shown: PeerReportView,
)
    ensures
        named_reports(list, peers).contains(shown) <==> exists|i: int|
            0 <= i < list.len() && (#[trigger] list[i]).1 == shown.report && peers.contains_key(
                list[i].0,
            ) && peers[list[i].0].name == shown.peer,
    decreases list.len(),
{
    if list.len() > 0 {
        let rest = list.drop_last();
        reports_of_managed_peers_are_shown(rest, peers, shown);
        let before = named_reports(rest, peers);
        let after = named_reports(list, peers);
        assert(forall|i: int| 0 <= i < rest.len() ==> #[trigger] rest[i] == list[i]);
        assert(list[list.len() - 1] == list.last());
        if before.contains(shown) {
            let i = choose|i: int| 0 <= i < before.len() && before[i] == shown;
            assert(after[i] == shown);
            let n = choose|n: int|
                0 <= n < rest.len() && (#[trigger] rest[n]).1 == shown.report
                    && peers.contains_key(rest[n].0) && peers[rest[n].0].name == shown.peer;
            assert(list[n].1 == shown.report);
        }
        if list.last().1 == shown.report && peers.contains_key(list.last().0)
            && peers[list.last().0].name == shown.peer {
            assert(after[after.len() - 1] == shown);
        }
        if after.contains(shown) {
            let i = choose|i: int| 0 <= i < after.len() && after[i] == shown;
            if i < before.len() {
                assert(before[i] == shown);
            }
        }
        if exists|i: int|
            0 <= i < list.len() && (#[trigger] list[i]).1 == shown.report && peers.contains_key(
                list[i].0,
            ) && peers[list[i].0].name == shown.peer {
            let i = choose|i: int|
                0 <= i < list.len() && (#[trigger] list[i]).1 == shown.report
                    && peers.contains_key(list[i].0) && peers[list[i].0].name == shown.peer;
            if i < rest.len() {
                assert(rest[i].1 == shown.report);
            }
        }
    }
}

/// The status tells this machine's name, endpoint and age, and covers every
/// managed peer and repo.
pub proof fn the_status_covers_everything(
    s: StoreView,
    paths: Map<Seq<u8>, PathInfoView>,
    jj_version: Option<Seq<char>>,
    started: u64,
    now: u64,
    wall: u64,
    peer: Seq<u8>,
    repo: Seq<char>,
)
    requires
        s.peers.peers.dom().finite(),
        s.repos.repos.dom().finite(),
    ensures
        ({
            let status = status_of(s, paths, jj_version, started, now, wall);
            &&& status.name == s.state.machine.name
            &&& status.endpoint == s.local
            &&& status.jj_version == jj_version
            &&& started <= wall ==> status.uptime_secs == (wall - started) / 1000
            &&& status.peers.len() == s.peers.peers.len()
            &&& status.repos.len() == s.repos.repos.len()
            &&& s.peers.peers.contains_key(peer) ==> exists|i: int|
                0 <= i < status.peers.len() && (#[trigger] status.peers[i]).endpoint == peer
                    && status.peers[i].name == s.peers.peers[peer].name
            &&& s.repos.repos.contains_key(repo) ==> exists|i: int|
                0 <= i < status.repos.len() && (#[trigger] status.repos[i]).name == repo
                    && status.repos[i].path == s.repos.repos[repo].path
        }),
{
    let status = status_of(s, paths, jj_version, started, now, wall);
    let all = sorted_map::listing::<EndpointId, HandleView>(s.peers.peers);
    let held = sorted_map::listing::<String, crate::daemon::repos::HandleView>(s.repos.repos);
    sorted_map::lemma_listing_exists::<EndpointId, HandleView>(s.peers.peers);
    sorted_map::lemma_listing_len::<EndpointId, HandleView>(s.peers.peers);
    sorted_map::lemma_listing_exists::<String, crate::daemon::repos::HandleView>(s.repos.repos);
    sorted_map::lemma_listing_len::<String, crate::daemon::repos::HandleView>(s.repos.repos);
    if s.peers.peers.contains_key(peer) {
        let i = choose|i: int| 0 <= i < all.len() && (#[trigger] all[i]).0 == peer;
        assert(s.peers.peers[all[i].0] == all[i].1);
        assert(status.peers[i].endpoint == peer);
    }
    if s.repos.repos.contains_key(repo) {
        let i = choose|i: int| 0 <= i < held.len() && (#[trigger] held[i]).0 == repo;
        assert(s.repos.repos[held[i].0] == held[i].1);
        assert(status.repos[i].name == repo);
    }
}

} // verus!
