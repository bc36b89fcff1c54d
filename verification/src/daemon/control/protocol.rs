//! The control-socket vocabulary: the request/response types the CLI and daemon
//! exchange, and the timing budgets that bound the exchange.

use vstd::prelude::*;

use crate::config::path::FsPath;
use crate::net::endpoint::EndpointId;
use crate::net::sync::{StatusReport, StatusReportView};
use crate::order::Duplicate;

verus! {

/// Maximum accepted size of a control message, in bytes.
pub const MAX_MESSAGE_SIZE: u32 = 0x10_0000;

/// Time budget for the quick parts of an exchange (request, status answer), in
/// milliseconds, as are all budgets here.
pub const CLIENT_TIMEOUT: u64 = 2_000;

/// Time budget the CLI grants quick mutating requests (add, remove).
pub const MUTATE_WAIT: u64 = 10_000;

/// How long an issued pairing ticket stays valid. Kept here because the CLI
/// tells the user; the daemon enforces it.
pub const PAIR_TICKET_TTL: u64 = 180_000;

/// Deadline for the network-facing work of a clone's initial repo pull (it may
/// transfer an entire repository); the pull's local apply and index work runs
/// unbounded.
pub const CLONE_PULL_NET_TIMEOUT: u64 = 1_800_000;

/// Cadence at which the daemon re-sends the latest clone progress. Sent
/// unconditionally, changed or not: the frames double as the liveness signal
/// behind [`CLONE_IDLE_WAIT`].
pub const CLONE_PROGRESS_INTERVAL: u64 = 100;

/// Time budget the CLI grants between clone frames, not the whole exchange: the
/// daemon heartbeats progress every [`CLONE_PROGRESS_INTERVAL`] while the clone
/// runs, so a silent daemon is a dead one.
pub const CLONE_IDLE_WAIT: u64 = 30_000;

/// A request from the CLI to the daemon.
///
/// Variants are encoded by position: existing ones must keep their position
/// *and meaning* (renames are fine), and new ones are only appended, so an
/// exchange stays semantically sound across a CLI/daemon version skew.
#[derive(PartialEq, Eq, Debug)]
pub enum Request {
    /// Report the daemon state; answered with [`Response::Status`].
    Status,
    /// Host a pairing: issue a fresh one-time ticket, revoking any outstanding
    /// one. Answered with [`Response::PairTicket`] or [`Response::Error`]. The
    /// exchange itself runs in the daemon; the ticket is valid for
    /// [`PAIR_TICKET_TTL`] or until redeemed or replaced.
    PairHost,
    /// Join a pairing hosted by another machine. Answered with
    /// [`Response::Paired`] or [`Response::Error`].
    PairJoin { ticket: String },
    /// Pull the full state of the mesh repo named `name` into a freshly
    /// initialized local repo at `path` and register it. Answered with a stream
    /// of [`Response::CloneProgress`] frames ending in [`Response::Cloned`] or
    /// [`Response::Error`]; disconnecting cancels the pull.
    CloneRepo { name: String, path: FsPath },
    /// Register the repo at `path` under `name`, with a fresh id. Answered with
    /// [`Response::RepoAdded`] or [`Response::Error`].
    AddRepo { name: String, path: FsPath },
    /// Retire a repo name from the mesh, unregistering it everywhere (its files
    /// are left alone). Answered with [`Response::RepoRemoved`] or
    /// [`Response::Error`].
    RemoveRepo { name: String },
    /// Remove a paired peer (by name, or endpoint id when names are ambiguous),
    /// disconnecting it. Answered with [`Response::PeerRemoved`] or
    /// [`Response::Error`].
    RemovePeer { peer: String },
    /// Unregister a repo on this machine only (its files are left alone); the
    /// mesh keeps the repo and it stays clonable here. Answered with
    /// [`Response::RepoForgotten`] or [`Response::Error`].
    ForgetRepo { name: String },
    /// Rename this machine; peers learn the new name through the gossip.
    /// Answered with [`Response::MachineRenamed`] or [`Response::Error`].
    RenameMachine { name: String },
}

/// A daemon answer to a [`Request`].
///
/// Variants are encoded by position, like those of [`Request`].
pub enum Response {
    Status(Status),
    /// The pairing ticket to transmit to the other machine.
    PairTicket(String),
    /// Pairing succeeded and the peer is saved in the mesh state.
    Paired { name: String, endpoint: EndpointId },
    /// The clone pull completed and the repo is registered.
    Cloned { ops: u64, git_objects: u64 },
    /// The repo is registered (with a freshly generated internal id).
    RepoAdded,
    /// The repo is retired from the mesh; `was_local` tells whether it was
    /// registered on this machine.
    RepoRemoved { was_local: bool },
    /// The peer is removed from the mesh state.
    PeerRemoved(EndpointId),
    /// The request failed.
    Error(String),
    /// Progress of an in-flight clone pull, re-sent at least every
    /// [`CLONE_PROGRESS_INTERVAL`] until the terminal answer.
    CloneProgress(CloneProgress),
    /// The repo is unregistered on this machine, at this path; the mesh still
    /// has it.
    RepoForgotten { path: FsPath },
    /// This machine's name is changed in the mesh state.
    MachineRenamed,
}

/// The phase a transfer is in.
#[derive(Clone, Copy, PartialEq, Eq, Structural, Debug)]
pub enum TransferPhase {
    /// Pulling operations.
    Ops,
    /// Pulling git objects.
    Git,
    /// Writing what was pulled.
    Apply,
}

/// The counters of a transfer.
#[derive(Clone, Copy, PartialEq, Eq, Structural, Debug)]
pub struct TransferProgress {
    pub phase: TransferPhase,
    pub current: u64,
    /// How much there is, once known.
    pub total: Option<u64>,
    pub bytes: u64,
}

impl TransferProgress {
    /// The counters at the start of a phase.
    pub fn start(phase: TransferPhase) -> (progress: Self)
        ensures
            progress == (TransferProgress { phase, current: 0, total: None, bytes: 0 }),
    {
        TransferProgress { phase, current: 0, total: None, bytes: 0 }
    }
}

/// A snapshot of a running clone pull, for progress display.
#[derive(PartialEq, Eq, Debug)]
pub struct CloneProgress {
    /// Paired name of the peer being pulled from, empty while the daemon has
    /// not picked one yet. Counters restart when the daemon falls back to
    /// another source peer.
    pub peer: String,
    /// The transfer counters, straight from the pull.
    pub transfer: TransferProgress,
}

/// Live daemon state, answering [`Request::Status`].
///
/// Anything peer-related is keyed by the peer's paired name, resolved by the
/// daemon: the CLI displays this structure as-is.
pub struct Status {
    /// This machine's name in the mesh.
    pub name: String,
    /// This machine's endpoint id.
    pub endpoint: EndpointId,
    /// Seconds since the daemon started.
    pub uptime_secs: u64,
    /// The jj version found on the daemon's PATH, `None` when jj is missing or
    /// unrecognizable. Compatibility is a warning, never an error: the daemon
    /// cannot know which jj binary writes the repos.
    pub jj_version: Option<String>,
    /// State of every configured peer.
    pub peers: Vec<PeerStatus>,
    /// Repos registered on this machine.
    pub repos: Vec<RepoStatus>,
    /// Mesh repos not registered here, clonable by name.
    pub available: Vec<String>,
    /// Repo names contested by peers announcing a different repo.
    pub conflicts: Vec<ConflictStatus>,
    /// Repos whose sync is paused because a peer also holds a colocated
    /// instance.
    pub paused: Vec<PausedStatus>,
    /// The latest health each connected peer reported for itself.
    pub peer_reports: Vec<PeerReport>,
}

/// A repo whose sync is paused by a colocation conflict: this machine's
/// instance and the named peers' are all colocated, which a mesh repo supports
/// on at most one machine.
#[derive(PartialEq, Eq, Debug)]
pub struct PausedStatus {
    pub repo: String,
    /// Names of the peers claiming a colocated instance.
    pub peers: Vec<String>,
}

/// One connected peer's self-reported health.
#[derive(PartialEq, Eq, Debug)]
pub struct PeerReport {
    /// The peer's paired name.
    pub peer: String,
    /// The report exactly as the peer sent it (sanitized on receipt).
    pub report: StatusReport,
}

/// A repo name contested by a peer: it announces a different repo (by id) under
/// a name registered here. Sync with that peer is suspended for the repo until
/// one side renames or removes it.
#[derive(PartialEq, Eq, Debug)]
pub struct ConflictStatus {
    pub repo: String,
    /// The contesting peer's paired name.
    pub peer: String,
}

/// Live state of one configured peer.
#[derive(PartialEq, Eq, Debug)]
pub struct PeerStatus {
    pub name: String,
    pub endpoint: EndpointId,
    pub connection: ConnectionStatus,
}

/// State of the persistent connection to a peer.
#[derive(PartialEq, Eq, Debug)]
pub enum ConnectionStatus {
    /// Dialing, or waiting for the peer to dial us.
    Connecting {
        /// Consecutive failed attempts before this one.
        failures: u32,
    },
    /// Connection established.
    Connected {
        /// The selected network path, when already known.
        path: Option<PathInfo>,
        /// Seconds since the connection was established.
        since_secs: u64,
    },
    /// Last attempt failed; waiting before redialing.
    Backoff {
        /// Seconds until the next attempt.
        retry_in_secs: u64,
        /// Why the last attempt failed.
        error: String,
    },
}

/// The selected network path of a peer connection.
#[derive(PartialEq, Eq, Debug)]
pub struct PathInfo {
    pub route: Route,
    /// Round-trip time on this path, in milliseconds.
    pub rtt_ms: u64,
}

/// How traffic reaches the peer.
#[derive(PartialEq, Eq, Debug)]
pub enum Route {
    /// Hole-punched direct path to this socket address.
    Direct { addr: String },
    /// Traffic goes through this relay.
    Relay { url: String },
}

/// A registered repo.
#[derive(PartialEq, Eq, Debug)]
pub struct RepoStatus {
    pub name: String,
    pub path: FsPath,
    pub watch: WatchStatus,
}

/// State of the op-heads watch on a repo.
#[derive(PartialEq, Eq, Debug)]
pub enum WatchStatus {
    /// The repo is being opened.
    Opening,
    /// Watching for op head changes.
    Watching {
        /// Current number of op heads (more than one means divergence).
        op_heads: u64,
        /// Seconds since the last observed change, if any since starting.
        last_change_secs: Option<u64>,
        /// Seconds since operations were last fetched from a peer.
        last_sync_secs: Option<u64>,
    },
    /// Opening or watching failed; waiting before retrying.
    Failed { error: String, retry_in_secs: u64 },
    /// The repo directory is gone (unmounted disk, or deleted without
    /// `jj-mesh repo forget`); retried in the background.
    Missing { retry_in_secs: u64 },
    /// The daemon is rebuilding the repo's commit index, so jj commands there
    /// do not pay for it.
    Indexing,
}

/// A route by content.
pub enum RouteView {
    Direct { addr: Seq<char> },
    Relay { url: Seq<char> },
}

impl View for Route {
    type V = RouteView;

    open spec fn view(&self) -> RouteView {
        match self {
            Route::Direct { addr } => RouteView::Direct { addr: addr@ },
            Route::Relay { url } => RouteView::Relay { url: url@ },
        }
    }
}

/// A network path by content.
pub struct PathInfoView {
    pub route: RouteView,
    pub rtt_ms: u64,
}

impl View for PathInfo {
    type V = PathInfoView;

    open spec fn view(&self) -> PathInfoView {
        PathInfoView { route: self.route@, rtt_ms: self.rtt_ms }
    }
}

impl Duplicate for PathInfo {
    fn duplicate(&self) -> (copy: Self) {
        PathInfo {
            route: match &self.route {
                Route::Direct { addr } => Route::Direct { addr: addr.clone() },
                Route::Relay { url } => Route::Relay { url: url.clone() },
            },
            rtt_ms: self.rtt_ms,
        }
    }
}

/// An optional network path by content.
pub open spec fn path_view(path: Option<PathInfo>) -> Option<PathInfoView> {
    match path {
        Some(p) => Some(p@),
        None => None,
    }
}

/// A connection's state by content.
pub enum ConnectionView {
    Connecting { failures: u32 },
    Connected { path: Option<PathInfoView>, since_secs: u64 },
    Backoff { retry_in_secs: u64, error: Seq<char> },
}

impl View for ConnectionStatus {
    type V = ConnectionView;

    open spec fn view(&self) -> ConnectionView {
        match self {
            ConnectionStatus::Connecting { failures } => ConnectionView::Connecting {
                failures: *failures,
            },
            ConnectionStatus::Connected { path, since_secs } => ConnectionView::Connected {
                path: path_view(*path),
                since_secs: *since_secs,
            },
            ConnectionStatus::Backoff { retry_in_secs, error } => ConnectionView::Backoff {
                retry_in_secs: *retry_in_secs,
                error: error@,
            },
        }
    }
}

/// A peer's state by content.
pub struct PeerStatusView {
    pub name: Seq<char>,
    pub endpoint: Seq<u8>,
    pub connection: ConnectionView,
}

impl View for PeerStatus {
    type V = PeerStatusView;

    open spec fn view(&self) -> PeerStatusView {
        PeerStatusView {
            name: self.name@,
            endpoint: self.endpoint@,
            connection: self.connection@,
        }
    }
}

/// A watch's state by content.
pub enum WatchView {
    Opening,
    Watching { op_heads: u64, last_change_secs: Option<u64>, last_sync_secs: Option<u64> },
    Failed { error: Seq<char>, retry_in_secs: u64 },
    Missing { retry_in_secs: u64 },
    Indexing,
}

impl View for WatchStatus {
    type V = WatchView;

    open spec fn view(&self) -> WatchView {
        match self {
            WatchStatus::Opening => WatchView::Opening,
            WatchStatus::Watching { op_heads, last_change_secs, last_sync_secs } =>
            WatchView::Watching {
                op_heads: *op_heads,
                last_change_secs: *last_change_secs,
                last_sync_secs: *last_sync_secs,
            },
            WatchStatus::Failed { error, retry_in_secs } => WatchView::Failed {
                error: error@,
                retry_in_secs: *retry_in_secs,
            },
            WatchStatus::Missing { retry_in_secs } => WatchView::Missing {
                retry_in_secs: *retry_in_secs,
            },
            WatchStatus::Indexing => WatchView::Indexing,
        }
    }
}

/// A registered repo by content.
pub struct RepoStatusView {
    pub name: Seq<char>,
    pub path: Seq<u8>,
    pub watch: WatchView,
}

impl View for RepoStatus {
    type V = RepoStatusView;

    open spec fn view(&self) -> RepoStatusView {
        RepoStatusView { name: self.name@, path: self.path@, watch: self.watch@ }
    }
}

/// A contested name by content.
pub struct ConflictView {
    pub repo: Seq<char>,
    pub peer: Seq<char>,
}

impl View for ConflictStatus {
    type V = ConflictView;

    open spec fn view(&self) -> ConflictView {
        ConflictView { repo: self.repo@, peer: self.peer@ }
    }
}

/// A paused repo by content.
#[verifier::ext_equal]
pub struct PausedView {
    pub repo: Seq<char>,
    pub peers: Seq<Seq<char>>,
}

impl View for PausedStatus {
    type V = PausedView;

    open spec fn view(&self) -> PausedView {
        PausedView { repo: self.repo@, peers: self.peers@.map_values(|p: String| p@) }
    }
}

/// A peer's report by content.
pub struct PeerReportView {
    pub peer: Seq<char>,
    pub report: StatusReportView,
}

impl View for PeerReport {
    type V = PeerReportView;

    open spec fn view(&self) -> PeerReportView {
        PeerReportView { peer: self.peer@, report: self.report@ }
    }
}

/// A daemon state by content.
#[verifier::ext_equal]
pub struct StatusView {
    pub name: Seq<char>,
    pub endpoint: Seq<u8>,
    pub uptime_secs: u64,
    pub jj_version: Option<Seq<char>>,
    pub peers: Seq<PeerStatusView>,
    pub repos: Seq<RepoStatusView>,
    pub available: Seq<Seq<char>>,
    pub conflicts: Seq<ConflictView>,
    pub paused: Seq<PausedView>,
    pub peer_reports: Seq<PeerReportView>,
}

impl View for Status {
    type V = StatusView;

    open spec fn view(&self) -> StatusView {
        StatusView {
            name: self.name@,
            endpoint: self.endpoint@,
            uptime_secs: self.uptime_secs,
            jj_version: crate::net::sync::text_view(self.jj_version),
            peers: self.peers@.map_values(|p: PeerStatus| p@),
            repos: self.repos@.map_values(|r: RepoStatus| r@),
            available: self.available@.map_values(|n: String| n@),
            conflicts: self.conflicts@.map_values(|c: ConflictStatus| c@),
            paused: self.paused@.map_values(|p: PausedStatus| p@),
            peer_reports: self.peer_reports@.map_values(|r: PeerReport| r@),
        }
    }
}

/// Clone progress by content.
#[verifier::ext_equal]
pub struct CloneProgressView {
    pub peer: Seq<char>,
    pub transfer: TransferProgress,
}

impl View for CloneProgress {
    type V = CloneProgressView;

    open spec fn view(&self) -> CloneProgressView {
        CloneProgressView { peer: self.peer@, transfer: self.transfer }
    }
}

/// A request by content.
pub enum RequestView {
    Status,
    PairHost,
    PairJoin { ticket: Seq<char> },
    CloneRepo { name: Seq<char>, path: Seq<u8> },
    AddRepo { name: Seq<char>, path: Seq<u8> },
    RemoveRepo { name: Seq<char> },
    RemovePeer { peer: Seq<char> },
    ForgetRepo { name: Seq<char> },
    RenameMachine { name: Seq<char> },
}

impl View for Request {
    type V = RequestView;

    open spec fn view(&self) -> RequestView {
        match self {
            Request::Status => RequestView::Status,
            Request::PairHost => RequestView::PairHost,
            Request::PairJoin { ticket } => RequestView::PairJoin { ticket: ticket@ },
            Request::CloneRepo { name, path } => RequestView::CloneRepo {
                name: name@,
                path: path@,
            },
            Request::AddRepo { name, path } => RequestView::AddRepo { name: name@, path: path@ },
            Request::RemoveRepo { name } => RequestView::RemoveRepo { name: name@ },
            Request::RemovePeer { peer } => RequestView::RemovePeer { peer: peer@ },
            Request::ForgetRepo { name } => RequestView::ForgetRepo { name: name@ },
            Request::RenameMachine { name } => RequestView::RenameMachine { name: name@ },
        }
    }
}

/// An answer by content.
pub enum ResponseView {
    Status(StatusView),
    PairTicket(Seq<char>),
    Paired { name: Seq<char>, endpoint: Seq<u8> },
    Cloned { ops: u64, git_objects: u64 },
    RepoAdded,
    RepoRemoved { was_local: bool },
    PeerRemoved(Seq<u8>),
    Error(Seq<char>),
    CloneProgress(CloneProgressView),
    RepoForgotten { path: Seq<u8> },
    MachineRenamed,
}

impl View for Response {
    type V = ResponseView;

    open spec fn view(&self) -> ResponseView {
        match self {
            Response::Status(status) => ResponseView::Status(status@),
            Response::PairTicket(ticket) => ResponseView::PairTicket(ticket@),
            Response::Paired { name, endpoint } => ResponseView::Paired {
                name: name@,
                endpoint: endpoint@,
            },
            Response::Cloned { ops, git_objects } => ResponseView::Cloned {
                ops: *ops,
                git_objects: *git_objects,
            },
            Response::RepoAdded => ResponseView::RepoAdded,
            Response::RepoRemoved { was_local } => ResponseView::RepoRemoved {
                was_local: *was_local,
            },
            Response::PeerRemoved(endpoint) => ResponseView::PeerRemoved(endpoint@),
            Response::Error(message) => ResponseView::Error(message@),
            Response::CloneProgress(progress) => ResponseView::CloneProgress(progress@),
            Response::RepoForgotten { path } => ResponseView::RepoForgotten { path: path@ },
            Response::MachineRenamed => ResponseView::MachineRenamed,
        }
    }
}

} // verus!
