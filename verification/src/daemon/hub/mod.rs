//! Routing between peer connections and repo tasks.
//!
//! Peer tasks and repo tasks do not know each other; the hub sits between them
//! and makes announcements genuinely latest-wins in both directions:
//!
//! - Outbound, each connected peer has one sender task draining a per-repo
//!   coalescing [`Outbox`]: publishes overwrite the pending entry for their
//!   repo, sends are sequential per peer, and a (re)connecting peer's outbox is
//!   seeded with every published repo (anti-entropy replay).
//! - Inbound, announcements land in a per-peer slot on the repo's [`Inbox`],
//!   newer sequence numbers overwriting older ones, so reordered streams and
//!   slow repo tasks can never make stale state win.
//!
//! ```text
//! peer task --route()---> Inbox (per repo) ---drain()--> repo task
//! peer task <--sender---- Outbox (per peer) <-publish()- repo task
//! ```
//!
//! Repos are identified by name. An announcement whose name matches a
//! registered repo but whose id differs means two unrelated repos contest the
//! name: it is never synced (that would merge unrelated histories) and the
//! conflict is surfaced through the status. Announcements for names not
//! registered here are remembered for `clone` (see [`orphans`]). Disconnecting
//! a peer closes its connection through the hub: revocation must sever
//! announcements even when it races connection setup.
//!
//! A mesh repo supports one colocated instance. While this machine's instance
//! and a peer's are both colocated the repo is paused: nothing is fetched, and
//! that peer is not served.
//!
//! The hub also carries the machine's latest membership and status report,
//! since it owns the outboxes: both are published here on every change and
//! replayed (before any announcement) to every connecting peer. It holds the
//! latest report of each connected peer as well. And it decides which inbound
//! fetches are served.

pub mod guarantees;
pub mod inbox;
pub mod laws;
pub mod orphans;
pub mod outbox;

use vstd::prelude::*;

use self::inbox::{Inbox, PeerAnnounce, SlotView};
use self::orphans::{CloneError, CloneFault, CloneSource, OrphanAnnounce, OrphanMap, OrphanView, Orphans};
use self::outbox::{Outbox, OutboxView};
use crate::config::name::{sanitize, validate_name};
use crate::config::state::membership::{Membership, MembershipView};
use crate::config::state::repo::RepoId;
use crate::net::endpoint::EndpointId;
use crate::net::sync::{
    Announce, AnnounceView, MessageView, RepoHealth, RepoHealthView, StatusReport, StatusReportView, UniMessage,
    duplicate_heads,
};
use crate::order::{Duplicate, Same};
use crate::sorted_map::{self, SortedMap};

verus! {

/// Fetches served concurrently per repo (read-only on the repo).
pub const MAX_SERVES: usize = 2;

/// What the hub needs to serve fetches for an open repo: the handle of its
/// stores, and how many fetches are being served from them.
#[derive(Clone, Copy, PartialEq, Eq, Structural, Debug)]
pub struct Serving {
    pub handle: u64,
    pub active: usize,
}

/// Hub-side state of one registered repo.
pub struct RepoEntry {
    /// The local id of the repo, checked against announcements and fetch
    /// requests: a name match with a different id is a conflict, never a sync.
    id: RepoId,
    /// Sequence of the latest publish, stamped into announcements so receivers
    /// can discard reordered ones.
    seq: u64,
    /// Latest published op heads, replayed to connecting peers. `None` until
    /// the repo task first publishes (repo not opened yet).
    published: Option<Vec<Vec<u8>>>,
    inbox: Inbox,
    /// Peers whose last announcement for this name carried a different id. An
    /// entry clears when its peer announces the matching id again or
    /// disconnects.
    conflicts: SortedMap<EndpointId, RepoId>,
    /// Whether the instance open here is colocated with a git repo.
    local_colocated: bool,
    /// Peers whose latest announcement claims a colocated instance.
    colocated_peers: SortedMap<EndpointId, bool>,
    /// Serve handle, present while the repo task has the repo open.
    serving: Option<Serving>,
}

/// A registered repo by content.
#[verifier::ext_equal]
pub struct RepoEntryView {
    pub id: Seq<char>,
    pub seq: nat,
    pub published: Option<Seq<Seq<u8>>>,
    pub inbox: Map<Seq<u8>, SlotView>,
    pub conflicts: Map<Seq<u8>, Seq<char>>,
    pub local_colocated: bool,
    pub colocated_peers: Map<Seq<u8>, bool>,
    pub serving: Option<Serving>,
}

/// Optional op heads by content.
pub open spec fn published_view(heads: Option<Vec<Vec<u8>>>) -> Option<Seq<Seq<u8>>> {
    match heads {
        Some(h) => Some(crate::net::sync::heads_view(h@)),
        None => None,
    }
}

impl View for RepoEntry {
    type V = RepoEntryView;

    closed spec fn view(&self) -> RepoEntryView {
        RepoEntryView {
            id: self.id@,
            seq: self.seq as nat,
            published: published_view(self.published),
            inbox: self.inbox@,
            conflicts: self.conflicts@,
            local_colocated: self.local_colocated,
            colocated_peers: self.colocated_peers@,
            serving: self.serving,
        }
    }
}

/// Hub-side state of one connected peer: its connection and what is queued for
/// it.
pub struct PeerSender {
    conn: u64,
    outbox: Outbox,
}

/// A connected peer by content.
#[verifier::ext_equal]
pub struct PeerSenderView {
    pub conn: u64,
    pub outbox: OutboxView,
}

impl View for PeerSender {
    type V = PeerSenderView;

    closed spec fn view(&self) -> PeerSenderView {
        PeerSenderView { conn: self.conn, outbox: self.outbox@ }
    }
}

/// The router between peer connections and repo tasks.
pub struct SyncHub {
    repos: SortedMap<String, RepoEntry>,
    peers: SortedMap<EndpointId, PeerSender>,
    /// Announcement sequence, monotonic across every repo for the whole daemon
    /// run. Shared rather than per repo so a repo forgotten and cloned again
    /// keeps outranking its old announcements: receivers only reset their
    /// per-repo watermark when the connection drops.
    announce_seq: u64,
    orphans: Orphans,
    /// This machine's latest membership, replayed to connecting peers and
    /// broadcast on every change.
    membership: Membership,
    /// This machine's latest status report, replayed to connecting peers and
    /// broadcast on every change.
    status: Option<StatusReport>,
    /// The latest (sanitized) status report of each connected peer. Dropped on
    /// disconnect: stale health is worse than none.
    reports: SortedMap<EndpointId, StatusReport>,
}

/// A hub by content.
#[verifier::ext_equal]
pub struct HubView {
    pub repos: Map<Seq<char>, RepoEntryView>,
    pub peers: Map<Seq<u8>, PeerSenderView>,
    pub announce_seq: nat,
    pub orphans: OrphanMap,
    pub membership: MembershipView,
    pub status: Option<StatusReportView>,
    pub reports: Map<Seq<u8>, StatusReportView>,
}

impl View for SyncHub {
    type V = HubView;

    closed spec fn view(&self) -> HubView {
        HubView {
            repos: self.repos@,
            peers: self.peers@,
            announce_seq: self.announce_seq as nat,
            orphans: self.orphans@,
            membership: self.membership@,
            status: outbox::status_view(self.status),
            reports: self.reports@,
        }
    }
}

/// A hub that knows nothing yet.
pub open spec fn empty_hub() -> HubView {
    HubView {
        repos: Map::empty(),
        peers: Map::empty(),
        announce_seq: 0,
        orphans: Map::empty(),
        membership: MembershipView { peers: Map::empty(), repos: Map::empty() },
        status: None,
        reports: Map::empty(),
    }
}

/// An outbox with a message queued.
pub open spec fn queued(o: OutboxView, message: MessageView) -> OutboxView {
    match message {
        MessageView::Announce(a) => outbox::with_announce(o, a),
        MessageView::Status(s) => outbox::with_status(o, s),
        MessageView::Membership(m) => outbox::with_membership(o, m),
    }
}

/// The rule that queues a message to a peer.
pub open spec fn queueing(message: MessageView) -> spec_fn(Seq<u8>, PeerSenderView) -> Option<
    PeerSenderView,
> {
    |peer: Seq<u8>, sender: PeerSenderView|
        Some(PeerSenderView { outbox: queued(sender.outbox, message), ..sender })
}

/// Every peer with a message queued.
pub open spec fn broadcasted(peers: Map<Seq<u8>, PeerSenderView>, message: MessageView) -> Map<
    Seq<u8>,
    PeerSenderView,
> {
    sorted_map::reworked(peers, queueing(message))
}

/// The rule that reads which orphan announcements contest an id.
pub open spec fn contesting(id: Seq<char>) -> spec_fn(Seq<u8>, OrphanView) -> Option<Seq<char>> {
    |peer: Seq<u8>, announce: OrphanView|
        if announce.id == id {
            None
        } else {
            Some(announce.id)
        }
}

/// A repo just registered, contested by the orphan announcements that disagree
/// with its id.
pub open spec fn fresh_entry(h: HubView, name: Seq<char>, id: Seq<char>) -> RepoEntryView {
    RepoEntryView {
        id,
        seq: 0,
        published: None,
        inbox: Map::empty(),
        conflicts: sorted_map::reworked(orphans::made_for(h.orphans, name), contesting(id)),
        local_colocated: false,
        colocated_peers: Map::empty(),
        serving: None,
    }
}

/// The hub after a registration.
pub open spec fn registered(h: HubView, name: Seq<char>, id: Seq<char>) -> HubView {
    HubView {
        repos: h.repos.insert(name, fresh_entry(h, name, id)),
        orphans: h.orphans.remove(name),
        ..h
    }
}

/// Whether a name is registered with an id.
pub open spec fn holds(h: HubView, name: Seq<char>, id: Seq<char>) -> bool {
    h.repos.contains_key(name) && h.repos[name].id == id
}

/// The announcement of a repo's current heads.
pub open spec fn announcement(name: Seq<char>, e: RepoEntryView) -> AnnounceView {
    AnnounceView {
        name,
        id: e.id,
        seq: e.seq,
        heads: e.published->Some_0,
        colocated: e.local_colocated,
    }
}

/// The hub after a repo's heads were published.
pub open spec fn published(
    h: HubView,
    name: Seq<char>,
    id: Seq<char>,
    heads: Seq<Seq<u8>>,
) -> HubView {
    if holds(h, name, id) {
        let entry = RepoEntryView {
            seq: h.announce_seq + 1,
            published: Some(heads),
            ..h.repos[name]
        };
        HubView {
            repos: h.repos.insert(name, entry),
            announce_seq: h.announce_seq + 1,
            peers: broadcasted(h.peers, MessageView::Announce(announcement(name, entry))),
            ..h
        }
    } else {
        h
    }
}

/// The announcement that retracts a repo: one without heads.
pub open spec fn retraction(name: Seq<char>, id: Seq<char>, seq: nat) -> AnnounceView {
    AnnounceView { name, id, seq, heads: Seq::empty(), colocated: false }
}

/// The hub after a repo was unregistered: its peers' last announcements become
/// orphans, and a retraction goes out if it was ever announced.
pub open spec fn unregistered(h: HubView, name: Seq<char>) -> HubView {
    if !h.repos.contains_key(name) {
        h
    } else {
        let entry = h.repos[name];
        let orphans = orphans::demoted(
            h.orphans,
            name,
            entry.id,
            inbox::last_heads(entry.inbox),
        );
        let gone = HubView { repos: h.repos.remove(name), orphans, ..h };
        if entry.published is Some {
            HubView {
                announce_seq: h.announce_seq + 1,
                peers: broadcasted(
                    h.peers,
                    MessageView::Announce(retraction(name, entry.id, h.announce_seq + 1)),
                ),
                ..gone
            }
        } else {
            gone
        }
    }
}

/// The rule that reads which repos a connecting peer is told of.
pub open spec fn replaying() -> spec_fn(Seq<char>, RepoEntryView) -> Option<AnnounceView> {
    |name: Seq<char>, e: RepoEntryView|
        if e.published is Some {
            Some(announcement(name, e))
        } else {
            None
        }
}

/// What a connecting peer is told: the membership, the status and every
/// published repo.
pub open spec fn replay(h: HubView) -> OutboxView {
    OutboxView {
        membership: Some(h.membership),
        status: h.status,
        announces: sorted_map::reworked(h.repos, replaying()),
    }
}

/// The rule that drops what is attributed to a peer in a repo.
pub open spec fn releasing(peer: Seq<u8>) -> spec_fn(Seq<char>, RepoEntryView) -> Option<
    RepoEntryView,
> {
    |name: Seq<char>, e: RepoEntryView|
        Some(
            RepoEntryView {
                inbox: e.inbox.remove(peer),
                conflicts: e.conflicts.remove(peer),
                colocated_peers: e.colocated_peers.remove(peer),
                ..e
            },
        )
}

/// The hub after a peer left: nothing attributed to it stays.
pub open spec fn disconnected(h: HubView, peer: Seq<u8>) -> HubView {
    HubView {
        repos: sorted_map::reworked(h.repos, releasing(peer)),
        orphans: orphans::forgotten_peer(h.orphans, peer),
        reports: h.reports.remove(peer),
        peers: h.peers.remove(peer),
        ..h
    }
}

/// What became of an inbound announcement.
#[derive(Clone, Copy, PartialEq, Eq, Structural, Debug)]
pub enum Routed {
    /// Dropped: its name is not a usable one.
    InvalidName,
    /// A retraction of a repo not registered here.
    OrphanRetracted,
    /// Remembered for `clone`.
    Remembered,
    /// Dropped: the peer announces too many unregistered repos.
    TooManyOrphans,
    /// A retraction of a repo registered here.
    Retracted,
    /// A different repo under a registered name; `new` if the peer did not
    /// contest the name before.
    Conflict { new: bool },
    /// Waiting in the repo's inbox.
    Offered,
    /// Older than what the peer announced already.
    Stale,
}

/// What becomes of an inbound announcement.
pub open spec fn routing(h: HubView, peer: Seq<u8>, a: AnnounceView) -> Routed {
    if !crate::config::name::valid_name(a.name) {
        Routed::InvalidName
    } else if !h.repos.contains_key(a.name) {
        if a.heads.len() == 0 {
            Routed::OrphanRetracted
        } else if orphans::has_room(h.orphans, peer, a.name) {
            Routed::Remembered
        } else {
            Routed::TooManyOrphans
        }
    } else {
        let e = h.repos[a.name];
        if a.heads.len() == 0 {
            Routed::Retracted
        } else if e.id != a.id {
            Routed::Conflict { new: !e.conflicts.contains_key(peer) }
        } else if inbox::stale(e.inbox, peer, a.seq) {
            Routed::Stale
        } else {
            Routed::Offered
        }
    }
}

/// A registered repo after an announcement of its name.
pub open spec fn announced_entry(e: RepoEntryView, peer: Seq<u8>, a: AnnounceView) -> RepoEntryView {
    if a.heads.len() == 0 {
        RepoEntryView {
            conflicts: e.conflicts.remove(peer),
            colocated_peers: e.colocated_peers.remove(peer),
            inbox: inbox::retracted(e.inbox, peer, a.seq),
            ..e
        }
    } else if e.id != a.id {
        RepoEntryView {
            conflicts: e.conflicts.insert(peer, a.id),
            colocated_peers: e.colocated_peers.remove(peer),
            ..e
        }
    } else {
        RepoEntryView {
            conflicts: e.conflicts.remove(peer),
            inbox: inbox::offered(e.inbox, peer, a.seq, a.heads),
            colocated_peers: if inbox::stale(e.inbox, peer, a.seq) {
                e.colocated_peers
            } else if a.colocated {
                e.colocated_peers.insert(peer, true)
            } else {
                e.colocated_peers.remove(peer)
            },
            ..e
        }
    }
}

/// The hub after an inbound announcement.
pub open spec fn routed(h: HubView, peer: Seq<u8>, a: AnnounceView) -> HubView {
    if !crate::config::name::valid_name(a.name) {
        h
    } else if !h.repos.contains_key(a.name) {
        HubView {
            orphans: if a.heads.len() == 0 {
                orphans::forgotten(h.orphans, a.name, peer)
            } else {
                orphans::remembered(
                    h.orphans,
                    peer,
                    a.name,
                    OrphanView { id: a.id, heads: a.heads },
                )
            },
            ..h
        }
    } else {
        HubView {
            repos: h.repos.insert(a.name, announced_entry(h.repos[a.name], peer, a)),
            ..h
        }
    }
}

/// Whether a repo's sync is paused: this machine's instance and a peer's are
/// both colocated.
pub open spec fn paused_entry(e: RepoEntryView) -> bool {
    e.local_colocated && e.colocated_peers.len() > 0
}

/// Whether a named repo's sync is paused.
pub open spec fn paused(h: HubView, name: Seq<char>) -> bool {
    h.repos.contains_key(name) && paused_entry(h.repos[name])
}

/// The keys of listed entries.
pub open spec fn keys_of<A, V>(list: Seq<(A, V)>) -> Seq<A> {
    list.map_values(|e: (A, V)| e.0)
}

/// The rule that reads the peers a repo is paused by.
pub open spec fn pausing() -> spec_fn(Seq<char>, RepoEntryView) -> Option<Seq<Seq<u8>>> {
    |name: Seq<char>, e: RepoEntryView|
        if paused_entry(e) {
            Some(keys_of(sorted_map::listing::<EndpointId, bool>(e.colocated_peers)))
        } else {
            None
        }
}

/// The paused repos by name, with the peers they are paused by.
pub open spec fn paused_listing(h: HubView) -> Seq<(Seq<char>, Seq<Seq<u8>>)> {
    sorted_map::kept(sorted_map::listing::<String, RepoEntryView>(h.repos), pausing())
}

/// Repos paired with peers, one pair each.
pub open spec fn contests(list: Seq<(Seq<char>, RepoEntryView)>) -> Seq<(Seq<char>, Seq<u8>)>
    decreases list.len(),
{
    if list.len() == 0 {
        Seq::empty()
    } else {
        let (name, e) = list.last();
        contests(list.drop_last()) + sorted_map::listing::<EndpointId, Seq<char>>(
            e.conflicts,
        ).map_values(|c: (Seq<u8>, Seq<char>)| (name, c.0))
    }
}

/// The valid repos of a report.
pub open spec fn shown_repos(repos: Seq<RepoHealthView>) -> Seq<RepoHealthView>
    decreases repos.len(),
{
    if repos.len() == 0 {
        Seq::empty()
    } else {
        let rest = shown_repos(repos.drop_last());
        if crate::config::name::valid_name(repos.last().name) {
            rest.push(repos.last())
        } else {
            rest
        }
    }
}

/// A peer's report as kept: free-form text sanitized, invalid repo names
/// dropped.
pub open spec fn shown_report(report: StatusReportView) -> StatusReportView {
    StatusReportView {
        daemon_version: crate::config::name::sanitized(report.daemon_version),
        jj_version: match report.jj_version {
            Some(version) => Some(crate::config::name::sanitized(version)),
            None => None,
        },
        repos: shown_repos(report.repos),
    }
}

/// How an inbound fetch is answered.
#[derive(Clone, Copy, PartialEq, Eq, Structural, Debug)]
pub enum FetchAnswer {
    /// Served from the stores behind a handle.
    Serve { handle: u64 },
    /// Refused: the repo is not available to this peer.
    Unavailable,
    /// Refused: too many fetches are being served.
    Busy,
}

/// How an inbound fetch is answered: only from the repo it names, only by its
/// id, never to a peer with a colocation conflict, and only while it is open
/// and not too busy.
pub open spec fn fetch_answer(
    h: HubView,
    peer: Seq<u8>,
    name: Seq<char>,
    id: Seq<char>,
) -> FetchAnswer {
    if !holds(h, name, id) {
        FetchAnswer::Unavailable
    } else {
        let e = h.repos[name];
        if e.local_colocated && e.colocated_peers.contains_key(peer) {
            FetchAnswer::Unavailable
        } else {
            match e.serving {
                None => FetchAnswer::Unavailable,
                Some(serving) => if serving.active >= MAX_SERVES {
                    FetchAnswer::Busy
                } else {
                    FetchAnswer::Serve { handle: serving.handle }
                },
            }
        }
    }
}

/// The hub with a repo's serving changed.
pub open spec fn with_serving(h: HubView, name: Seq<char>, serving: Option<Serving>) -> HubView {
    HubView {
        repos: h.repos.insert(name, RepoEntryView { serving, ..h.repos[name] }),
        ..h
    }
}

impl SyncHub {
    /// Whatever the hub holds, it holds finitely many of.
    pub proof fn lemma_finite(&self)
        ensures
            self@.repos.dom().finite(),
            self@.peers.dom().finite(),
            self@.orphans.dom().finite(),
            self@.reports.dom().finite(),
            forall|name: Seq<char>| #[trigger]
                self@.repos.contains_key(name) ==> self@.repos[name].inbox.dom().finite()
                    && self@.repos[name].conflicts.dom().finite()
                    && self@.repos[name].colocated_peers.dom().finite(),
            forall|peer: Seq<u8>| #[trigger]
                self@.peers.contains_key(peer)
                    ==> self@.peers[peer].outbox.announces.dom().finite(),
            forall|name: Seq<char>| #[trigger]
                self@.orphans.contains_key(name) ==> self@.orphans[name].dom().finite(),
    {
        self.repos.lemma_finite();
        self.peers.lemma_finite();
        self.orphans.lemma_finite();
        self.reports.lemma_finite();
        assert forall|name: Seq<char>| #[trigger]
            self@.repos.contains_key(name) implies self@.repos[name].inbox.dom().finite()
            && self@.repos[name].conflicts.dom().finite()
            && self@.repos[name].colocated_peers.dom().finite() by {
            let entry = self.repos.lemma_held(name);
            entry.inbox.lemma_finite();
            entry.conflicts.lemma_finite();
            entry.colocated_peers.lemma_finite();
        }
        assert forall|peer: Seq<u8>| #[trigger] self@.peers.contains_key(
            peer,
        ) implies self@.peers[peer].outbox.announces.dom().finite() by {
            let sender = self.peers.lemma_held(peer);
            sender.outbox.lemma_finite();
        }
    }

    pub fn new() -> (hub: Self)
        ensures
            hub@ == empty_hub(),
    {
        SyncHub {
            repos: SortedMap::new(),
            peers: SortedMap::new(),
            announce_seq: 0,
            orphans: Orphans::new(),
            membership: Membership { peers: SortedMap::new(), repos: SortedMap::new() },
            status: None,
            reports: SortedMap::new(),
        }
    }

    /// Queues a message to every connected peer.
    fn broadcast(&mut self, message: &UniMessage)
        ensures
            final(self)@ == (HubView {
                peers: broadcasted(old(self)@.peers, message@),
                ..old(self)@
            }),
    {
        let ghost peers = self.peers@;
        let ghost list = sorted_map::listing::<EndpointId, PeerSenderView>(peers);
        let ghost rule = queueing(message@);
        let len: usize = self.peers.len();
        let mut all: SortedMap<EndpointId, PeerSender> = SortedMap::new();
        let mut i: usize = 0;
        proof {
            self.peers.lemma_finite();
        }
        assert(list.skip(0) =~= list);
        while i < len
            invariant
                i <= len,
                len == list.len(),
                rule == queueing(message@),
                sorted_map::listing::<EndpointId, PeerSenderView>(self.peers@) == list.skip(
                    i as int,
                ),
                all@ == sorted_map::map_of(sorted_map::kept(list.take(i as int), rule)),
                self@ == (HubView { peers: self.peers@, ..old(self)@ }),
            decreases len - i,
        {
            let (peer, mut sender): (EndpointId, PeerSender) = self.peers.take_first();
            assert((peer@, sender@) == list[i as int]);
            assert(list.skip(i as int).skip(1) =~= list.skip(i + 1));
            proof {
                sorted_map::lemma_kept_step(list, i as int, rule);
            }
            match message {
                UniMessage::Announce(announce) => sender.outbox.push_announce(
                    announce.duplicate(),
                ),
                UniMessage::Status(report) => sender.outbox.push_status(report.duplicate()),
                UniMessage::Membership(membership) => sender.outbox.push_membership(
                    membership.duplicate(),
                ),
            }
            all.insert(peer, sender);
            i = i + 1;
        }
        proof {
            assert(list.take(len as int) =~= list);
            sorted_map::lemma_kept::<EndpointId, PeerSenderView, PeerSenderView>(peers, rule);
        }
        self.peers = all;
    }

    /// How many announcements were made so far.
    pub fn announced(&self) -> (count: u64)
        ensures
            count == self@.announce_seq,
    {
        self.announce_seq
    }

    /// Registers a repo; its task drains inbound announcements from the inbox
    /// under its name. Replaces any previous registration for the name. Orphan
    /// announcements held for the name become conflicts when their id
    /// disagrees; the peers that sent them would otherwise never re-warn an
    /// idle repo.
    pub fn register_repo(&mut self, name: &str, id: RepoId)
        ensures
            final(self)@ == registered(old(self)@, name@, id@),
    {
        let claims = self.orphans.take(name);
        let ghost rule = contesting(id@);
        let ghost list = sorted_map::listing::<EndpointId, OrphanView>(claims@);
        let len: usize = claims.len();
        let mut conflicts: SortedMap<EndpointId, RepoId> = SortedMap::new();
        let mut i: usize = 0;
        while i < len
            invariant
                i <= len,
                len == list.len(),
                rule == contesting(id@),
                list == sorted_map::listing::<EndpointId, OrphanView>(claims@),
                conflicts@ == sorted_map::map_of(sorted_map::kept(list.take(i as int), rule)),
            decreases len - i,
        {
            let (peer, announce): (&EndpointId, &OrphanAnnounce) = claims.entry_at(i);
            proof {
                sorted_map::lemma_kept_step(list, i as int, rule);
            }
            if !announce.id.same(&id) {
                conflicts.insert(*peer, announce.id.duplicate());
            }
            i = i + 1;
        }
        proof {
            assert(list.take(len as int) =~= list);
            claims.lemma_finite();
            sorted_map::lemma_kept::<EndpointId, OrphanView, Seq<char>>(claims@, rule);
        }
        self.repos.insert(
            name.to_owned(),
            RepoEntry {
                id,
                seq: 0,
                published: None,
                inbox: Inbox::new(),
                conflicts,
                local_colocated: false,
                colocated_peers: SortedMap::new(),
                serving: None,
            },
        );
    }

    /// Makes an opened repo servable, from the stores behind `handle`. Called
    /// for the repo task once its stores are open; replaces the handle from a
    /// previous open. The id guards against a stale task of a replaced
    /// same-name repo installing the wrong stores.
    pub fn repo_opened(&mut self, name: &str, id: &RepoId, handle: u64, colocated: bool)
        ensures
            final(self)@ == if holds(old(self)@, name@, id@) {
                HubView {
                    repos: old(self)@.repos.insert(
                        name@,
                        RepoEntryView {
                            serving: Some(Serving { handle, active: 0 }),
                            local_colocated: colocated,
                            ..old(self)@.repos[name@]
                        },
                    ),
                    ..old(self)@
                }
            } else {
                old(self)@
            },
    {
        if !self.is_registered(name, id) {
            return;
        }
        let key = name.to_owned();
        if let Some(mut entry) = self.repos.remove(&key) {
            entry.serving = Some(Serving { handle, active: 0 });
            entry.local_colocated = colocated;
            self.repos.insert(key, entry);
            assert(self@.repos =~= old(self)@.repos.insert(name@, self@.repos[name@]));
        }
    }

    /// Whether a name is registered with an id.
    pub fn is_registered(&self, name: &str, id: &RepoId) -> (r: bool)
        ensures
            r == holds(self@, name@, id@),
    {
        match self.repos.get(&name.to_owned()) {
            Some(entry) => entry.id.same(id),
            None => false,
        }
    }

    /// Stops serving a repo (its watch failed; the stores may be stale).
    pub fn repo_closed(&mut self, name: &str, id: &RepoId)
        ensures
            final(self)@ == if holds(old(self)@, name@, id@) {
                with_serving(old(self)@, name@, None)
            } else {
                old(self)@
            },
    {
        if !self.is_registered(name, id) {
            return;
        }
        let key = name.to_owned();
        if let Some(mut entry) = self.repos.remove(&key) {
            entry.serving = None;
            self.repos.insert(key, entry);
            assert(self@.repos =~= old(self)@.repos.insert(name@, self@.repos[name@]));
        }
    }

    /// The live connection to a peer, for opening fetch streams.
    pub fn connection(&self, peer: &EndpointId) -> (conn: Option<u64>)
        ensures
            conn == if self@.peers.contains_key(peer@) {
                Some(self@.peers[peer@].conn)
            } else {
                None
            },
    {
        match self.peers.get(peer) {
            Some(sender) => Some(sender.conn),
            None => None,
        }
    }

    /// Removes a repo registration (a local forget, a mesh-wide removal, or a
    /// same-name replacement).
    ///
    /// The peers' last announcements move back to the orphan store, so the repo
    /// stays immediately clonable here: peers only re-announce on a head change
    /// or a reconnect, which could otherwise be arbitrarily far away. A
    /// retraction (an announcement with no heads) also goes out, so peers
    /// holding a name conflict against this instance release it instead of
    /// staying stuck until this machine disconnects.
    pub fn unregister_repo(&mut self, name: &str)
        requires
            old(self)@.announce_seq < u64::MAX,
        ensures
            final(self)@ == unregistered(old(self)@, name@),
    {
        let key = name.to_owned();
        let entry = match self.repos.remove(&key) {
            Some(entry) => entry,
            None => {
                assert(self@.repos =~= old(self)@.repos);
                return;
            },
        };
        let known = entry.inbox.snapshot();
        let ghost heads = inbox::last_heads(entry@.inbox);
        let mut i: usize = 0;
        while i < known.len()
            invariant
                i <= known@.len(),
                heads == inbox::peer_heads_view(known@),
                self@ == (HubView {
                    repos: old(self)@.repos.remove(name@),
                    orphans: orphans::demoted(
                        old(self)@.orphans,
                        name@,
                        entry@.id,
                        heads.take(i as int),
                    ),
                    ..old(self)@
                }),
            decreases known@.len() - i,
        {
            assert(heads.take(i + 1).drop_last() =~= heads.take(i as int));
            assert(heads.take(i + 1).last() == heads[i as int]);
            let announce = OrphanAnnounce {
                id: entry.id.duplicate(),
                heads: duplicate_heads(&known[i].1),
            };
            self.orphans.remember(known[i].0, name, announce);
            i = i + 1;
        }
        assert(heads.take(i as int) =~= heads);
        if entry.published.is_some() {
            self.announce_seq = self.announce_seq + 1;
            let none: Vec<Vec<u8>> = Vec::new();
            assert(crate::net::sync::heads_view(none@) =~= Seq::<Seq<u8>>::empty());
            let announce = Announce {
                name: key,
                id: entry.id,
                seq: self.announce_seq,
                heads: none,
                colocated: false,
            };
            self.broadcast(&UniMessage::Announce(announce));
        }
    }

    /// Publishes a repo's current op heads: cached for peers that connect later
    /// and queued to every connected peer's outbox, coalescing with any
    /// announcement still pending there. The id guards against a stale task of
    /// a replaced same-name repo announcing the wrong heads.
    pub fn publish(&mut self, name: &str, id: &RepoId, heads: Vec<Vec<u8>>)
        requires
            old(self)@.announce_seq < u64::MAX,
        ensures
            final(self)@ == published(
                old(self)@,
                name@,
                id@,
                crate::net::sync::heads_view(heads@),
            ),
    {
        if !self.is_registered(name, id) {
            return;
        }
        let key = name.to_owned();
        if let Some(mut entry) = self.repos.remove(&key) {
            self.announce_seq = self.announce_seq + 1;
            let announce = Announce {
                name: name.to_owned(),
                id: entry.id.duplicate(),
                seq: self.announce_seq,
                heads: duplicate_heads(&heads),
                colocated: entry.local_colocated,
            };
            entry.seq = self.announce_seq;
            entry.published = Some(heads);
            self.repos.insert(key, entry);
            self.broadcast(&UniMessage::Announce(announce));
            assert(self@.repos =~= old(self)@.repos.insert(name@, self@.repos[name@]));
        }
    }

    /// Publishes this machine's status report: cached for peers that connect
    /// later and queued to every connected peer, coalescing with any report
    /// still pending there.
    pub fn publish_status(&mut self, report: StatusReport)
        ensures
            final(self)@ == (HubView {
                peers: broadcasted(old(self)@.peers, MessageView::Status(report@)),
                status: Some(report@),
                ..old(self)@
            }),
    {
        self.broadcast(&UniMessage::Status(report.duplicate()));
        self.status = Some(report);
    }

    /// Publishes this machine's membership: cached for peers that connect later
    /// and queued to every connected peer, coalescing with any membership still
    /// pending there. Called on every membership change, including changes
    /// learned from gossip, which is what makes the propagation transitive.
    pub fn publish_membership(&mut self, membership: Membership)
        ensures
            final(self)@ == (HubView {
                peers: broadcasted(old(self)@.peers, MessageView::Membership(membership@)),
                membership: membership@,
                ..old(self)@
            }),
    {
        self.broadcast(&UniMessage::Membership(membership.duplicate()));
        self.membership = membership;
    }

    /// Marks a peer connected over `conn`: its outbox is seeded with the
    /// membership and every published repo, so a (re)connecting peer learns
    /// state it missed while away. Returns the connection this one replaces,
    /// whose sender is to stop.
    pub fn peer_connected(&mut self, peer: EndpointId, conn: u64) -> (previous: Option<u64>)
        ensures
            final(self)@ == (HubView {
                peers: old(self)@.peers.insert(
                    peer@,
                    PeerSenderView { conn, outbox: replay(old(self)@) },
                ),
                ..old(self)@
            }),
            previous == if old(self)@.peers.contains_key(peer@) {
                Some(old(self)@.peers[peer@].conn)
            } else {
                None
            },
    {
        let mut outbox = Outbox::new();
        outbox.push_membership(self.membership.duplicate());
        if let Some(report) = &self.status {
            outbox.push_status(report.duplicate());
        }
        let ghost seeded = outbox@;
        let ghost list = sorted_map::listing::<String, RepoEntryView>(self.repos@);
        let ghost rule = replaying();
        let len: usize = self.repos.len();
        let mut i: usize = 0;
        while i < len
            invariant
                i <= len,
                len == list.len(),
                rule == replaying(),
                list == sorted_map::listing::<String, RepoEntryView>(self.repos@),
                outbox@ == (OutboxView {
                    announces: sorted_map::map_of(sorted_map::kept(list.take(i as int), rule)),
                    ..seeded
                }),
            decreases len - i,
        {
            let (name, entry): (&String, &RepoEntry) = self.repos.entry_at(i);
            proof {
                sorted_map::lemma_kept_step(list, i as int, rule);
            }
            if let Some(heads) = &entry.published {
                outbox.push_announce(
                    Announce {
                        name: name.clone(),
                        id: entry.id.duplicate(),
                        seq: entry.seq,
                        heads: duplicate_heads(heads),
                        colocated: entry.local_colocated,
                    },
                );
            }
            i = i + 1;
        }
        proof {
            assert(list.take(len as int) =~= list);
            self.repos.lemma_finite();
            sorted_map::lemma_kept::<String, RepoEntryView, AnnounceView>(self.repos@, rule);
            assert(outbox@ =~= replay(old(self)@));
        }
        let previous = self.connection(&peer);
        self.peers.insert(peer, PeerSender { conn, outbox });
        previous
    }

    /// Marks a peer disconnected, returning the connection to close: the caller
    /// may be revoking the peer, and a revoked peer must stop receiving
    /// announcements even if the removal raced connection setup.
    ///
    /// Per-peer state is dropped even when no sender was registered (the peer
    /// may be mid-setup): sequence tracking is per connection (a restarted peer
    /// daemon starts over from 1), and conflicts and orphan announcements
    /// attributed to the peer come back with the replay if still real. Pruning
    /// orphans here also keeps a revoked peer's entries from lingering forever.
    pub fn peer_disconnected(&mut self, peer: &EndpointId) -> (conn: Option<u64>)
        ensures
            final(self)@ == disconnected(old(self)@, peer@),
            conn == if old(self)@.peers.contains_key(peer@) {
                Some(old(self)@.peers[peer@].conn)
            } else {
                None
            },
    {
        let conn = self.connection(peer);
        let ghost repos = self.repos@;
        let ghost list = sorted_map::listing::<String, RepoEntryView>(repos);
        let ghost rule = releasing(peer@);
        let len: usize = self.repos.len();
        let mut all: SortedMap<String, RepoEntry> = SortedMap::new();
        let mut i: usize = 0;
        proof {
            self.repos.lemma_finite();
        }
        assert(list.skip(0) =~= list);
        while i < len
            invariant
                i <= len,
                len == list.len(),
                rule == releasing(peer@),
                sorted_map::listing::<String, RepoEntryView>(self.repos@) == list.skip(i as int),
                all@ == sorted_map::map_of(sorted_map::kept(list.take(i as int), rule)),
                self@ == (HubView { repos: self.repos@, ..old(self)@ }),
            decreases len - i,
        {
            let (name, mut entry): (String, RepoEntry) = self.repos.take_first();
            assert((name@, entry@) == list[i as int]);
            assert(list.skip(i as int).skip(1) =~= list.skip(i + 1));
            proof {
                sorted_map::lemma_kept_step(list, i as int, rule);
            }
            entry.inbox.forget(peer);
            entry.conflicts.remove(peer);
            entry.colocated_peers.remove(peer);
            all.insert(name, entry);
            i = i + 1;
        }
        proof {
            assert(list.take(len as int) =~= list);
            sorted_map::lemma_kept::<String, RepoEntryView, RepoEntryView>(repos, rule);
        }
        self.repos = all;
        self.orphans.forget_peer(peer);
        self.reports.remove(peer);
        self.peers.remove(peer);
        conn
    }

    /// Routes an inbound announcement to its repo's inbox; announcements for
    /// unregistered names are remembered for `clone`, and a registered name
    /// announced with a different id is recorded as a conflict.
    ///
    /// An announcement without heads is a retraction (the peer forgot its
    /// instance; a held repo always has at least one op head): it releases
    /// everything attributed to the peer for the name, like a disconnect scoped
    /// to one repo.
    pub fn route(&mut self, peer: EndpointId, announce: Announce) -> (outcome: Routed)
        ensures
            outcome == routing(old(self)@, peer@, announce@),
            final(self)@ == routed(old(self)@, peer@, announce@),
    {
        // Repo names arriving from peers are validated before any use: they end
        // up in logs and as map keys, and must never carry unbounded length or
        // confusables.
        if validate_name("repo", announce.name.as_str()).is_err() {
            return Routed::InvalidName;
        }
        let ghost a = announce@;
        assert(a.heads.len() == announce.heads@.len());
        let retraction: bool = announce.heads.len() == 0;
        let mut entry = match self.repos.remove(&announce.name) {
            Some(entry) => entry,
            None => {
                assert(self@.repos =~= old(self)@.repos);
                if retraction {
                    self.orphans.forget(announce.name.as_str(), &peer);
                    return Routed::OrphanRetracted;
                }
                let kept: bool = self.orphans.remember(
                    peer,
                    announce.name.as_str(),
                    OrphanAnnounce { id: announce.id, heads: announce.heads },
                );
                return if kept {
                    Routed::Remembered
                } else {
                    Routed::TooManyOrphans
                };
            },
        };
        let outcome = if retraction {
            entry.conflicts.remove(&peer);
            entry.colocated_peers.remove(&peer);
            entry.inbox.retract(peer, announce.seq);
            Routed::Retracted
        } else if !entry.id.same(&announce.id) {
            let new: bool = !entry.conflicts.contains_key(&peer);
            entry.conflicts.insert(peer, announce.id);
            entry.colocated_peers.remove(&peer);
            Routed::Conflict { new }
        } else {
            entry.conflicts.remove(&peer);
            if entry.inbox.offer(peer, announce.seq, announce.heads) {
                if announce.colocated {
                    entry.colocated_peers.insert(peer, true);
                } else {
                    entry.colocated_peers.remove(&peer);
                }
                Routed::Offered
            } else {
                Routed::Stale
            }
        };
        assert(entry@ =~= announced_entry(old(self)@.repos[a.name], peer@, a));
        self.repos.insert(announce.name, entry);
        assert(self@.repos =~= old(self)@.repos.insert(a.name, entry@));
        outcome
    }

    /// Takes the announcements waiting for a repo.
    pub fn drain(&mut self, name: &str, id: &RepoId) -> (announces: Vec<PeerAnnounce>)
        ensures
            holds(old(self)@, name@, id@) ==> {
                let e = old(self)@.repos[name@];
                &&& inbox::announces_view(announces@) == inbox::undrained(e.inbox)
                &&& final(self)@ == HubView {
                    repos: old(self)@.repos.insert(
                        name@,
                        RepoEntryView { inbox: inbox::drained(e.inbox), ..e },
                    ),
                    ..old(self)@
                }
            },
            !holds(old(self)@, name@, id@) ==> announces@.len() == 0 && final(self)@ == old(self)@,
    {
        if !self.is_registered(name, id) {
            return Vec::new();
        }
        let key = name.to_owned();
        match self.repos.remove(&key) {
            Some(mut entry) => {
                let announces = entry.inbox.drain();
                self.repos.insert(key, entry);
                assert(self@.repos =~= old(self)@.repos.insert(name@, self@.repos[name@]));
                announces
            },
            None => Vec::new(),
        }
    }

    /// Puts back heads a fetch failed to apply.
    pub fn requeue(
        &mut self,
        name: &str,
        id: &RepoId,
        peer: EndpointId,
        seq: u64,
        heads: Vec<Vec<u8>>,
    )
        ensures
            final(self)@ == if holds(old(self)@, name@, id@) {
                let e = old(self)@.repos[name@];
                HubView {
                    repos: old(self)@.repos.insert(
                        name@,
                        RepoEntryView {
                            inbox: inbox::requeued(
                                e.inbox,
                                peer@,
                                seq as nat,
                                crate::net::sync::heads_view(heads@),
                            ),
                            ..e
                        },
                    ),
                    ..old(self)@
                }
            } else {
                old(self)@
            },
    {
        if !self.is_registered(name, id) {
            return;
        }
        let key = name.to_owned();
        if let Some(mut entry) = self.repos.remove(&key) {
            entry.inbox.requeue(peer, seq, heads);
            self.repos.insert(key, entry);
            assert(self@.repos =~= old(self)@.repos.insert(name@, self@.repos[name@]));
        }
    }

    /// Takes the next message queued for a peer on a connection.
    pub fn next_message(&mut self, peer: &EndpointId, conn: u64) -> (message: Option<UniMessage>)
        ensures
            ({
                let live = old(self)@.peers.contains_key(peer@) && old(self)@.peers[peer@].conn
                    == conn;
                let sender = old(self)@.peers[peer@];
                &&& live ==> {
                    &&& match message {
                        Some(m) => outbox::next_message(sender.outbox) == Some(m@),
                        None => outbox::next_message(sender.outbox) is None,
                    }
                    &&& final(self)@ == HubView {
                        peers: old(self)@.peers.insert(
                            peer@,
                            PeerSenderView { outbox: outbox::after_next(sender.outbox), ..sender },
                        ),
                        ..old(self)@
                    }
                }
                &&& !live ==> message is None && final(self)@ == old(self)@
            }),
    {
        let live: bool = match self.peers.get(peer) {
            Some(sender) => sender.conn == conn,
            None => false,
        };
        if !live {
            return None;
        }
        match self.peers.remove(peer) {
            Some(mut sender) => {
                let message = sender.outbox.pop();
                self.peers.insert(*peer, sender);
                assert(self@.peers =~= old(self)@.peers.insert(peer@, self@.peers[peer@]));
                message
            },
            None => None,
        }
    }

    /// The current name conflicts, one entry per contesting peer.
    pub fn conflicts(&self) -> (conflicts: Vec<(String, EndpointId)>)
        ensures
            conflicts@.map_values(|c: (String, EndpointId)| (c.0@, c.1@)) == contests(
                sorted_map::listing::<String, RepoEntryView>(self@.repos),
            ),
    {
        let mut conflicts: Vec<(String, EndpointId)> = Vec::new();
        let ghost shown = |c: (String, EndpointId)| (c.0@, c.1@);
        let ghost list = sorted_map::listing::<String, RepoEntryView>(self.repos@);
        let len: usize = self.repos.len();
        let mut i: usize = 0;
        assert(conflicts@.map_values(shown) =~= contests(list.take(0)));
        while i < len
            invariant
                i <= len,
                len == list.len(),
                list == sorted_map::listing::<String, RepoEntryView>(self.repos@),
                shown == (|c: (String, EndpointId)| (c.0@, c.1@)),
                conflicts@.map_values(shown) == contests(list.take(i as int)),
            decreases len - i,
        {
            let (name, entry): (&String, &RepoEntry) = self.repos.entry_at(i);
            let ghost before = conflicts@.map_values(shown);
            let ghost named = |c: (Seq<u8>, Seq<char>)| (name@, c.0);
            let ghost claims = sorted_map::listing::<EndpointId, Seq<char>>(entry@.conflicts);
            let claims_len: usize = entry.conflicts.len();
            let mut j: usize = 0;
            assert(conflicts@.map_values(shown) =~= before + claims.take(0).map_values(named));
            while j < claims_len
                invariant
                    j <= claims_len,
                    claims_len == claims.len(),
                    claims == sorted_map::listing::<EndpointId, Seq<char>>(entry.conflicts@),
                    shown == (|c: (String, EndpointId)| (c.0@, c.1@)),
                    named == (|c: (Seq<u8>, Seq<char>)| (name@, c.0)),
                    conflicts@.map_values(shown) == before + claims.take(j as int).map_values(
                        named,
                    ),
                decreases claims_len - j,
            {
                let (peer, _id): (&EndpointId, &RepoId) = entry.conflicts.entry_at(j);
                let ghost so_far = conflicts@;
                conflicts.push((name.clone(), *peer));
                assert(conflicts@.map_values(shown) =~= so_far.map_values(shown).push(
                    (name@, peer@),
                ));
                assert(claims.take(j + 1).map_values(named) =~= claims.take(j as int).map_values(
                    named,
                ).push((name@, peer@)));
                assert(conflicts@.map_values(shown) =~= before + claims.take(j + 1).map_values(
                    named,
                ));
                j = j + 1;
            }
            proof {
                assert(claims.take(claims_len as int) =~= claims);
                assert(list.take(i + 1).drop_last() =~= list.take(i as int));
                assert(list.take(i + 1).last() == list[i as int]);
                assert(list[i as int] == (name@, entry@));
                assert(conflicts@.map_values(shown) == contests(list.take(i + 1)));
            }
            i = i + 1;
        }
        assert(list.take(len as int) =~= list);
        conflicts
    }

    /// Whether a repo's sync is paused by a colocation conflict.
    pub fn is_paused(&self, name: &str) -> (r: bool)
        ensures
            r == paused(self@, name@),
    {
        match self.repos.get(&name.to_owned()) {
            Some(entry) => entry.local_colocated && entry.colocated_peers.len() > 0,
            None => false,
        }
    }

    /// The paused repos, each with the peers it is paused by.
    pub fn paused_repos(&self) -> (paused: Vec<(String, Vec<EndpointId>)>)
        ensures
            paused@.map_values(
                |p: (String, Vec<EndpointId>)| (p.0@, p.1@.map_values(|e: EndpointId| e@)),
            ) == paused_listing(self@),
    {
        let mut paused: Vec<(String, Vec<EndpointId>)> = Vec::new();
        let ghost shown = |p: (String, Vec<EndpointId>)|
            (p.0@, p.1@.map_values(|e: EndpointId| e@));
        let ghost list = sorted_map::listing::<String, RepoEntryView>(self.repos@);
        let ghost rule = pausing();
        let len: usize = self.repos.len();
        let mut i: usize = 0;
        assert(paused@.map_values(shown) =~= sorted_map::kept(list.take(0), rule));
        while i < len
            invariant
                i <= len,
                len == list.len(),
                rule == pausing(),
                list == sorted_map::listing::<String, RepoEntryView>(self.repos@),
                shown == (|p: (String, Vec<EndpointId>)|
                    (p.0@, p.1@.map_values(|e: EndpointId| e@))),
                paused@.map_values(shown) == sorted_map::kept(list.take(i as int), rule),
            decreases len - i,
        {
            let (name, entry): (&String, &RepoEntry) = self.repos.entry_at(i);
            let ghost before = paused@;
            proof {
                sorted_map::lemma_kept_step(list, i as int, rule);
            }
            if entry.local_colocated && entry.colocated_peers.len() > 0 {
                let peers = keys_in_order(&entry.colocated_peers);
                paused.push((name.clone(), peers));
                assert(shown(paused@.last()) == (name@, keys_of(
                    sorted_map::listing::<EndpointId, bool>(entry@.colocated_peers),
                )));
                assert(paused@.map_values(shown) =~= before.map_values(shown).push(
                    shown(paused@.last()),
                ));
            }
            i = i + 1;
        }
        assert(list.take(len as int) =~= list);
        paused
    }

    /// Stores a peer's status report for `jj-mesh status`. The peer is
    /// authenticated but its strings reach the user's terminal, so the
    /// free-form fields are sanitized and invalid repo names dropped. Only
    /// connected peers may hold a slot, or a report racing its disconnect would
    /// be retained forever.
    pub fn route_status(&mut self, peer: EndpointId, report: StatusReport)
        ensures
            final(self)@ == if old(self)@.peers.contains_key(peer@) {
                HubView {
                    reports: old(self)@.reports.insert(peer@, shown_report(report@)),
                    ..old(self)@
                }
            } else {
                old(self)@
            },
    {
        if self.peers.contains_key(&peer) {
            self.reports.insert(peer, clean_report(&report));
        }
    }

    /// The latest status report of every connected peer.
    pub fn peer_reports(&self) -> (reports: Vec<(EndpointId, StatusReport)>)
        ensures
            reports@.map_values(|r: (EndpointId, StatusReport)| (r.0@, r.1@))
                == sorted_map::listing::<EndpointId, StatusReportView>(self@.reports),
    {
        let mut reports: Vec<(EndpointId, StatusReport)> = Vec::new();
        let ghost shown = |r: (EndpointId, StatusReport)| (r.0@, r.1@);
        let ghost list = sorted_map::listing::<EndpointId, StatusReportView>(self.reports@);
        let len: usize = self.reports.len();
        let mut i: usize = 0;
        assert(reports@.map_values(shown) =~= list.take(0));
        while i < len
            invariant
                i <= len,
                len == list.len(),
                list == sorted_map::listing::<EndpointId, StatusReportView>(self.reports@),
                shown == (|r: (EndpointId, StatusReport)| (r.0@, r.1@)),
                reports@.map_values(shown) == list.take(i as int),
            decreases len - i,
        {
            let (peer, report): (&EndpointId, &StatusReport) = self.reports.entry_at(i);
            let ghost before = reports@;
            reports.push((*peer, report.duplicate()));
            assert(reports@.map_values(shown) =~= before.map_values(shown).push(list[i as int]));
            assert(list.take(i + 1) =~= list.take(i as int).push(list[i as int]));
            i = i + 1;
        }
        assert(list.take(len as int) =~= list);
        reports
    }

    /// Resolves a `clone` of the repo named `name`: the id every connected
    /// announcing peer agrees on, and each peer's claimed heads. Errors when
    /// nobody announces the name, or when peers disagree on the id (unrelated
    /// repos contesting one name, which only the user can resolve).
    pub fn clone_sources(&self, name: &str) -> (r: Result<
        (RepoId, Vec<CloneSource>),
        CloneError,
    >)
        ensures
            match r {
                Ok(found) => orphans::clone_resolution(self@.orphans, self@.peers.dom(), name@)
                    == Ok::<(Seq<char>, Seq<(Seq<u8>, Seq<Seq<u8>>)>), CloneFault>(
                    (found.0@, orphans::sources_view(found.1@)),
                ),
                Err(e) => orphans::clone_resolution(self@.orphans, self@.peers.dom(), name@)
                    == Err::<(Seq<char>, Seq<(Seq<u8>, Seq<Seq<u8>>)>), CloneFault>(e@),
            },
    {
        self.orphans.resolve_clone(&self.peers, name)
    }

    /// Answers an inbound fetch: served (one more being served), or refused.
    /// The name needs no validation here: only names that passed it at
    /// registration are ever registered, so an invalid one simply fails to
    /// match. An id mismatch means the fetcher's repo is not ours, whatever the
    /// name says: refused rather than mix unrelated histories. A peer with a
    /// colocation conflict should not be fetching while paused itself, but an
    /// older or hostile build must still be denied; everyone else is served
    /// normally.
    pub fn begin_serve(&mut self, peer: &EndpointId, name: &str, id: &RepoId) -> (answer:
        FetchAnswer)
        ensures
            answer == fetch_answer(old(self)@, peer@, name@, id@),
            final(self)@ == match answer {
                FetchAnswer::Serve { handle } => with_serving(
                    old(self)@,
                    name@,
                    Some(
                        Serving {
                            handle,
                            active: (old(self)@.repos[name@].serving->Some_0.active + 1) as usize,
                        },
                    ),
                ),
                _ => old(self)@,
            },
    {
        if !self.is_registered(name, id) {
            return FetchAnswer::Unavailable;
        }
        let key = name.to_owned();
        let serving = match self.repos.get(&key) {
            None => {
                return FetchAnswer::Unavailable;
            },
            Some(entry) => {
                if entry.local_colocated && entry.colocated_peers.contains_key(peer) {
                    return FetchAnswer::Unavailable;
                }
                match entry.serving {
                    None => {
                        return FetchAnswer::Unavailable;
                    },
                    Some(serving) => serving,
                }
            },
        };
        if serving.active >= MAX_SERVES {
            return FetchAnswer::Busy;
        }
        if let Some(mut entry) = self.repos.remove(&key) {
            entry.serving = Some(Serving { handle: serving.handle, active: serving.active + 1 });
            self.repos.insert(key, entry);
            assert(self@.repos =~= old(self)@.repos.insert(name@, self@.repos[name@]));
        }
        FetchAnswer::Serve { handle: serving.handle }
    }

    /// Ends a served fetch. Nothing changes when the stores it was served from
    /// have been replaced or closed since.
    pub fn end_serve(&mut self, name: &str, id: &RepoId, handle: u64)
        ensures
            ({
                let serving = old(self)@.repos[name@].serving;
                let live = holds(old(self)@, name@, id@) && serving is Some
                    && serving->Some_0.handle == handle && serving->Some_0.active > 0;
                final(self)@ == if live {
                    with_serving(
                        old(self)@,
                        name@,
                        Some(
                            Serving { handle, active: (serving->Some_0.active - 1) as usize },
                        ),
                    )
                } else {
                    old(self)@
                }
            }),
    {
        if !self.is_registered(name, id) {
            return;
        }
        let key = name.to_owned();
        let active: usize = match self.repos.get(&key) {
            Some(entry) => match entry.serving {
                Some(serving) => if serving.handle == handle {
                    serving.active
                } else {
                    0
                },
                None => 0,
            },
            None => 0,
        };
        if active == 0 {
            return;
        }
        if let Some(mut entry) = self.repos.remove(&key) {
            entry.serving = Some(Serving { handle, active: active - 1 });
            self.repos.insert(key, entry);
            assert(self@.repos =~= old(self)@.repos.insert(name@, self@.repos[name@]));
        }
    }
}

/// The keys of a map, in order.
fn keys_in_order(map: &SortedMap<EndpointId, bool>) -> (keys: Vec<EndpointId>)
    ensures
        keys@.map_values(|e: EndpointId| e@) == keys_of(
            sorted_map::listing::<EndpointId, bool>(map@),
        ),
{
    let mut keys: Vec<EndpointId> = Vec::new();
    let ghost shown = |e: EndpointId| e@;
    let ghost list = sorted_map::listing::<EndpointId, bool>(map@);
    let len: usize = map.len();
    let mut i: usize = 0;
    assert(keys@.map_values(shown) =~= keys_of(list.take(0)));
    while i < len
        invariant
            i <= len,
            len == list.len(),
            list == sorted_map::listing::<EndpointId, bool>(map@),
            shown == (|e: EndpointId| e@),
            keys@.map_values(shown) == keys_of(list.take(i as int)),
        decreases len - i,
    {
        let (peer, _flag): (&EndpointId, &bool) = map.entry_at(i);
        let ghost before = keys@;
        keys.push(*peer);
        assert(keys@.map_values(shown) =~= before.map_values(shown).push(peer@));
        assert(keys_of(list.take(i + 1)) =~= keys_of(list.take(i as int)).push(peer@));
        i = i + 1;
    }
    assert(list.take(len as int) =~= list);
    keys
}

/// Cleans a peer's report for display.
fn clean_report(report: &StatusReport) -> (clean: StatusReport)
    ensures
        clean@ == shown_report(report@),
{
    let mut repos: Vec<RepoHealth> = Vec::new();
    let ghost all = report@.repos;
    let mut i: usize = 0;
    assert(crate::net::sync::healths_view(repos@) =~= shown_repos(all.take(0)));
    while i < report.repos.len()
        invariant
            i <= report.repos@.len(),
            all == crate::net::sync::healths_view(report.repos@),
            crate::net::sync::healths_view(repos@) == shown_repos(all.take(i as int)),
        decreases report.repos@.len() - i,
    {
        let ghost before = repos@;
        assert(all.take(i + 1).drop_last() =~= all.take(i as int));
        assert(all.take(i + 1).last() == report.repos@[i as int]@);
        if validate_name("repo", report.repos[i].name.as_str()).is_ok() {
            repos.push(report.repos[i].duplicate());
            assert(crate::net::sync::healths_view(repos@) =~= crate::net::sync::healths_view(
                before,
            ).push(report.repos@[i as int]@));
        }
        i = i + 1;
    }
    assert(all.take(i as int) =~= all);
    StatusReport {
        daemon_version: sanitize(report.daemon_version.as_str()),
        jj_version: match &report.jj_version {
            Some(version) => Some(sanitize(version.as_str())),
            None => None,
        },
        repos,
    }
}

} // verus!
