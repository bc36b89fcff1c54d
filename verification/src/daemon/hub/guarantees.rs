//! What each hub operation does for the machines and repos around it, told by
//! what they hold before and after.

use vstd::prelude::*;

use super::inbox::{self, PeerAnnounceView, SlotView};
use super::orphans::{self, CloneFault, MAX_ORPHAN_REPOS_PER_PEER, OrphanMap, OrphanView};
use super::outbox::{self, OutboxView};
use super::{FetchAnswer, HubView, MAX_SERVES, RepoEntryView, Routed, Serving};
use crate::config::state::membership::MembershipView;
use crate::net::endpoint::EndpointId;
use crate::net::sync::{AnnounceView, MessageView, RepoHealthView, StatusReportView};
use crate::order::Key;
use crate::sorted_map;

verus! {

/// Publishing a registered repo's heads tells every connected peer exactly those
/// heads, under the repo's id, with a sequence number above every earlier one. A
/// peer that connects later is told the same.
pub proof fn published_heads_reach_every_peer(
    h: HubView,
    name: Seq<char>,
    id: Seq<char>,
    heads: Seq<Seq<u8>>,
)
    requires
        h.repos.contains_key(name),
        h.repos[name].id == id,
    ensures
        ({
            let after = super::published(h, name, id, heads);
            let seq = after.repos[name].seq;
            &&& seq == h.announce_seq + 1
            &&& after.announce_seq == seq
            &&& after.peers.dom() == h.peers.dom()
            &&& forall|p: Seq<u8>| #[trigger]
                h.peers.contains_key(p) ==> {
                    let told = after.peers[p].outbox;
                    &&& told.announces.contains_key(name)
                    &&& told.announces[name].name == name
                    &&& told.announces[name].id == id
                    &&& told.announces[name].seq == seq
                    &&& told.announces[name].heads == heads
                    &&& told.announces[name].colocated == h.repos[name].local_colocated
                    &&& told.announces.remove(name) == h.peers[p].outbox.announces.remove(name)
                    &&& told.membership == h.peers[p].outbox.membership
                    &&& told.status == h.peers[p].outbox.status
                    &&& after.peers[p].conn == h.peers[p].conn
                    &&& super::replay(after).announces.contains_key(name)
                    &&& super::replay(after).announces[name] == told.announces[name]
                }
            &&& super::replay(after).announces.contains_key(name)
            &&& super::replay(after).announces[name].heads == heads
            &&& super::replay(after).announces[name].seq == seq
            &&& super::replay(after).announces[name].id == id
        }),
{
    let after = super::published(h, name, id, heads);
    assert(after.peers.dom() =~= h.peers.dom());
    assert forall|p: Seq<u8>| #[trigger] h.peers.contains_key(p) implies
        after.peers[p].outbox.announces.remove(name) == h.peers[p].outbox.announces.remove(
        name,
    ) by {
        assert(after.peers[p].outbox.announces.remove(name)
            =~= h.peers[p].outbox.announces.remove(name));
    }
}

/// Publishing changes the repo's own heads and sequence number and nothing else
/// the hub keeps; under another id than the registered one it changes nothing.
pub proof fn publishing_touches_one_repo(
    h: HubView,
    name: Seq<char>,
    id: Seq<char>,
    heads: Seq<Seq<u8>>,
)
    ensures
        ({
            let after = super::published(h, name, id, heads);
            let held = h.repos.contains_key(name) && h.repos[name].id == id;
            &&& !held ==> after == h
            &&& held ==> {
                let e = h.repos[name];
                let f = after.repos[name];
                &&& after.repos.contains_key(name)
                &&& f.published == Some(heads)
                &&& f.id == e.id
                &&& f.inbox == e.inbox
                &&& f.conflicts == e.conflicts
                &&& f.local_colocated == e.local_colocated
                &&& f.colocated_peers == e.colocated_peers
                &&& f.serving == e.serving
                &&& after.repos.remove(name) == h.repos.remove(name)
            }
            &&& after.orphans == h.orphans
            &&& after.membership == h.membership
            &&& after.status == h.status
            &&& after.reports == h.reports
        }),
{
    let after = super::published(h, name, id, heads);
    assert(after.repos.remove(name) =~= h.repos.remove(name));
}

/// What one machine publishes is what another that holds the same repo is left
/// to fetch, as long as it comes after what it heard before.
pub proof fn published_heads_arrive(
    h: HubView,
    other: HubView,
    me: Seq<u8>,
    them: Seq<u8>,
    name: Seq<char>,
    heads: Seq<Seq<u8>>,
)
    requires
        crate::config::name::valid_name(name),
        h.repos.contains_key(name),
        other.repos.contains_key(name),
        h.repos[name].id == other.repos[name].id,
        h.peers.contains_key(them),
        heads.len() > 0,
        other.repos[name].inbox.dom().finite(),
        other.repos[name].inbox.contains_key(me) ==> other.repos[name].inbox[me].seq
            <= h.announce_seq,
    ensures
        ({
            let sent = super::published(
                h,
                name,
                h.repos[name].id,
                heads,
            ).peers[them].outbox.announces[name];
            let after = super::routed(other, me, sent);
            &&& inbox::undrained(after.repos[name].inbox).contains(
                (me, PeerAnnounceView { peer: me, seq: h.announce_seq + 1, heads }),
            )
            &&& after.repos[name].colocated_peers.contains_key(me)
                == h.repos[name].local_colocated
            &&& !after.repos[name].conflicts.contains_key(me)
        }),
{
    let slots = other.repos[name].inbox;
    super::laws::offers_are_handed_out(slots, me, h.announce_seq + 1, heads);
}

/// A registered repo starts with nothing published, offered or served; the peers
/// known to announce another repo under its name contest it, and its name is no
/// longer remembered for `clone`.
pub proof fn registering_starts_afresh(h: HubView, name: Seq<char>, id: Seq<char>)
    ensures
        ({
            let after = super::registered(h, name, id);
            let f = after.repos[name];
            &&& after.repos.contains_key(name)
            &&& f.id == id
            &&& f.seq == 0
            &&& f.published is None
            &&& f.serving is None
            &&& !f.local_colocated
            &&& forall|p: Seq<u8>|
                {
                    let contests = h.orphans.contains_key(name) && h.orphans[name].contains_key(p)
                        && h.orphans[name][p].id != id;
                    &&& (#[trigger] f.conflicts.contains_key(p)) == contests
                    &&& contests ==> f.conflicts[p] == h.orphans[name][p].id
                    &&& !f.inbox.contains_key(p)
                    &&& !f.colocated_peers.contains_key(p)
                }
            &&& after.repos.remove(name) == h.repos.remove(name)
            &&& !after.orphans.contains_key(name)
            &&& forall|n: Seq<char>|
                n != name ==> (#[trigger] after.orphans.contains_key(n))
                    == h.orphans.contains_key(n) && after.orphans[n] == h.orphans[n]
            &&& after.peers == h.peers
            &&& after.announce_seq == h.announce_seq
            &&& after.membership == h.membership
            &&& after.status == h.status
            &&& after.reports == h.reports
        }),
{
    let after = super::registered(h, name, id);
    assert(after.repos.remove(name) =~= h.repos.remove(name));
}

/// Unregistering a repo that was announced retracts it with every connected
/// peer: each is told it has no heads anymore, under the id it had, with a
/// sequence number above every earlier one. One never announced is dropped
/// silently.
pub proof fn unregistering_retracts(h: HubView, name: Seq<char>)
    requires
        h.repos.contains_key(name),
    ensures
        ({
            let after = super::unregistered(h, name);
            let e = h.repos[name];
            &&& !after.repos.contains_key(name)
            &&& after.repos == h.repos.remove(name)
            &&& after.peers.dom() == h.peers.dom()
            &&& after.membership == h.membership
            &&& after.status == h.status
            &&& after.reports == h.reports
            &&& e.published is None ==> after.peers == h.peers && after.announce_seq
                == h.announce_seq
            &&& e.published is Some ==> after.announce_seq == h.announce_seq + 1
            &&& e.published is Some ==> forall|p: Seq<u8>| #[trigger]
                h.peers.contains_key(p) ==> {
                    let told = after.peers[p].outbox;
                    &&& told.announces.contains_key(name)
                    &&& told.announces[name].name == name
                    &&& told.announces[name].id == e.id
                    &&& told.announces[name].seq == h.announce_seq + 1
                    &&& told.announces[name].heads.len() == 0
                    &&& !told.announces[name].colocated
                    &&& told.announces.remove(name) == h.peers[p].outbox.announces.remove(name)
                    &&& told.membership == h.peers[p].outbox.membership
                    &&& told.status == h.peers[p].outbox.status
                    &&& after.peers[p].conn == h.peers[p].conn
                }
            &&& !super::replay(after).announces.contains_key(name)
        }),
{
    let after = super::unregistered(h, name);
    assert(after.peers.dom() =~= h.peers.dom());
    if h.repos[name].published is Some {
        assert forall|p: Seq<u8>| #[trigger] h.peers.contains_key(p) implies
            after.peers[p].outbox.announces.remove(name) == h.peers[p].outbox.announces.remove(
            name,
        ) by {
            assert(after.peers[p].outbox.announces.remove(name)
                =~= h.peers[p].outbox.announces.remove(name));
        }
    }
}

/// Unregistering a repo nobody registered changes nothing.
pub proof fn unregistering_needs_a_repo(h: HubView, name: Seq<char>)
    requires
        !h.repos.contains_key(name),
    ensures
        super::unregistered(h, name) == h,
{
}

/// What is remembered when a repo is unregistered was announced to it: nothing
/// is remembered under other names that was not before, and what is new under
/// its name carries its id and the peer's last heads.
pub proof fn unregistering_remembers_only_announcements(
    h: HubView,
    name: Seq<char>,
    n: Seq<char>,
    peer: Seq<u8>,
)
    requires
        h.repos.contains_key(name),
        h.repos[name].inbox.dom().finite(),
    ensures
        ({
            let after = super::unregistered(h, name).orphans;
            let e = h.repos[name];
            &&& n != name ==> orphans::made_for(after, n) == orphans::made_for(h.orphans, n)
            &&& orphans::made_for(after, name).contains_key(peer) ==> {
                ||| orphans::made_for(h.orphans, name).contains_key(peer) && orphans::made_for(
                    after,
                    name,
                )[peer] == orphans::made_for(h.orphans, name)[peer]
                ||| e.inbox.contains_key(peer) && e.inbox[peer].heads.len() > 0
                    && orphans::made_for(after, name)[peer] == OrphanView {
                    id: e.id,
                    heads: e.inbox[peer].heads,
                }
            }
            &&& orphans::made_for(h.orphans, name).contains_key(peer) ==> orphans::made_for(
                after,
                name,
            ).contains_key(peer)
        }),
{
    let e = h.repos[name];
    sorted_map::kept_entries_are_those_chosen::<EndpointId, SlotView, Seq<Seq<u8>>>(
        e.inbox,
        inbox::known_heads(),
    );
    lemma_demoted(h.orphans, name, e.id, inbox::last_heads(e.inbox), n, peer);
}

proof fn lemma_demoted(
    o: OrphanMap,
    name: Seq<char>,
    id: Seq<char>,
    heads: Seq<(Seq<u8>, Seq<Seq<u8>>)>,
    n: Seq<char>,
    peer: Seq<u8>,
)
    ensures
        ({
            let after = orphans::demoted(o, name, id, heads);
            &&& n != name ==> orphans::made_for(after, n) == orphans::made_for(o, n)
            &&& orphans::made_for(after, name).contains_key(peer) ==> {
                ||| orphans::made_for(o, name).contains_key(peer) && orphans::made_for(
                    after,
                    name,
                )[peer] == orphans::made_for(o, name)[peer]
                ||| orphans::made_for(after, name)[peer].id == id && heads.contains(
                    (peer, orphans::made_for(after, name)[peer].heads),
                )
            }
            &&& orphans::made_for(o, name).contains_key(peer) ==> orphans::made_for(
                after,
                name,
            ).contains_key(peer)
        }),
    decreases heads.len(),
{
    if heads.len() > 0 {
        let rest = heads.drop_last();
        lemma_demoted(o, name, id, rest, n, peer);
        assert(forall|i: int| 0 <= i < rest.len() ==> #[trigger] rest[i] == heads[i]);
        assert(heads[heads.len() - 1] == heads.last());
        let before = orphans::demoted(o, name, id, rest);
        let made = orphans::made_for(before, name);
        if made.contains_key(peer) && rest.contains((peer, made[peer].heads)) {
            let i = choose|i: int| 0 <= i < rest.len() && rest[i] == (peer, made[peer].heads);
            assert(heads[i] == (peer, made[peer].heads));
        }
    }
}

/// A peer that connects is told the membership and the status as they are, and
/// of exactly the published repos: the heads, id, sequence number and colocation
/// of each.
pub proof fn connecting_peers_are_told_everything(h: HubView, name: Seq<char>)
    ensures
        ({
            let told = super::replay(h);
            let e = h.repos[name];
            &&& told.membership == Some(h.membership)
            &&& told.status == h.status
            &&& told.announces.contains_key(name) <==> h.repos.contains_key(name) && e.published
                is Some
            &&& told.announces.contains_key(name) ==> {
                let a = told.announces[name];
                &&& a.name == name
                &&& a.id == e.id
                &&& a.seq == e.seq
                &&& Some(a.heads) == e.published
                &&& a.colocated == e.local_colocated
            }
        }),
{
}

/// A leaving peer takes what it said with it and nothing else: what other peers
/// announced, contest, claim and reported stays, and so do the repos themselves.
pub proof fn disconnecting_leaves_the_others_alone(
    h: HubView,
    peer: Seq<u8>,
    other: Seq<u8>,
    name: Seq<char>,
)
    requires
        other != peer,
    ensures
        ({
            let after = super::disconnected(h, peer);
            let e = h.repos[name];
            let f = after.repos[name];
            &&& after.repos.contains_key(name) <==> h.repos.contains_key(name)
            &&& h.repos.contains_key(name) ==> {
                &&& f.id == e.id
                &&& f.seq == e.seq
                &&& f.published == e.published
                &&& f.local_colocated == e.local_colocated
                &&& f.serving == e.serving
                &&& f.inbox == e.inbox.remove(peer)
                &&& f.conflicts == e.conflicts.remove(peer)
                &&& f.colocated_peers == e.colocated_peers.remove(peer)
            }
            &&& after.peers == h.peers.remove(peer)
            &&& after.reports == h.reports.remove(peer)
            &&& after.announce_seq == h.announce_seq
            &&& after.membership == h.membership
            &&& after.status == h.status
            &&& !orphans::made_for(after.orphans, name).contains_key(peer)
            &&& orphans::made_for(after.orphans, name).contains_key(other)
                == orphans::made_for(h.orphans, name).contains_key(other)
            &&& orphans::made_for(h.orphans, name).contains_key(other) ==> orphans::made_for(
                after.orphans,
                name,
            )[other] == orphans::made_for(h.orphans, name)[other]
        }),
{
    if h.orphans.contains_key(name) {
        let left = h.orphans[name].remove(peer);
        if h.orphans[name].contains_key(other) {
            assert(left.contains_key(other));
            assert(!Map::<Seq<u8>, OrphanView>::empty().contains_key(other));
        }
    }
}

/// An announcement under an unusable name is dropped.
pub proof fn unusable_names_are_dropped(h: HubView, peer: Seq<u8>, a: AnnounceView)
    requires
        !crate::config::name::valid_name(a.name),
    ensures
        super::routing(h, peer, a) == Routed::InvalidName,
        super::routed(h, peer, a) == h,
{
}

/// What a peer announces of a repo not registered here is remembered for `clone`
/// as announced, in place of what it announced before, while it has room for the
/// name; a retraction forgets it. Nothing else changes.
pub proof fn unregistered_repos_are_remembered(
    h: HubView,
    peer: Seq<u8>,
    a: AnnounceView,
    n: Seq<char>,
    p: Seq<u8>,
)
    requires
        crate::config::name::valid_name(a.name),
        !h.repos.contains_key(a.name),
    ensures
        ({
            let after = super::routed(h, peer, a);
            let known = h.orphans.contains_key(a.name) && h.orphans[a.name].contains_key(peer);
            let room = known || orphans::held_by(h.orphans, peer).len()
                < MAX_ORPHAN_REPOS_PER_PEER;
            let made = orphans::made_for(after.orphans, a.name);
            &&& a.heads.len() > 0 && room ==> {
                &&& super::routing(h, peer, a) == Routed::Remembered
                &&& made.contains_key(peer)
                &&& made[peer].id == a.id
                &&& made[peer].heads == a.heads
            }
            &&& a.heads.len() > 0 && !room ==> {
                &&& super::routing(h, peer, a) == Routed::TooManyOrphans
                &&& after.orphans == h.orphans
            }
            &&& a.heads.len() == 0 ==> {
                &&& super::routing(h, peer, a) == Routed::OrphanRetracted
                &&& !made.contains_key(peer)
            }
            &&& n != a.name || p != peer ==> {
                let were = orphans::made_for(h.orphans, n);
                let are = orphans::made_for(after.orphans, n);
                &&& are.contains_key(p) == were.contains_key(p)
                &&& were.contains_key(p) ==> are[p] == were[p]
            }
            &&& after.repos == h.repos
            &&& after.peers == h.peers
            &&& after.announce_seq == h.announce_seq
            &&& after.membership == h.membership
            &&& after.status == h.status
            &&& after.reports == h.reports
        }),
{
    if h.orphans.contains_key(a.name) {
        let left = h.orphans[a.name].remove(peer);
        if p != peer && h.orphans[a.name].contains_key(p) {
            assert(left.contains_key(p));
            assert(!Map::<Seq<u8>, OrphanView>::empty().contains_key(p));
        }
    }
}

/// What a peer announces of a registered repo: the latest heads under the
/// matching id wait to be fetched and settle any conflict; another id is a
/// conflict under that id; a retraction clears all three. Only what the repo
/// keeps of that peer changes.
pub proof fn announcements_of_registered_repos(
    h: HubView,
    peer: Seq<u8>,
    a: AnnounceView,
    other: Seq<u8>,
)
    requires
        crate::config::name::valid_name(a.name),
        h.repos.contains_key(a.name),
        other != peer,
    ensures
        ({
            let after = super::routed(h, peer, a);
            let answer = super::routing(h, peer, a);
            let e = h.repos[a.name];
            let f = after.repos[a.name];
            let late = e.inbox.contains_key(peer) && e.inbox[peer].seq >= a.seq;
            &&& after.repos.contains_key(a.name)
            &&& after.repos.remove(a.name) == h.repos.remove(a.name)
            &&& after.orphans == h.orphans
            &&& after.peers == h.peers
            &&& after.announce_seq == h.announce_seq
            &&& after.membership == h.membership
            &&& after.status == h.status
            &&& after.reports == h.reports
            &&& f.id == e.id
            &&& f.seq == e.seq
            &&& f.published == e.published
            &&& f.local_colocated == e.local_colocated
            &&& f.serving == e.serving
            &&& f.inbox.remove(peer) == e.inbox.remove(peer)
            &&& f.conflicts.remove(peer) == e.conflicts.remove(peer)
            &&& f.colocated_peers.remove(peer) == e.colocated_peers.remove(peer)
            &&& late ==> f.inbox == e.inbox
            &&& a.heads.len() == 0 ==> {
                &&& answer == Routed::Retracted
                &&& !f.conflicts.contains_key(peer)
                &&& !f.colocated_peers.contains_key(peer)
                &&& !late ==> f.inbox.contains_key(peer) && f.inbox[peer] == (SlotView {
                    seq: a.seq,
                    heads: Seq::empty(),
                    drained: true,
                })
            }
            &&& a.heads.len() > 0 && a.id != e.id ==> {
                &&& answer == (Routed::Conflict { new: !e.conflicts.contains_key(peer) })
                &&& f.conflicts.contains_key(peer) && f.conflicts[peer] == a.id
                &&& !f.colocated_peers.contains_key(peer)
                &&& f.inbox == e.inbox
            }
            &&& a.heads.len() > 0 && a.id == e.id ==> {
                &&& !f.conflicts.contains_key(peer)
                &&& late ==> answer == Routed::Stale && f.colocated_peers == e.colocated_peers
                &&& !late ==> {
                    &&& answer == Routed::Offered
                    &&& f.inbox.contains_key(peer) && f.inbox[peer] == (SlotView {
                        seq: a.seq,
                        heads: a.heads,
                        drained: false,
                    })
                    &&& f.colocated_peers.contains_key(peer) == a.colocated
                }
            }
        }),
{
    let e = h.repos[a.name];
    let f = super::routed(h, peer, a).repos[a.name];
    assert(super::routed(h, peer, a).repos.remove(a.name) =~= h.repos.remove(a.name));
    assert(f.inbox.remove(peer) =~= e.inbox.remove(peer));
    assert(f.conflicts.remove(peer) =~= e.conflicts.remove(peer));
    assert(f.colocated_peers.remove(peer) =~= e.colocated_peers.remove(peer));
}

/// A repo is paused exactly while it is colocated here and some peer claims a
/// colocated instance too; the listing shows exactly those repos, with exactly
/// the peers that claim one.
pub proof fn pauses_are_colocation_conflicts(h: HubView, name: Seq<char>, peers: Seq<Seq<u8>>)
    requires
        h.repos.dom().finite(),
        h.repos.contains_key(name) ==> h.repos[name].colocated_peers.dom().finite(),
    ensures
        super::paused(h, name) <==> {
            &&& h.repos.contains_key(name)
            &&& h.repos[name].local_colocated
            &&& exists|p: Seq<u8>| #[trigger] h.repos[name].colocated_peers.contains_key(p)
        },
        super::paused_listing(h).contains((name, peers)) ==> {
            &&& h.repos.contains_key(name)
            &&& h.repos[name].local_colocated
            &&& peers.len() > 0
            &&& forall|p: Seq<u8>| #[trigger]
                peers.contains(p) <==> h.repos[name].colocated_peers.contains_key(p)
        },
        super::paused(h, name) ==> exists|listed: Seq<Seq<u8>>| #[trigger]
            super::paused_listing(h).contains((name, listed)),
        sorted_map::ascends::<String, Seq<Seq<u8>>>(super::paused_listing(h)),
{
    sorted_map::kept_entries_are_those_chosen::<String, RepoEntryView, Seq<Seq<u8>>>(
        h.repos,
        super::pausing(),
    );
    if h.repos.contains_key(name) {
        let claims = h.repos[name].colocated_peers;
        if claims.len() == 0 {
            assert(claims.dom() =~= Set::empty());
        } else {
            let p = claims.dom().choose();
            assert(claims.contains_key(p));
        }
        let list = sorted_map::listing::<EndpointId, bool>(claims);
        sorted_map::lemma_listing_exists::<EndpointId, bool>(claims);
        sorted_map::lemma_listing_len::<EndpointId, bool>(claims);
        let keys = super::keys_of(list);
        assert forall|p: Seq<u8>| #[trigger] keys.contains(p) <==> claims.contains_key(p) by {
            if claims.contains_key(p) {
                let i = choose|i: int| 0 <= i < list.len() && (#[trigger] list[i]).0 == p;
                assert(keys[i] == p);
            }
            if keys.contains(p) {
                let i = choose|i: int| 0 <= i < keys.len() && keys[i] == p;
                assert(list[i].0 == p);
            }
        }
        if super::paused(h, name) {
            assert(super::paused_listing(h).contains((name, keys)));
        }
    }
}

/// The listed conflicts are exactly the peers that announce another repo under a
/// registered name.
pub proof fn conflicts_are_contesting_peers(h: HubView, name: Seq<char>, peer: Seq<u8>)
    requires
        h.repos.dom().finite(),
        forall|n: Seq<char>| #[trigger]
            h.repos.contains_key(n) ==> h.repos[n].conflicts.dom().finite(),
    ensures
        super::contests(sorted_map::listing::<String, RepoEntryView>(h.repos)).contains(
            (name, peer),
        ) <==> h.repos.contains_key(name) && h.repos[name].conflicts.contains_key(peer),
{
    let list = sorted_map::listing::<String, RepoEntryView>(h.repos);
    sorted_map::lemma_listing_exists::<String, RepoEntryView>(h.repos);
    assert forall|i: int| 0 <= i < list.len() implies (#[trigger] list[i]).1.conflicts.dom().finite() by {
        assert(h.repos.contains_key(list[i].0));
    }
    lemma_contests(list, name, peer);
    if h.repos.contains_key(name) {
        let i = choose|i: int| 0 <= i < list.len() && (#[trigger] list[i]).0 == name;
        assert(h.repos[list[i].0] == list[i].1);
    }
}

proof fn lemma_contests(list: Seq<(Seq<char>, RepoEntryView)>, name: Seq<char>, peer: Seq<u8>)
    requires
        forall|i: int|
            0 <= i < list.len() ==> (#[trigger] list[i]).1.conflicts.dom().finite(),
    ensures
        super::contests(list).contains((name, peer)) <==> exists|i: int|
            0 <= i < list.len() && (#[trigger] list[i]).0 == name
                && list[i].1.conflicts.contains_key(peer),
    decreases list.len(),
{
    if list.len() > 0 {
        let rest = list.drop_last();
        let (n, e) = list.last();
        assert(forall|i: int| 0 <= i < rest.len() ==> #[trigger] rest[i] == list[i]);
        assert(list[list.len() - 1] == list.last());
        lemma_contests(rest, name, peer);
        let before = super::contests(rest);
        let after = super::contests(list);
        let inner = sorted_map::listing::<EndpointId, Seq<char>>(e.conflicts);
        sorted_map::lemma_listing_exists::<EndpointId, Seq<char>>(e.conflicts);
        let own = inner.map_values(|c: (Seq<u8>, Seq<char>)| (n, c.0));
        assert(after == before + own);
        if before.contains((name, peer)) {
            let i = choose|i: int| 0 <= i < before.len() && before[i] == (name, peer);
            assert(after[i] == (name, peer));
        }
        if n == name && e.conflicts.contains_key(peer) {
            let i = choose|i: int| 0 <= i < inner.len() && (#[trigger] inner[i]).0 == peer;
            assert(own[i] == (name, peer));
            assert(after[before.len() + i] == (name, peer));
        }
        if after.contains((name, peer)) {
            let i = choose|i: int| 0 <= i < after.len() && after[i] == (name, peer);
            if i < before.len() {
                assert(before[i] == (name, peer));
                let j = choose|j: int|
                    0 <= j < rest.len() && (#[trigger] rest[j]).0 == name
                        && rest[j].1.conflicts.contains_key(peer);
                assert(list[j].0 == name);
            } else {
                assert(own[i - before.len()] == (name, peer));
                assert(inner[i - before.len()].0 == peer);
            }
        }
        if exists|i: int|
            0 <= i < list.len() && (#[trigger] list[i]).0 == name
                && list[i].1.conflicts.contains_key(peer) {
            let i = choose|i: int|
                0 <= i < list.len() && (#[trigger] list[i]).0 == name
                    && list[i].1.conflicts.contains_key(peer);
            if i < rest.len() {
                assert(rest[i].0 == name);
            }
        }
    }
}

/// A peer's report keeps the repos it reports under usable names, in order and
/// unchanged.
pub proof fn reports_keep_usable_repos(report: StatusReportView)
    ensures
        ({
            let shown = super::shown_report(report);
            &&& shown.repos == report.repos.filter(
                |r: RepoHealthView| crate::config::name::valid_name(r.name),
            )
            &&& shown.daemon_version.len() == report.daemon_version.len()
            &&& shown.jj_version is Some <==> report.jj_version is Some
            &&& shown.jj_version is Some ==> shown.jj_version->Some_0.len()
                == report.jj_version->Some_0.len()
        }),
{
    lemma_shown_repos(report.repos);
}

proof fn lemma_shown_repos(repos: Seq<RepoHealthView>)
    ensures
        super::shown_repos(repos) == repos.filter(
            |r: RepoHealthView| crate::config::name::valid_name(r.name),
        ),
    decreases repos.len(),
{
    reveal(Seq::filter);
    if repos.len() > 0 {
        lemma_shown_repos(repos.drop_last());
    }
}

/// A fetch is served whenever it asks for a repo registered here by its id that
/// is open, is not held back by a colocation conflict with that peer and has
/// fewer than the most fetches running; it is told to come back only when they
/// are all running; and it is refused otherwise.
pub proof fn fetches_are_served_when_possible(
    h: HubView,
    peer: Seq<u8>,
    name: Seq<char>,
    id: Seq<char>,
)
    ensures
        ({
            let e = h.repos[name];
            let answer = super::fetch_answer(h, peer, name, id);
            let offered = h.repos.contains_key(name) && e.id == id && e.serving is Some && !(
            e.local_colocated && e.colocated_peers.contains_key(peer));
            &&& offered && e.serving->Some_0.active < MAX_SERVES ==> answer == (
            FetchAnswer::Serve { handle: e.serving->Some_0.handle })
            &&& offered && e.serving->Some_0.active >= MAX_SERVES ==> answer == FetchAnswer::Busy
            &&& !offered ==> answer == FetchAnswer::Unavailable
        }),
        MAX_SERVES == 2,
{
}

/// Changing how a repo is served changes nothing else.
pub proof fn serving_touches_one_repo(h: HubView, name: Seq<char>, serving: Option<Serving>)
    requires
        h.repos.contains_key(name),
    ensures
        ({
            let after = super::with_serving(h, name, serving);
            let e = h.repos[name];
            let f = after.repos[name];
            &&& after.repos.contains_key(name)
            &&& f.serving == serving
            &&& f.id == e.id
            &&& f.seq == e.seq
            &&& f.published == e.published
            &&& f.inbox == e.inbox
            &&& f.conflicts == e.conflicts
            &&& f.local_colocated == e.local_colocated
            &&& f.colocated_peers == e.colocated_peers
            &&& after.repos.remove(name) == h.repos.remove(name)
            &&& after.peers == h.peers
            &&& after.orphans == h.orphans
            &&& after.reports == h.reports
            &&& after.membership == h.membership
            &&& after.status == h.status
            &&& after.announce_seq == h.announce_seq
        }),
{
    assert(super::with_serving(h, name, serving).repos.remove(name) =~= h.repos.remove(name));
}

/// A broadcast leaves every connected peer with the message as its pending one
/// of that kind, and nothing else changed in its queue.
pub proof fn broadcasts_reach_every_peer(
    h: HubView,
    membership: MembershipView,
    status: StatusReportView,
    p: Seq<u8>,
)
    ensures
        ({
            let told = super::broadcasted(h.peers, MessageView::Membership(membership));
            let shown = super::broadcasted(h.peers, MessageView::Status(status));
            let was = h.peers[p].outbox;
            &&& told.contains_key(p) <==> h.peers.contains_key(p)
            &&& shown.contains_key(p) <==> h.peers.contains_key(p)
            &&& h.peers.contains_key(p) ==> {
                &&& told[p].outbox.membership == Some(membership)
                &&& told[p].outbox.status == was.status
                &&& told[p].outbox.announces == was.announces
                &&& told[p].conn == h.peers[p].conn
                &&& shown[p].outbox.status == Some(status)
                &&& shown[p].outbox.membership == was.membership
                &&& shown[p].outbox.announces == was.announces
                &&& shown[p].conn == h.peers[p].conn
            }
        }),
{
}

/// A queue hands out the membership first, then the status, then the
/// announcements in the order of their names; each once, and nothing else is
/// lost. It hands out nothing exactly when nothing is pending.
pub proof fn queues_hand_out_everything_in_order(o: OutboxView, name: Seq<char>)
    requires
        o.announces.dom().finite(),
    ensures
        ({
            let next = outbox::next_message(o);
            let after = outbox::after_next(o);
            let bare = o.membership is None && o.status is None;
            &&& o.membership is Some ==> next == Some(
                MessageView::Membership(o.membership->Some_0),
            ) && after.membership is None && after.status == o.status && after.announces
                == o.announces
            &&& o.membership is None && o.status is Some ==> next == Some(
                MessageView::Status(o.status->Some_0),
            ) && after.membership is None && after.status is None && after.announces
                == o.announces
            &&& bare && o.announces.contains_key(name) ==> {
                &&& next is Some
                &&& next->Some_0 is Announce
                &&& after.membership is None
                &&& after.status is None
                &&& exists|first: Seq<char>| #[trigger]
                    o.announces.contains_key(first) && next == Some(
                        MessageView::Announce(o.announces[first]),
                    ) && after.announces == o.announces.remove(first) && (first == name
                        || <String as Key>::before(first, name))
            }
            &&& next is None <==> bare && o.announces == Map::<Seq<char>, AnnounceView>::empty()
            &&& next is None ==> after == o
        }),
{
    let list = sorted_map::listing::<String, AnnounceView>(o.announces);
    sorted_map::lemma_listing_exists::<String, AnnounceView>(o.announces);
    sorted_map::lemma_listing_len::<String, AnnounceView>(o.announces);
    if o.announces.len() == 0 {
        assert(o.announces.dom() =~= Set::empty());
        assert(o.announces =~= Map::<Seq<char>, AnnounceView>::empty());
    } else {
        assert(o.announces.contains_key(list[0].0));
        assert(o.announces != Map::<Seq<char>, AnnounceView>::empty());
    }
    if o.announces.contains_key(name) {
        let i = choose|i: int| 0 <= i < list.len() && (#[trigger] list[i]).0 == name;
        if i > 0 {
            assert(<String as Key>::before(list[0].0, list[i].0));
        }
        assert(o.announces[list[0].0] == list[0].1);
    }
}

/// A drain hands out every announcement that came since the last one and has not
/// been drained, as announced, and marks it; slots keep their sequence number
/// and heads.
pub proof fn drains_hand_out_what_is_new(
    slots: Map<Seq<u8>, SlotView>,
    peer: Seq<u8>,
    announce: PeerAnnounceView,
)
    requires
        slots.dom().finite(),
    ensures
        inbox::undrained(slots).contains((peer, announce)) <==> {
            &&& slots.contains_key(peer)
            &&& !slots[peer].drained
            &&& announce == (PeerAnnounceView {
                peer,
                seq: slots[peer].seq,
                heads: slots[peer].heads,
            })
        },
        inbox::drained(slots).contains_key(peer) <==> slots.contains_key(peer),
        slots.contains_key(peer) ==> inbox::drained(slots)[peer] == (SlotView {
            seq: slots[peer].seq,
            heads: slots[peer].heads,
            drained: true,
        }),
{
    sorted_map::kept_entries_are_those_chosen::<EndpointId, SlotView, PeerAnnounceView>(
        slots,
        inbox::pending(),
    );
}

/// The last known heads of a repo are those of every peer that announced some
/// and did not retract them.
pub proof fn last_heads_are_those_announced(
    slots: Map<Seq<u8>, SlotView>,
    peer: Seq<u8>,
    heads: Seq<Seq<u8>>,
)
    requires
        slots.dom().finite(),
    ensures
        inbox::last_heads(slots).contains((peer, heads)) <==> slots.contains_key(peer)
            && slots[peer].heads == heads && heads.len() > 0,
{
    sorted_map::kept_entries_are_those_chosen::<EndpointId, SlotView, Seq<Seq<u8>>>(
        slots,
        inbox::known_heads(),
    );
}

/// Announcements that failed to be fetched are put back for the next drain,
/// unless the peer announced something newer since or they are still waiting;
/// what other peers announced is not touched.
pub proof fn requeueing_restores_the_announcement(
    slots: Map<Seq<u8>, SlotView>,
    peer: Seq<u8>,
    seq: nat,
    heads: Seq<Seq<u8>>,
)
    ensures
        ({
            let after = inbox::requeued(slots, peer, seq, heads);
            let current = slots.contains_key(peer) && slots[peer].seq == seq
                && slots[peer].drained;
            &&& current ==> after.contains_key(peer) && after[peer] == (SlotView {
                seq,
                heads,
                drained: false,
            })
            &&& !current ==> after == slots
            &&& after.remove(peer) == slots.remove(peer)
        }),
{
    assert(inbox::requeued(slots, peer, seq, heads).remove(peer) =~= slots.remove(peer));
}

/// A name can be cloned exactly when some connected peer announces it and all
/// that do announce one id; the sources are those peers, each with its heads.
pub proof fn clones_need_agreement(
    o: OrphanMap,
    connected: Set<Seq<u8>>,
    name: Seq<char>,
    peer: Seq<u8>,
    heads: Seq<Seq<u8>>,
)
    requires
        orphans::made_for(o, name).dom().finite(),
    ensures
        ({
            let found = orphans::clone_resolution(o, connected, name);
            let made = orphans::made_for(o, name);
            let nobody = forall|p: Seq<u8>| #[trigger]
                made.contains_key(p) ==> !connected.contains(p);
            let agreed = forall|p: Seq<u8>, q: Seq<u8>|
                #![trigger made.contains_key(p), made.contains_key(q)]
                made.contains_key(p) && made.contains_key(q) && connected.contains(p)
                    && connected.contains(q) ==> made[p].id == made[q].id;
            let offers = made.contains_key(peer) && connected.contains(peer);
            &&& found is Ok <==> !nobody && agreed
            &&& nobody ==> found->Err_0 == (CloneFault::Nobody { name })
            &&& !nobody && !agreed ==> found->Err_0 == (CloneFault::Disagreement { name })
            &&& found is Ok && offers ==> found->Ok_0.0 == made[peer].id
            &&& found is Ok ==> (found->Ok_0.1.contains((peer, heads)) <==> offers && heads
                == made[peer].heads)
        }),
{
    let made = orphans::made_for(o, name);
    let rule = orphans::of_connected(connected);
    let sources = orphans::announcers(o, connected, name);
    let found = orphans::clone_resolution(o, connected, name);
    sorted_map::kept_entries_are_those_chosen::<EndpointId, OrphanView, OrphanView>(made, rule);
    assert forall|i: int| 0 <= i < sources.len() implies made.contains_key(
        (#[trigger] sources[i]).0,
    ) && connected.contains(sources[i].0) && made[sources[i].0] == sources[i].1 by {
        assert(sources.contains((sources[i].0, sources[i].1)));
    }
    assert forall|p: Seq<u8>| made.contains_key(p) && connected.contains(p) implies exists|i: int|
        0 <= i < sources.len() && #[trigger] sources[i] == (p, made[p]) by {
        assert(sources.contains((p, made[p])));
    }
    if sources.len() > 0 {
        assert(made.contains_key(sources[0].0));
    }
    if exists|i: int| 0 <= i < sources.len() && (#[trigger] sources[i]).1.id != sources[0].1.id {
        let i = choose|i: int|
            0 <= i < sources.len() && (#[trigger] sources[i]).1.id != sources[0].1.id;
        assert(made.contains_key(sources[i].0));
    }
    let shown = sources.map_values(|s: (Seq<u8>, OrphanView)| (s.0, s.1.heads));
    if shown.contains((peer, heads)) {
        let i = choose|i: int| 0 <= i < shown.len() && shown[i] == (peer, heads);
        assert(sources[i].0 == peer);
    }
    if made.contains_key(peer) && connected.contains(peer) {
        let i = choose|i: int| 0 <= i < sources.len() && #[trigger] sources[i] == (
            peer,
            made[peer],
        );
        assert(shown[i] == (peer, made[peer].heads));
    }
}

/// A new hub knows no repo, peer, announcement or report.
pub proof fn new_hubs_know_nothing(name: Seq<char>, peer: Seq<u8>)
    ensures
        ({
            let h = super::empty_hub();
            &&& !h.repos.contains_key(name)
            &&& !h.peers.contains_key(peer)
            &&& !h.orphans.contains_key(name)
            &&& !h.reports.contains_key(peer)
            &&& h.announce_seq == 0
            &&& h.status is None
            &&& !h.membership.peers.contains_key(peer)
            &&& !h.membership.repos.contains_key(name)
        }),
{
}

/// An announcement is stale exactly when the peer announced one as new already.
pub proof fn newer_announcements_are_not_stale(
    slots: Map<Seq<u8>, SlotView>,
    peer: Seq<u8>,
    seq: nat,
)
    ensures
        inbox::stale(slots, peer, seq) <==> slots.contains_key(peer) && seq <= slots[peer].seq,
        MAX_ORPHAN_REPOS_PER_PEER == 64,
{
}

} // verus!
