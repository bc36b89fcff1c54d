//! What holds of the mesh state across operations.

use vstd::prelude::*;

use super::error::Fault;

use super::membership::{
    MAX_MESH_PEERS, MAX_MESH_REPOS, MAX_OTHER_PEERS, MAX_RECORD_VERSION, MembershipView, Record,
};
use super::repo::RepoView;
use super::MeshView;
use crate::net::endpoint::EndpointId;
use crate::order::Key;
use crate::sorted_map;

verus! {

/// Whether a state's maps are finite, as those of a real state are.
pub open spec fn real_state(s: MeshView) -> bool {
    s.peers.dom().finite() && s.repos.dom().finite() && s.mesh_repos.dom().finite()
}

/// Whether a membership's maps are finite, as those of a real one are.
pub open spec fn real_membership(m: MembershipView) -> bool {
    m.peers.dom().finite() && m.repos.dom().finite()
}

/// A map of registers after one gossiped record.
pub open spec fn adopt_one<A>(
    map: Map<A, Record>,
    entry: (A, Record),
    ok: spec_fn(A, Record) -> bool,
    cap: nat,
) -> Map<A, Record> {
    if ok(entry.0, entry.1) && super::membership::adopts(map, entry.0, entry.1, cap) {
        map.insert(entry.0, entry.1)
    } else {
        map
    }
}

/// A map of registers after gossiped records, taken in order.
pub open spec fn adopt_all<A>(
    map: Map<A, Record>,
    list: Seq<(A, Record)>,
    ok: spec_fn(A, Record) -> bool,
    cap: nat,
) -> Map<A, Record>
    decreases list.len(),
{
    if list.len() == 0 {
        map
    } else {
        adopt_one(adopt_all(map, list.drop_last(), ok, cap), list.last(), ok, cap)
    }
}

/// Which gossiped peer records are taken in on a machine.
pub open spec fn takes_peer(local: Seq<u8>) -> spec_fn(Seq<u8>, Record) -> bool {
    |endpoint: Seq<u8>, record: Record| endpoint != local && super::holdable_peer(record)
}

/// Which gossiped repo records are taken in.
pub open spec fn takes_repo() -> spec_fn(Seq<char>, Record) -> bool {
    |name: Seq<char>, record: Record| super::holdable_repo(name, record)
}

/// The better of two records, where there are any.
pub open spec fn better(a: Option<Record>, b: Option<Record>) -> Option<Record> {
    match (a, b) {
        (None, _) => b,
        (_, None) => a,
        (Some(x), Some(y)) => if super::membership::outranks(y, x) {
            b
        } else {
            a
        },
    }
}

/// The record a membership offers under a key.
pub open spec fn offered<A>(
    map: Map<A, Record>,
    key: A,
    ok: spec_fn(A, Record) -> bool,
) -> Option<Record> {
    if map.contains_key(key) && ok(key, map[key]) {
        Some(map[key])
    } else {
        None
    }
}

/// Whether the keys of a sequence are all different.
pub open spec fn distinct<A>(list: Seq<(A, Record)>) -> bool {
    forall|i: int, j: int|
        0 <= i < j < list.len() ==> (#[trigger] list[i]).0 != (#[trigger] list[j]).0
}

proof fn lemma_listing_distinct<K: Key>(map: Map<K::V, Record>)
    requires
        map.dom().finite(),
    ensures
        distinct(sorted_map::listing::<K, Record>(map)),
        sorted_map::is_listing::<K, Record>(sorted_map::listing::<K, Record>(map), map),
{
    sorted_map::lemma_listing_exists::<K, Record>(map);
    let list = sorted_map::listing::<K, Record>(map);
    assert forall|i: int, j: int| 0 <= i < j < list.len() implies (#[trigger] list[i]).0 != (
    #[trigger] list[j]).0 by {
        assert(K::before(list[i].0, list[j].0));
        K::irreflexive(list[i].0);
    }
}

proof fn lemma_distinct_prefix<A>(list: Seq<(A, Record)>)
    requires
        list.len() > 0,
        distinct(list),
    ensures
        distinct(list.drop_last()),
        forall|i: int| 0 <= i < list.len() - 1 ==> (#[trigger] list[i]).0 != list.last().0,
{
    let rest = list.drop_last();
    assert forall|i: int, j: int| 0 <= i < j < rest.len() implies (#[trigger] rest[i]).0 != (
    #[trigger] rest[j]).0 by {
        assert(list[i].0 != list[j].0);
    }
    assert forall|i: int| 0 <= i < list.len() - 1 implies (#[trigger] list[i]).0
        != list.last().0 by {
        assert(list[i].0 != list[list.len() - 1].0);
    }
}

/// Adopting keeps the map finite, only ever grows it, stops at the cap, and
/// never trades a record for a lesser one.
proof fn lemma_adopt_grows<A>(
    map: Map<A, Record>,
    list: Seq<(A, Record)>,
    ok: spec_fn(A, Record) -> bool,
    cap: nat,
)
    requires
        map.dom().finite(),
    ensures
        adopt_all(map, list, ok, cap).dom().finite(),
        map.len() <= adopt_all(map, list, ok, cap).len(),
        map.len() <= cap ==> adopt_all(map, list, ok, cap).len() <= cap,
        forall|k: A|
            map.contains_key(k) ==> {
                &&& #[trigger] adopt_all(map, list, ok, cap).contains_key(k)
                &&& adopt_all(map, list, ok, cap)[k] == map[k] || super::membership::outranks(
                    adopt_all(map, list, ok, cap)[k],
                    map[k],
                )
            },
    decreases list.len(),
{
    if list.len() > 0 {
        lemma_adopt_grows(map, list.drop_last(), ok, cap);
        let mid = adopt_all(map, list.drop_last(), ok, cap);
        let end = adopt_all(map, list, ok, cap);
        assert forall|k: A| map.contains_key(k) implies {
            &&& #[trigger] end.contains_key(k)
            &&& end[k] == map[k] || super::membership::outranks(end[k], map[k])
        } by {
            assert(mid.contains_key(k));
            super::membership::outranks_is_strict(end[k], mid[k], map[k]);
        }
    }
}

/// Where every adopted record comes from.
proof fn lemma_adopt_origin<A>(
    map: Map<A, Record>,
    list: Seq<(A, Record)>,
    ok: spec_fn(A, Record) -> bool,
    cap: nat,
    k: A,
)
    requires
        adopt_all(map, list, ok, cap).contains_key(k),
    ensures
        map.contains_key(k) && adopt_all(map, list, ok, cap)[k] == map[k] || ok(
            k,
            adopt_all(map, list, ok, cap)[k],
        ) && list.contains((k, adopt_all(map, list, ok, cap)[k])),
    decreases list.len(),
{
    if list.len() > 0 {
        let rest = list.drop_last();
        let mid = adopt_all(map, rest, ok, cap);
        let end = adopt_all(map, list, ok, cap);
        if mid.contains_key(k) {
            lemma_adopt_origin(map, rest, ok, cap, k);
            if rest.contains((k, mid[k])) {
                let i = choose|i: int| 0 <= i < rest.len() && rest[i] == (k, mid[k]);
                assert(list[i] == (k, mid[k]));
            }
        }
        if end.contains_key(k) && end[k] == list.last().1 && list.last().0 == k {
            assert(list[list.len() - 1] == (k, end[k]));
        }
    }
}

/// Whether nothing of a sequence would be adopted.
spec fn settled<A>(
    map: Map<A, Record>,
    list: Seq<(A, Record)>,
    ok: spec_fn(A, Record) -> bool,
    cap: nat,
) -> bool {
    forall|i: int|
        0 <= i < list.len() ==> !(ok((#[trigger] list[i]).0, list[i].1)
            && super::membership::adopts(map, list[i].0, list[i].1, cap))
}

/// What has been merged once has nothing left to say.
proof fn lemma_adopt_settles<A>(
    map: Map<A, Record>,
    list: Seq<(A, Record)>,
    ok: spec_fn(A, Record) -> bool,
    cap: nat,
)
    requires
        map.dom().finite(),
        distinct(list),
    ensures
        settled(adopt_all(map, list, ok, cap), list, ok, cap),
    decreases list.len(),
{
    if list.len() > 0 {
        let rest = list.drop_last();
        let last = list.last();
        lemma_distinct_prefix(list);
        lemma_adopt_settles(map, rest, ok, cap);
        lemma_adopt_grows(map, rest, ok, cap);
        let end = adopt_all(map, list, ok, cap);
        super::membership::outranks_is_strict(last.1, last.1, last.1);
        assert forall|i: int| 0 <= i < list.len() implies !(ok((#[trigger] list[i]).0, list[i].1)
            && super::membership::adopts(end, list[i].0, list[i].1, cap)) by {
            if i < rest.len() {
                assert(rest[i] == list[i]);
                assert(list[i].0 != last.0);
            } else {
                assert(list[i] == last);
            }
        }
    }
}

/// Settled records change nothing.
proof fn lemma_settled_is_noop<A>(
    map: Map<A, Record>,
    list: Seq<(A, Record)>,
    ok: spec_fn(A, Record) -> bool,
    cap: nat,
)
    requires
        settled(map, list, ok, cap),
    ensures
        adopt_all(map, list, ok, cap) == map,
    decreases list.len(),
{
    if list.len() > 0 {
        let rest = list.drop_last();
        assert forall|i: int| 0 <= i < rest.len() implies !(ok((#[trigger] rest[i]).0, rest[i].1)
            && super::membership::adopts(map, rest[i].0, rest[i].1, cap)) by {
            assert(rest[i] == list[i]);
        }
        lemma_settled_is_noop(map, rest, ok, cap);
        assert(list[list.len() - 1] == list.last());
    }
}

/// The record under a key in a sequence of entries with different keys.
spec fn listed<A>(list: Seq<(A, Record)>, k: A, ok: spec_fn(A, Record) -> bool) -> Option<Record>
    decreases list.len(),
{
    if list.len() == 0 {
        None
    } else if list.last().0 == k {
        if ok(k, list.last().1) {
            Some(list.last().1)
        } else {
            None
        }
    } else {
        listed(list.drop_last(), k, ok)
    }
}

proof fn lemma_listed_absent<A>(list: Seq<(A, Record)>, k: A, ok: spec_fn(A, Record) -> bool)
    requires
        forall|i: int| 0 <= i < list.len() ==> (#[trigger] list[i]).0 != k,
    ensures
        listed(list, k, ok) is None,
    decreases list.len(),
{
    if list.len() > 0 {
        let rest = list.drop_last();
        assert forall|i: int| 0 <= i < rest.len() implies (#[trigger] rest[i]).0 != k by {
            assert(rest[i] == list[i]);
        }
        lemma_listed_absent(rest, k, ok);
        assert(list[list.len() - 1] == list.last());
    }
}

proof fn lemma_listed_at<A>(list: Seq<(A, Record)>, i: int, ok: spec_fn(A, Record) -> bool)
    requires
        distinct(list),
        0 <= i < list.len(),
    ensures
        listed(list, list[i].0, ok) == if ok(list[i].0, list[i].1) {
            Some(list[i].1)
        } else {
            None
        },
    decreases list.len(),
{
    if i < list.len() - 1 {
        lemma_distinct_prefix(list);
        assert(list.drop_last()[i] == list[i]);
        lemma_listed_at(list.drop_last(), i, ok);
    }
}

proof fn lemma_listed_is_offered<K: Key>(
    map: Map<K::V, Record>,
    k: K::V,
    ok: spec_fn(K::V, Record) -> bool,
)
    requires
        map.dom().finite(),
    ensures
        listed(sorted_map::listing::<K, Record>(map), k, ok) == offered(map, k, ok),
{
    lemma_listing_distinct::<K>(map);
    let list = sorted_map::listing::<K, Record>(map);
    if map.contains_key(k) {
        let i = choose|i: int| 0 <= i < list.len() && (#[trigger] list[i]).0 == k;
        lemma_listed_at(list, i, ok);
    } else {
        assert forall|i: int| 0 <= i < list.len() implies (#[trigger] list[i]).0 != k by {}
        lemma_listed_absent(list, k, ok);
    }
}

/// Where everything fits, every key ends up with the better of what was held
/// and what was offered.
proof fn lemma_adopt_pointwise<A>(
    map: Map<A, Record>,
    list: Seq<(A, Record)>,
    ok: spec_fn(A, Record) -> bool,
    cap: nat,
    keys: Set<A>,
    k: A,
)
    requires
        map.dom().finite(),
        distinct(list),
        keys.finite(),
        keys.len() <= cap,
        map.dom().subset_of(keys),
        forall|i: int|
            0 <= i < list.len() && ok((#[trigger] list[i]).0, list[i].1) ==> keys.contains(
                list[i].0,
            ),
    ensures
        adopt_all(map, list, ok, cap).get(k) == better(map.get(k), listed(list, k, ok)),
        adopt_all(map, list, ok, cap).dom().subset_of(keys),
    decreases list.len(),
{
    if list.len() > 0 {
        let rest = list.drop_last();
        let last = list.last();
        lemma_distinct_prefix(list);
        assert forall|i: int|
            0 <= i < rest.len() && ok((#[trigger] rest[i]).0, rest[i].1) implies keys.contains(
            rest[i].0,
        ) by {
            assert(rest[i] == list[i]);
        }
        assert(list[list.len() - 1] == last);
        lemma_adopt_pointwise(map, rest, ok, cap, keys, k);
        let mid = adopt_all(map, rest, ok, cap);
        if ok(last.0, last.1) && !mid.contains_key(last.0) {
            lemma_adopt_grows(map, rest, ok, cap);
            assert(mid.dom().subset_of(keys.remove(last.0)));
            vstd::set_lib::lemma_len_subset(mid.dom(), keys.remove(last.0));
        }
        if last.0 == k {
            assert forall|i: int| 0 <= i < rest.len() implies (#[trigger] rest[i]).0 != k by {
                assert(rest[i] == list[i]);
            }
            lemma_listed_absent(rest, k, ok);
        }
    }
}

/// The peers' merge is an adoption, and it leaves the repos alone.
proof fn lemma_merge_peers_adopts(s: MeshView, list: Seq<(Seq<u8>, Record)>, local: Seq<u8>)
    ensures
        super::merge_peers(s, list, local).peers == adopt_all(
            s.peers,
            list,
            takes_peer(local),
            MAX_OTHER_PEERS as nat,
        ),
        super::merge_peers(s, list, local).repos == s.repos,
        super::merge_peers(s, list, local).mesh_repos == s.mesh_repos,
        super::merge_peers(s, list, local).machine.name == s.machine.name,
        s.machine.version < MAX_RECORD_VERSION ==> super::merge_peers(
            s,
            list,
            local,
        ).machine.version < MAX_RECORD_VERSION,
    decreases list.len(),
{
    if list.len() > 0 {
        lemma_merge_peers_adopts(s, list.drop_last(), local);
    }
}

/// The repos' merge is an adoption, and it leaves the machines alone.
proof fn lemma_merge_repos_adopts(s: MeshView, list: Seq<(Seq<char>, Record)>)
    ensures
        super::merge_repos(s, list).mesh_repos == adopt_all(
            s.mesh_repos,
            list,
            takes_repo(),
            MAX_MESH_REPOS as nat,
        ),
        super::merge_repos(s, list).peers == s.peers,
        super::merge_repos(s, list).machine == s.machine,
    decreases list.len(),
{
    if list.len() > 0 {
        lemma_merge_repos_adopts(s, list.drop_last());
    }
}

/// What a merge leaves of a machine's own record.
proof fn lemma_merge_peers_machine(s: MeshView, list: Seq<(Seq<u8>, Record)>, local: Seq<u8>)
    requires
        distinct(list),
    ensures
        super::merge_peers(s, list, local).machine == match listed(
            list,
            local,
            |k: Seq<u8>, r: Record| r.version < MAX_RECORD_VERSION,
        ) {
            Some(copy) => super::machine::observed(s.machine, copy),
            None => s.machine,
        },
    decreases list.len(),
{
    let ok = |k: Seq<u8>, r: Record| r.version < MAX_RECORD_VERSION;
    if list.len() > 0 {
        let rest = list.drop_last();
        lemma_distinct_prefix(list);
        lemma_merge_peers_machine(s, rest, local);
        if list.last().0 == local {
            assert forall|i: int| 0 <= i < rest.len() implies (#[trigger] rest[i]).0 != local by {
                assert(rest[i] == list[i]);
            }
            lemma_listed_absent(rest, local, ok);
        }
    }
}

/// A settled repo list changes nothing at all.
proof fn lemma_settled_repos(s: MeshView, list: Seq<(Seq<char>, Record)>)
    requires
        settled(s.mesh_repos, list, takes_repo(), MAX_MESH_REPOS as nat),
    ensures
        super::merge_repos(s, list) == s,
    decreases list.len(),
{
    if list.len() > 0 {
        let rest = list.drop_last();
        let ok = takes_repo();
        assert forall|i: int| 0 <= i < rest.len() implies !(ok((#[trigger] rest[i]).0, rest[i].1)
            && super::membership::adopts(
            s.mesh_repos,
            rest[i].0,
            rest[i].1,
            MAX_MESH_REPOS as nat,
        )) by {
            assert(rest[i] == list[i]);
        }
        lemma_settled_repos(s, rest);
        assert(list[list.len() - 1] == list.last());
    }
}

/// How a merge changes each part of a state.
proof fn lemma_merged_parts(s: MeshView, remote: MembershipView, local: Seq<u8>)
    ensures
        super::merged(s, remote, local).peers == adopt_all(
            s.peers,
            sorted_map::listing::<EndpointId, Record>(remote.peers),
            takes_peer(local),
            MAX_OTHER_PEERS as nat,
        ),
        super::merged(s, remote, local).mesh_repos == adopt_all(
            s.mesh_repos,
            sorted_map::listing::<String, Record>(remote.repos),
            takes_repo(),
            MAX_MESH_REPOS as nat,
        ),
        super::merged(s, remote, local).machine == super::merge_peers(
            s,
            sorted_map::listing::<EndpointId, Record>(remote.peers),
            local,
        ).machine,
{
    let peers = sorted_map::listing::<EndpointId, Record>(remote.peers);
    let repos = sorted_map::listing::<String, Record>(remote.repos);
    lemma_merge_peers_adopts(s, peers, local);
    lemma_merge_repos_adopts(super::merge_peers(s, peers, local), repos);
}

/// Merging the same membership again changes nothing, which is what stops the
/// gossip from echoing forever.
pub proof fn merging_twice_is_merging_once(s: MeshView, remote: MembershipView, local: Seq<u8>)
    requires
        real_state(s),
        real_membership(remote),
    ensures
        super::merged(super::merged(s, remote, local), remote, local) == super::merged(
            s,
            remote,
            local,
        ),
{
    let peers = sorted_map::listing::<EndpointId, Record>(remote.peers);
    let repos = sorted_map::listing::<String, Record>(remote.repos);
    lemma_listing_distinct::<EndpointId>(remote.peers);
    lemma_listing_distinct::<String>(remote.repos);
    let t = super::merged(s, remote, local);
    lemma_merged_parts(s, remote, local);
    lemma_merge_peers_adopts(s, peers, local);
    lemma_adopt_settles(s.peers, peers, takes_peer(local), MAX_OTHER_PEERS as nat);
    lemma_adopt_settles(s.mesh_repos, repos, takes_repo(), MAX_MESH_REPOS as nat);
    let u = super::merge_peers(t, peers, local);
    lemma_merge_peers_adopts(t, peers, local);
    lemma_settled_is_noop(t.peers, peers, takes_peer(local), MAX_OTHER_PEERS as nat);
    lemma_merge_peers_machine(s, peers, local);
    lemma_merge_peers_machine(t, peers, local);
    assert(u.machine == t.machine);
    assert(u =~= t);
    lemma_settled_repos(u, repos);
}

/// A machine's own gossip, echoed back, changes nothing.
pub proof fn own_gossip_changes_nothing(s: MeshView, local: Seq<u8>)
    requires
        real_state(s),
        s.machine.version < MAX_RECORD_VERSION,
        !s.peers.contains_key(local),
    ensures
        super::merged(s, super::membership_of(s, local), local) == s,
{
    let remote = super::membership_of(s, local);
    let peers = sorted_map::listing::<EndpointId, Record>(remote.peers);
    let repos = sorted_map::listing::<String, Record>(remote.repos);
    let ok = |k: Seq<u8>, r: Record| r.version < MAX_RECORD_VERSION;
    lemma_listing_distinct::<EndpointId>(remote.peers);
    lemma_listing_distinct::<String>(remote.repos);
    let take = takes_peer(local);
    assert forall|i: int| 0 <= i < peers.len() implies !(take((#[trigger] peers[i]).0, peers[i].1)
        && super::membership::adopts(
        s.peers,
        peers[i].0,
        peers[i].1,
        MAX_OTHER_PEERS as nat,
    )) by {
        assert(remote.peers.contains_key(peers[i].0));
        super::membership::outranks_is_strict(peers[i].1, peers[i].1, peers[i].1);
    }
    assert forall|i: int| 0 <= i < repos.len() implies !super::membership::adopts(
        s.mesh_repos,
        (#[trigger] repos[i]).0,
        repos[i].1,
        MAX_MESH_REPOS as nat,
    ) by {
        super::membership::outranks_is_strict(repos[i].1, repos[i].1, repos[i].1);
    }
    lemma_merge_peers_adopts(s, peers, local);
    lemma_settled_is_noop(s.peers, peers, take, MAX_OTHER_PEERS as nat);
    lemma_merge_peers_machine(s, peers, local);
    lemma_listed_is_offered::<EndpointId>(remote.peers, local, ok);
    assert(super::merge_peers(s, peers, local) =~= s);
    lemma_settled_repos(s, repos);
}

/// A merge never grows the state past its caps, so what a machine gossips
/// always fits the wire.
pub proof fn merging_respects_the_caps(s: MeshView, remote: MembershipView, local: Seq<u8>)
    requires
        real_state(s),
        s.peers.len() <= MAX_OTHER_PEERS,
        s.mesh_repos.len() <= MAX_MESH_REPOS,
    ensures
        super::merged(s, remote, local).peers.len() <= MAX_OTHER_PEERS,
        super::merged(s, remote, local).mesh_repos.len() <= MAX_MESH_REPOS,
        super::membership_of(super::merged(s, remote, local), local).peers.len()
            <= MAX_MESH_PEERS,
{
    lemma_merged_parts(s, remote, local);
    lemma_adopt_grows(
        s.peers,
        sorted_map::listing::<EndpointId, Record>(remote.peers),
        takes_peer(local),
        MAX_OTHER_PEERS as nat,
    );
    lemma_adopt_grows(
        s.mesh_repos,
        sorted_map::listing::<String, Record>(remote.repos),
        takes_repo(),
        MAX_MESH_REPOS as nat,
    );
}

/// A merge never trades a record for a lesser one, nor drops one.
pub proof fn merging_never_downgrades(s: MeshView, remote: MembershipView, local: Seq<u8>)
    requires
        real_state(s),
    ensures
        forall|k: Seq<u8>| #[trigger]
            s.peers.contains_key(k) ==> {
                let after = super::merged(s, remote, local).peers;
                &&& after.contains_key(k)
                &&& after[k] == s.peers[k] || super::membership::outranks(after[k], s.peers[k])
            },
        forall|k: Seq<char>| #[trigger]
            s.mesh_repos.contains_key(k) ==> {
                let after = super::merged(s, remote, local).mesh_repos;
                &&& after.contains_key(k)
                &&& after[k] == s.mesh_repos[k] || super::membership::outranks(
                    after[k],
                    s.mesh_repos[k],
                )
            },
{
    lemma_merged_parts(s, remote, local);
    lemma_adopt_grows(
        s.peers,
        sorted_map::listing::<EndpointId, Record>(remote.peers),
        takes_peer(local),
        MAX_OTHER_PEERS as nat,
    );
    lemma_adopt_grows(
        s.mesh_repos,
        sorted_map::listing::<String, Record>(remote.repos),
        takes_repo(),
        MAX_MESH_REPOS as nat,
    );
}

/// A tombstone stands against every record of its version or an older one: a
/// machine that missed a removal cannot undo it.
pub proof fn tombstones_stand(s: MeshView, remote: MembershipView, local: Seq<u8>)
    requires
        real_state(s),
    ensures
        forall|k: Seq<u8>|
            #![trigger s.peers.contains_key(k)]
            s.peers.contains_key(k) && s.peers[k].payload is None ==> {
                let after = super::merged(s, remote, local).peers[k];
                after.payload is None || after.version > s.peers[k].version
            },
        forall|k: Seq<char>|
            #![trigger s.mesh_repos.contains_key(k)]
            s.mesh_repos.contains_key(k) && s.mesh_repos[k].payload is None ==> {
                let after = super::merged(s, remote, local).mesh_repos[k];
                after.payload is None || after.version > s.mesh_repos[k].version
            },
{
    merging_never_downgrades(s, remote, local);
}

/// Records about ourselves never land among the peers, and our name is ours to
/// change: a merge keeps it, at a version that can still be gossiped.
pub proof fn merging_keeps_our_identity(s: MeshView, remote: MembershipView, local: Seq<u8>)
    requires
        !s.peers.contains_key(local),
    ensures
        !super::merged(s, remote, local).peers.contains_key(local),
        super::merged(s, remote, local).machine.name == s.machine.name,
        s.machine.version < MAX_RECORD_VERSION ==> super::merged(s, remote, local).machine.version
            < MAX_RECORD_VERSION,
{
    let peers = sorted_map::listing::<EndpointId, Record>(remote.peers);
    lemma_merged_parts(s, remote, local);
    lemma_merge_peers_adopts(s, peers, local);
    if super::merged(s, remote, local).peers.contains_key(local) {
        lemma_adopt_origin(s.peers, peers, takes_peer(local), MAX_OTHER_PEERS as nat, local);
    }
}

/// Nothing a merge adopts is frozen: every record stays below the version
/// ceiling and under a usable name where those already held are.
pub proof fn merging_keeps_records_changeable(
    s: MeshView,
    remote: MembershipView,
    local: Seq<u8>,
)
    requires
        forall|k: Seq<u8>| #[trigger]
            s.peers.contains_key(k) ==> super::holdable_peer(s.peers[k]),
        forall|k: Seq<char>| #[trigger]
            s.mesh_repos.contains_key(k) ==> super::holdable_repo(k, s.mesh_repos[k]),
    ensures
        forall|k: Seq<u8>| #[trigger]
            super::merged(s, remote, local).peers.contains_key(k) ==> super::holdable_peer(
                super::merged(s, remote, local).peers[k],
            ),
        forall|k: Seq<char>| #[trigger]
            super::merged(s, remote, local).mesh_repos.contains_key(k) ==> super::holdable_repo(
                k,
                super::merged(s, remote, local).mesh_repos[k],
            ),
{
    let peers = sorted_map::listing::<EndpointId, Record>(remote.peers);
    let repos = sorted_map::listing::<String, Record>(remote.repos);
    lemma_merged_parts(s, remote, local);
    let after = super::merged(s, remote, local);
    assert forall|k: Seq<u8>| #[trigger] after.peers.contains_key(k) implies super::holdable_peer(
        after.peers[k],
    ) by {
        lemma_adopt_origin(s.peers, peers, takes_peer(local), MAX_OTHER_PEERS as nat, k);
    }
    assert forall|k: Seq<char>| #[trigger]
        after.mesh_repos.contains_key(k) implies super::holdable_repo(k, after.mesh_repos[k]) by {
        lemma_adopt_origin(s.mesh_repos, repos, takes_repo(), MAX_MESH_REPOS as nat, k);
    }
}

proof fn lemma_merge_repos_registered(
    s: MeshView,
    list: Seq<(Seq<char>, Record)>,
    name: Seq<char>,
)
    requires
        distinct(list),
        s.mesh_repos.dom().finite(),
    ensures
        s.repos.contains_key(name) ==> (super::merge_repos(s, list).repos.contains_key(name) <==> !(
        super::mesh_id(super::merge_repos(s, list).mesh_repos, name) is None
            && super::merge_repos(s, list).mesh_repos.get(name) != s.mesh_repos.get(name))),
        (forall|i: int| 0 <= i < list.len() ==> (#[trigger] list[i]).0 != name) ==> {
            &&& super::merge_repos(s, list).mesh_repos.get(name) == s.mesh_repos.get(name)
            &&& super::merge_repos(s, list).repos.get(name) == s.repos.get(name)
        },
    decreases list.len(),
{
    if list.len() > 0 {
        let rest = list.drop_last();
        let last = list.last();
        lemma_distinct_prefix(list);
        lemma_merge_repos_registered(s, rest, name);
        assert(list[list.len() - 1] == last);
        if forall|i: int| 0 <= i < list.len() ==> (#[trigger] list[i]).0 != name {
            assert forall|i: int| 0 <= i < rest.len() implies (#[trigger] rest[i]).0 != name by {
                assert(rest[i] == list[i]);
            }
        }
        if last.0 == name {
            assert forall|i: int| 0 <= i < rest.len() implies (#[trigger] rest[i]).0 != name by {
                assert(rest[i] == list[i]);
            }
            super::membership::outranks_is_strict(last.1, last.1, last.1);
        }
    }
}

/// A merge unregisters exactly the repos whose name it retires: a removal
/// reaches the machines that hold the repo, and nothing else stops a repo from
/// being synced.
pub proof fn merging_unregisters_what_it_retires(
    s: MeshView,
    remote: MembershipView,
    local: Seq<u8>,
    name: Seq<char>,
)
    requires
        real_state(s),
        real_membership(remote),
        s.repos.contains_key(name),
    ensures
        ({
            let after = super::merged(s, remote, local);
            &&& after.repos.contains_key(name) <==> !(super::mesh_id(after.mesh_repos, name) is None
                && after.mesh_repos.get(name) != s.mesh_repos.get(name))
            &&& after.repos.contains_key(name) ==> after.repos[name] == s.repos[name]
        }),
{
    let peers = sorted_map::listing::<EndpointId, Record>(remote.peers);
    let repos = sorted_map::listing::<String, Record>(remote.repos);
    lemma_merge_peers_adopts(s, peers, local);
    lemma_listing_distinct::<String>(remote.repos);
    lemma_merge_repos_registered(super::merge_peers(s, peers, local), repos, name);
    lemma_merge_repos_shrinks(super::merge_peers(s, peers, local), repos);
}

/// Gossip alone never registers a repo, nor moves one.
pub proof fn merging_registers_and_moves_nothing(
    s: MeshView,
    remote: MembershipView,
    local: Seq<u8>,
    name: Seq<char>,
)
    ensures
        super::merged(s, remote, local).repos.contains_key(name) ==> s.repos.contains_key(name)
            && super::merged(s, remote, local).repos[name] == s.repos[name],
{
    let peers = sorted_map::listing::<EndpointId, Record>(remote.peers);
    let repos = sorted_map::listing::<String, Record>(remote.repos);
    lemma_merge_peers_adopts(s, peers, local);
    lemma_merge_repos_shrinks(super::merge_peers(s, peers, local), repos);
}

/// A merge brings in nothing but what was offered: every record was held before,
/// or is the one the membership has under its key, and fit to be held. No
/// record is our own.
pub proof fn merging_brings_in_only_what_was_offered(
    s: MeshView,
    remote: MembershipView,
    local: Seq<u8>,
)
    requires
        real_membership(remote),
    ensures
        forall|k: Seq<u8>| #[trigger]
            super::merged(s, remote, local).peers.contains_key(k) ==> {
                let record = super::merged(s, remote, local).peers[k];
                ||| s.peers.contains_key(k) && record == s.peers[k]
                ||| Some(record) == offered(remote.peers, k, takes_peer(local))
            },
        forall|k: Seq<char>| #[trigger]
            super::merged(s, remote, local).mesh_repos.contains_key(k) ==> {
                let record = super::merged(s, remote, local).mesh_repos[k];
                ||| s.mesh_repos.contains_key(k) && record == s.mesh_repos[k]
                ||| Some(record) == offered(remote.repos, k, takes_repo())
            },
{
    let peers = sorted_map::listing::<EndpointId, Record>(remote.peers);
    let repos = sorted_map::listing::<String, Record>(remote.repos);
    let after = super::merged(s, remote, local);
    lemma_merged_parts(s, remote, local);
    lemma_listing_distinct::<EndpointId>(remote.peers);
    lemma_listing_distinct::<String>(remote.repos);
    assert forall|k: Seq<u8>| #[trigger] after.peers.contains_key(k) implies {
        ||| s.peers.contains_key(k) && after.peers[k] == s.peers[k]
        ||| Some(after.peers[k]) == offered(remote.peers, k, takes_peer(local))
    } by {
        lemma_adopt_origin(s.peers, peers, takes_peer(local), MAX_OTHER_PEERS as nat, k);
        if peers.contains((k, after.peers[k])) {
            let i = choose|i: int| 0 <= i < peers.len() && peers[i] == (k, after.peers[k]);
            assert(remote.peers.contains_key(peers[i].0));
        }
    }
    assert forall|k: Seq<char>| #[trigger] after.mesh_repos.contains_key(k) implies {
        ||| s.mesh_repos.contains_key(k) && after.mesh_repos[k] == s.mesh_repos[k]
        ||| Some(after.mesh_repos[k]) == offered(remote.repos, k, takes_repo())
    } by {
        lemma_adopt_origin(s.mesh_repos, repos, takes_repo(), MAX_MESH_REPOS as nat, k);
        if repos.contains((k, after.mesh_repos[k])) {
            let i = choose|i: int| 0 <= i < repos.len() && repos[i] == (k, after.mesh_repos[k]);
            assert(remote.repos.contains_key(repos[i].0));
        }
    }
}

/// Whether a membership still fits a machine's state without reaching a cap. The
/// machine's own record takes no room there.
pub open spec fn fits(s: MeshView, remote: MembershipView, local: Seq<u8>) -> bool {
    &&& s.peers.dom().union(remote.peers.dom().remove(local)).len() <= MAX_OTHER_PEERS
    &&& s.mesh_repos.dom().union(remote.repos.dom()).len() <= MAX_MESH_REPOS
}

/// A key that is held ends up with the better of its record and the offered
/// one, whatever the size of the map.
proof fn lemma_adopt_held<A>(
    map: Map<A, Record>,
    list: Seq<(A, Record)>,
    ok: spec_fn(A, Record) -> bool,
    cap: nat,
    k: A,
)
    requires
        distinct(list),
        map.contains_key(k),
    ensures
        adopt_all(map, list, ok, cap).get(k) == better(map.get(k), listed(list, k, ok)),
    decreases list.len(),
{
    if list.len() > 0 {
        let rest = list.drop_last();
        lemma_distinct_prefix(list);
        lemma_adopt_held(map, rest, ok, cap, k);
        if list.last().0 == k {
            assert forall|i: int| 0 <= i < rest.len() implies (#[trigger] rest[i]).0 != k by {
                assert(rest[i] == list[i]);
            }
            lemma_listed_absent(rest, k, ok);
        }
    }
}

/// Updates to known records keep flowing at the caps: under a key that is held,
/// a merge leaves the better of what was held and what was offered, whatever the
/// size of the state.
pub proof fn known_records_keep_updating(s: MeshView, remote: MembershipView, local: Seq<u8>)
    requires
        real_state(s),
        real_membership(remote),
    ensures
        forall|k: Seq<u8>| #[trigger]
            s.peers.contains_key(k) ==> super::merged(s, remote, local).peers.get(k) == better(
                s.peers.get(k),
                offered(remote.peers, k, takes_peer(local)),
            ),
        forall|k: Seq<char>| #[trigger]
            s.mesh_repos.contains_key(k) ==> super::merged(s, remote, local).mesh_repos.get(k)
                == better(s.mesh_repos.get(k), offered(remote.repos, k, takes_repo())),
{
    let peers = sorted_map::listing::<EndpointId, Record>(remote.peers);
    let repos = sorted_map::listing::<String, Record>(remote.repos);
    lemma_merged_parts(s, remote, local);
    lemma_listing_distinct::<EndpointId>(remote.peers);
    lemma_listing_distinct::<String>(remote.repos);
    assert forall|k: Seq<u8>| #[trigger] s.peers.contains_key(k) implies super::merged(
        s,
        remote,
        local,
    ).peers.get(k) == better(s.peers.get(k), offered(remote.peers, k, takes_peer(local))) by {
        lemma_adopt_held(s.peers, peers, takes_peer(local), MAX_OTHER_PEERS as nat, k);
        lemma_listed_is_offered::<EndpointId>(remote.peers, k, takes_peer(local));
    }
    assert forall|k: Seq<char>| #[trigger] s.mesh_repos.contains_key(k) implies super::merged(
        s,
        remote,
        local,
    ).mesh_repos.get(k) == better(
        s.mesh_repos.get(k),
        offered(remote.repos, k, takes_repo()),
    ) by {
        lemma_adopt_held(s.mesh_repos, repos, takes_repo(), MAX_MESH_REPOS as nat, k);
        lemma_listed_is_offered::<String>(remote.repos, k, takes_repo());
    }
}

/// While everything fits the caps, a merge leaves every key with the better of
/// what was held and what was offered, whatever the order of arrival.
pub proof fn merging_keeps_the_better_record(
    s: MeshView,
    remote: MembershipView,
    local: Seq<u8>,
)
    requires
        real_state(s),
        real_membership(remote),
        fits(s, remote, local),
    ensures
        forall|k: Seq<u8>| #[trigger]
            super::merged(s, remote, local).peers.get(k) == better(
                s.peers.get(k),
                offered(remote.peers, k, takes_peer(local)),
            ),
        forall|k: Seq<char>| #[trigger]
            super::merged(s, remote, local).mesh_repos.get(k) == better(
                s.mesh_repos.get(k),
                offered(remote.repos, k, takes_repo()),
            ),
{
    let peers = sorted_map::listing::<EndpointId, Record>(remote.peers);
    let repos = sorted_map::listing::<String, Record>(remote.repos);
    lemma_merged_parts(s, remote, local);
    lemma_listing_distinct::<EndpointId>(remote.peers);
    lemma_listing_distinct::<String>(remote.repos);
    let peer_keys = s.peers.dom().union(remote.peers.dom().remove(local));
    let repo_keys = s.mesh_repos.dom().union(remote.repos.dom());
    assert forall|i: int|
        0 <= i < peers.len() && takes_peer(local)(
            (#[trigger] peers[i]).0,
            peers[i].1,
        ) implies peer_keys.contains(peers[i].0) by {
        assert(remote.peers.contains_key(peers[i].0));
    }
    assert forall|i: int| 0 <= i < repos.len() implies repo_keys.contains(
        (#[trigger] repos[i]).0,
    ) by {
        assert(remote.repos.contains_key(repos[i].0));
    }
    assert forall|k: Seq<u8>| #[trigger]
        super::merged(s, remote, local).peers.get(k) == better(
            s.peers.get(k),
            offered(remote.peers, k, takes_peer(local)),
        ) by {
        lemma_adopt_pointwise(
            s.peers,
            peers,
            takes_peer(local),
            MAX_OTHER_PEERS as nat,
            peer_keys,
            k,
        );
        lemma_listed_is_offered::<EndpointId>(remote.peers, k, takes_peer(local));
    }
    assert forall|k: Seq<char>| #[trigger]
        super::merged(s, remote, local).mesh_repos.get(k) == better(
            s.mesh_repos.get(k),
            offered(remote.repos, k, takes_repo()),
        ) by {
        lemma_adopt_pointwise(
            s.mesh_repos,
            repos,
            takes_repo(),
            MAX_MESH_REPOS as nat,
            repo_keys,
            k,
        );
        lemma_listed_is_offered::<String>(remote.repos, k, takes_repo());
    }
}

/// Taking the better record does not depend on which comes first.
pub proof fn better_is_symmetric(a: Option<Record>, b: Option<Record>)
    ensures
        better(a, b) == better(b, a),
{
    if a is Some && b is Some {
        super::membership::outranks_is_strict(a->Some_0, b->Some_0, a->Some_0);
        super::membership::outranks_is_total(a->Some_0, b->Some_0);
    }
}

/// Taking the better record does not depend on the grouping.
pub proof fn better_is_associative(a: Option<Record>, b: Option<Record>, c: Option<Record>)
    ensures
        better(better(a, b), c) == better(a, better(b, c)),
{
    if a is Some && b is Some && c is Some {
        let (x, y, z) = (a->Some_0, b->Some_0, c->Some_0);
        super::membership::outranks_is_strict(x, y, z);
        super::membership::outranks_is_strict(z, y, x);
        super::membership::outranks_is_strict(y, x, z);
        super::membership::outranks_is_strict(z, x, y);
        super::membership::outranks_is_strict(x, z, y);
        super::membership::outranks_is_strict(y, z, x);
        super::membership::outranks_is_total(x, y);
        super::membership::outranks_is_total(y, z);
        super::membership::outranks_is_total(x, z);
    }
}

/// Whether a state holds only what it could itself be gossiped.
pub open spec fn gossipable(s: MeshView) -> bool {
    &&& s.machine.version < MAX_RECORD_VERSION
    &&& forall|k: Seq<u8>| #[trigger] s.peers.contains_key(k) ==> super::holdable_peer(s.peers[k])
    &&& forall|k: Seq<char>| #[trigger]
        s.mesh_repos.contains_key(k) ==> super::holdable_repo(k, s.mesh_repos[k])
}

/// Two machines that exchange their memberships agree on the repo list and on
/// every third machine, whatever each held before.
pub proof fn exchanging_memberships_converges(
    a: MeshView,
    b: MeshView,
    at: Seq<u8>,
    bt: Seq<u8>,
)
    requires
        real_state(a),
        real_state(b),
        gossipable(a),
        gossipable(b),
        fits(a, super::membership_of(b, bt), at),
        fits(b, super::membership_of(a, at), bt),
    ensures
        ({
            let a2 = super::merged(a, super::membership_of(b, bt), at);
            let b2 = super::merged(b, super::membership_of(a, at), bt);
            &&& a2.mesh_repos == b2.mesh_repos
            &&& forall|k: Seq<u8>|
                k != at && k != bt ==> #[trigger] a2.peers.get(k) == b2.peers.get(k)
        }),
{
    let ma = super::membership_of(a, at);
    let mb = super::membership_of(b, bt);
    let a2 = super::merged(a, mb, at);
    let b2 = super::merged(b, ma, bt);
    merging_keeps_the_better_record(a, mb, at);
    merging_keeps_the_better_record(b, ma, bt);
    assert forall|k: Seq<char>| #[trigger] a2.mesh_repos.get(k) == b2.mesh_repos.get(k) by {
        better_is_symmetric(a.mesh_repos.get(k), b.mesh_repos.get(k));
        assert(offered(mb.repos, k, takes_repo()) == b.mesh_repos.get(k));
        assert(offered(ma.repos, k, takes_repo()) == a.mesh_repos.get(k));
        assert(b2.mesh_repos.get(k) == better(b.mesh_repos.get(k), a.mesh_repos.get(k)));
    }
    assert forall|k: Seq<char>| #![auto] a2.mesh_repos.contains_key(k) <==> b2.mesh_repos.contains_key(
        k,
    ) by {
        assert(a2.mesh_repos.get(k) == b2.mesh_repos.get(k));
    }
    assert forall|k: Seq<char>| #![auto]
        a2.mesh_repos.contains_key(k) implies a2.mesh_repos[k] == b2.mesh_repos[k] by {
        assert(a2.mesh_repos.get(k) == b2.mesh_repos.get(k));
    }
    assert(a2.mesh_repos =~= b2.mesh_repos);
    assert forall|k: Seq<u8>| k != at && k != bt implies #[trigger] a2.peers.get(k) == b2.peers.get(
        k,
    ) by {
        better_is_symmetric(a.peers.get(k), b.peers.get(k));
        assert(offered(mb.peers, k, takes_peer(at)) == b.peers.get(k));
        assert(offered(ma.peers, k, takes_peer(bt)) == a.peers.get(k));
        assert(b2.peers.get(k) == better(b.peers.get(k), a.peers.get(k)));
    }
}

/// While everything fits the caps, two memberships leave the same records
/// whichever arrives first.
pub proof fn merge_order_does_not_matter(
    s: MeshView,
    first: MembershipView,
    second: MembershipView,
    local: Seq<u8>,
)
    requires
        real_state(s),
        real_membership(first),
        real_membership(second),
        s.peers.dom().union(first.peers.dom().remove(local)).union(
            second.peers.dom().remove(local),
        ).len() <= MAX_OTHER_PEERS,
        s.mesh_repos.dom().union(first.repos.dom()).union(second.repos.dom()).len()
            <= MAX_MESH_REPOS,
    ensures
        ({
            let one = super::merged(super::merged(s, first, local), second, local);
            let other = super::merged(super::merged(s, second, local), first, local);
            one.peers == other.peers && one.mesh_repos == other.mesh_repos
        }),
{
    let u = super::merged(s, first, local);
    let v = super::merged(s, second, local);
    let one = super::merged(u, second, local);
    let other = super::merged(v, first, local);
    let first_peers = first.peers.dom().remove(local);
    let second_peers = second.peers.dom().remove(local);
    let peers = s.peers.dom().union(first_peers).union(second_peers);
    let repos = s.mesh_repos.dom().union(first.repos.dom()).union(second.repos.dom());
    vstd::set_lib::lemma_len_subset(s.peers.dom().union(first_peers), peers);
    vstd::set_lib::lemma_len_subset(s.peers.dom().union(second_peers), peers);
    vstd::set_lib::lemma_len_subset(s.mesh_repos.dom().union(first.repos.dom()), repos);
    vstd::set_lib::lemma_len_subset(s.mesh_repos.dom().union(second.repos.dom()), repos);
    merging_keeps_the_better_record(s, first, local);
    merging_keeps_the_better_record(s, second, local);
    lemma_merge_stays_within(s, first, local);
    lemma_merge_stays_within(s, second, local);
    vstd::set_lib::lemma_len_subset(u.peers.dom().union(second_peers), peers);
    vstd::set_lib::lemma_len_subset(v.peers.dom().union(first_peers), peers);
    vstd::set_lib::lemma_len_subset(u.mesh_repos.dom().union(second.repos.dom()), repos);
    vstd::set_lib::lemma_len_subset(v.mesh_repos.dom().union(first.repos.dom()), repos);
    merging_keeps_the_better_record(u, second, local);
    merging_keeps_the_better_record(v, first, local);
    assert forall|k: Seq<u8>| #[trigger] one.peers.get(k) == other.peers.get(k) by {
        let (x, y, z) = (
            s.peers.get(k),
            offered(first.peers, k, takes_peer(local)),
            offered(second.peers, k, takes_peer(local)),
        );
        better_is_associative(x, y, z);
        better_is_associative(x, z, y);
        better_is_symmetric(y, z);
        assert(u.peers.get(k) == better(x, y));
        assert(v.peers.get(k) == better(x, z));
        assert(other.peers.get(k) == better(better(x, z), y));
    }
    assert forall|k: Seq<char>| #[trigger] one.mesh_repos.get(k) == other.mesh_repos.get(k) by {
        let (x, y, z) = (
            s.mesh_repos.get(k),
            offered(first.repos, k, takes_repo()),
            offered(second.repos, k, takes_repo()),
        );
        better_is_associative(x, y, z);
        better_is_associative(x, z, y);
        better_is_symmetric(y, z);
        assert(u.mesh_repos.get(k) == better(x, y));
        assert(v.mesh_repos.get(k) == better(x, z));
        assert(other.mesh_repos.get(k) == better(better(x, z), y));
    }
    lemma_get_ext(one.peers, other.peers);
    lemma_get_ext(one.mesh_repos, other.mesh_repos);
}

proof fn lemma_get_ext<A>(a: Map<A, Record>, b: Map<A, Record>)
    requires
        forall|k: A| #[trigger] a.get(k) == b.get(k),
    ensures
        a == b,
{
    assert forall|k: A| a.contains_key(k) <==> b.contains_key(k) by {
        assert(a.get(k) == b.get(k));
    }
    assert forall|k: A| a.contains_key(k) implies #[trigger] a[k] == b[k] by {
        assert(a.get(k) == b.get(k));
    }
    assert(a =~= b);
}

/// What a merge holds afterwards was held before or came with it.
proof fn lemma_merge_stays_within(s: MeshView, remote: MembershipView, local: Seq<u8>)
    requires
        real_state(s),
        real_membership(remote),
    ensures
        real_state(super::merged(s, remote, local)),
        super::merged(s, remote, local).peers.dom().subset_of(
            s.peers.dom().union(remote.peers.dom().remove(local)),
        ),
        super::merged(s, remote, local).mesh_repos.dom().subset_of(
            s.mesh_repos.dom().union(remote.repos.dom()),
        ),
{
    let after = super::merged(s, remote, local);
    merging_brings_in_only_what_was_offered(s, remote, local);
    assert forall|k: Seq<u8>| #[trigger] after.peers.dom().contains(k) implies s.peers.dom().union(
        remote.peers.dom().remove(local),
    ).contains(k) by {
        assert(after.peers.contains_key(k));
    }
    assert forall|k: Seq<char>| #[trigger]
        after.mesh_repos.dom().contains(k) implies s.mesh_repos.dom().union(
        remote.repos.dom(),
    ).contains(k) by {
        assert(after.mesh_repos.contains_key(k));
    }
    vstd::set_lib::lemma_set_subset_finite(
        s.peers.dom().union(remote.peers.dom().remove(local)),
        after.peers.dom(),
    );
    vstd::set_lib::lemma_set_subset_finite(
        s.mesh_repos.dom().union(remote.repos.dom()),
        after.mesh_repos.dom(),
    );
    lemma_merge_repos_shrinks(
        super::merge_peers(s, sorted_map::listing::<EndpointId, Record>(remote.peers), local),
        sorted_map::listing::<String, Record>(remote.repos),
    );
    lemma_merge_peers_adopts(s, sorted_map::listing::<EndpointId, Record>(remote.peers), local);
    vstd::set_lib::lemma_set_subset_finite(s.repos.dom(), after.repos.dom());
}

/// Merging repo records only ever takes registered repos away.
proof fn lemma_merge_repos_shrinks(s: MeshView, list: Seq<(Seq<char>, Record)>)
    ensures
        super::merge_repos(s, list).repos.dom().subset_of(s.repos.dom()),
        forall|name: Seq<char>| #[trigger]
            super::merge_repos(s, list).repos.contains_key(name) ==> s.repos.contains_key(name)
                && super::merge_repos(s, list).repos[name] == s.repos[name],
    decreases list.len(),
{
    if list.len() > 0 {
        lemma_merge_repos_shrinks(s, list.drop_last());
    }
}

/// Every local change to a record outranks the state every machine may hold of
/// it: removing supersedes a pairing, and pairing again supersedes the
/// tombstone.
pub proof fn local_changes_outrank<A>(map: Map<A, Record>, key: A, payload: Option<Seq<char>>)
    requires
        map.contains_key(key),
    ensures
        super::membership::outranks(super::rewritten(map, key, payload)[key], map[key]),
{
}

/// A retired name can be used again, with any id.
pub proof fn retired_names_are_free(s: MeshView, name: Seq<char>, id: Seq<char>)
    requires
        super::mesh_id(s.mesh_repos, name) is None,
    ensures
        !super::forks(s, name, id),
{
}

/// A repo the mesh knows is only registered with its mesh id: with a fresh one
/// it is refused, so a name never forks.
pub proof fn known_names_need_their_id(s: MeshView, name: Seq<char>, repo: RepoView)
    requires
        super::mesh_id(s.mesh_repos, name) is Some,
        super::mesh_id(s.mesh_repos, name) != Some(repo.id),
    ensures
        super::add_repo_fault(s, name, repo) is Some,
        super::new_repo_fault(s, name, repo.path) is None ==> super::add_repo_fault(s, name, repo)
            == Some(Fault::ForksName { name }),
{
}

/// A peer whose endpoint id reads back is found by it, as long as no alive peer
/// goes by that text.
pub proof fn endpoint_ids_select_their_peer(s: MeshView, endpoint: Seq<u8>)
    requires
        super::paired_as(s.peers, endpoint) is Some,
        crate::net::endpoint::endpoint_of(crate::net::endpoint::hex_lower(endpoint)) == Some(
            endpoint,
        ),
        super::carriers(
            super::alive_listing(s.peers),
            crate::net::endpoint::hex_lower(endpoint),
        ).len() == 0,
    ensures
        super::resolved(s, crate::net::endpoint::hex_lower(endpoint)) == Ok::<Seq<u8>, Fault>(
            endpoint,
        ),
{
}

/// Pairing keeps the state within what can be gossiped.
pub proof fn pairing_respects_the_cap(s: MeshView, endpoint: Seq<u8>, name: Seq<char>)
    requires
        real_state(s),
        s.peers.len() <= MAX_OTHER_PEERS,
        super::add_peer_fault(s, endpoint, name) is None,
    ensures
        super::rewritten(s.peers, endpoint, Some(name)).len() <= MAX_OTHER_PEERS,
{
}

/// Adding a repo keeps the mesh list within its cap.
pub proof fn adding_respects_the_cap(s: MeshView, name: Seq<char>, repo: RepoView)
    requires
        real_state(s),
        s.mesh_repos.len() <= MAX_MESH_REPOS,
        super::add_repo_fault(s, name, repo) is None,
    ensures
        super::rewritten(s.mesh_repos, name, Some(repo.id)).len() <= MAX_MESH_REPOS,
{
}

/// Whether no two registered repos share an id or a path.
pub open spec fn distinct_repos(repos: Map<Seq<char>, RepoView>) -> bool {
    forall|a: Seq<char>, b: Seq<char>|
        #[trigger] repos.contains_key(a) && #[trigger] repos.contains_key(b) && a != b
            ==> repos[a].id != repos[b].id && !crate::config::path::same_path(
            repos[a].path,
            repos[b].path,
        )
}

proof fn lemma_none_found(list: Seq<(Seq<char>, RepoView)>, id: Seq<char>, path: Seq<u8>)
    ensures
        super::first_with_id(list, id) is None ==> forall|i: int|
            0 <= i < list.len() ==> (#[trigger] list[i]).1.id != id,
        super::first_at_path(list, path) is None ==> forall|i: int|
            0 <= i < list.len() ==> !crate::config::path::same_path(
                (#[trigger] list[i]).1.path,
                path,
            ),
    decreases list.len(),
{
    if list.len() > 0 {
        let rest = list.drop_last();
        lemma_none_found(rest, id, path);
        assert(forall|i: int| 0 <= i < rest.len() ==> list[i] == #[trigger] rest[i]);
        assert forall|i: int|
            0 <= i < list.len() && super::first_with_id(list, id) is None implies (
        #[trigger] list[i]).1.id != id by {
            if i < rest.len() {
                assert(rest[i].1.id != id);
            }
        }
        assert forall|i: int|
            0 <= i < list.len() && super::first_at_path(list, path) is None implies
        !crate::config::path::same_path((#[trigger] list[i]).1.path, path) by {
            if i < rest.len() {
                assert(!crate::config::path::same_path(rest[i].1.path, path));
            }
        }
    }
}

/// Adding a repo keeps ids and paths of the registered ones distinct.
pub proof fn adding_keeps_repos_distinct(s: MeshView, name: Seq<char>, repo: RepoView)
    requires
        s.repos.dom().finite(),
        distinct_repos(s.repos),
        super::add_repo_fault(s, name, repo) is None,
    ensures
        distinct_repos(s.repos.insert(name, repo)),
{
    let list = sorted_map::listing::<String, RepoView>(s.repos);
    sorted_map::lemma_listing_exists::<String, RepoView>(s.repos);
    lemma_none_found(list, repo.id, repo.path);
    assert forall|other: Seq<char>| #[trigger] s.repos.contains_key(other) implies s.repos[other].id
        != repo.id && !crate::config::path::same_path(s.repos[other].path, repo.path) by {
        let i = choose|i: int| 0 <= i < list.len() && (#[trigger] list[i]).0 == other;
        assert(list[i].1 == s.repos[other]);
    }
}

/// Two spellings of one directory register once: whatever the name and the id, a
/// repo is refused at a path that one is registered at.
pub proof fn paths_register_once(
    s: MeshView,
    held: Seq<char>,
    name: Seq<char>,
    repo: RepoView,
)
    requires
        s.repos.dom().finite(),
        s.repos.contains_key(held),
        crate::config::path::same_path(s.repos[held].path, repo.path),
    ensures
        super::new_repo_fault(s, name, repo.path) is Some,
        super::add_repo_fault(s, name, repo) is Some,
{
    let list = sorted_map::listing::<String, RepoView>(s.repos);
    sorted_map::lemma_listing_exists::<String, RepoView>(s.repos);
    lemma_none_found(list, repo.id, repo.path);
    let i = choose|i: int| 0 <= i < list.len() && (#[trigger] list[i]).0 == held;
    assert(list[i].1 == s.repos[held]);
}

/// Merging keeps ids and paths of the registered repos distinct.
pub proof fn merging_keeps_repos_distinct(s: MeshView, remote: MembershipView, local: Seq<u8>)
    requires
        distinct_repos(s.repos),
    ensures
        distinct_repos(super::merged(s, remote, local).repos),
{
    let peers = sorted_map::listing::<EndpointId, Record>(remote.peers);
    let repos = sorted_map::listing::<String, Record>(remote.repos);
    let middle = super::merge_peers(s, peers, local);
    lemma_merge_peers_adopts(s, peers, local);
    lemma_merge_repos_shrinks(middle, repos);
    let after = super::merged(s, remote, local).repos;
    assert forall|a: Seq<char>, b: Seq<char>|
        #[trigger] after.contains_key(a) && #[trigger] after.contains_key(b) && a
            != b implies after[a].id != after[b].id && !crate::config::path::same_path(
        after[a].path,
        after[b].path,
    ) by {
        assert(s.repos.contains_key(a) && s.repos.contains_key(b));
    }
}

/// A copy of our own record that may be gossiped is observed, and nothing else
/// touches our record.
pub proof fn copies_of_us_are_observed(s: MeshView, remote: MembershipView, local: Seq<u8>)
    requires
        real_membership(remote),
    ensures
        super::merged(s, remote, local).machine == if remote.peers.contains_key(local)
            && remote.peers[local].version < MAX_RECORD_VERSION {
            super::machine::observed(s.machine, remote.peers[local])
        } else {
            s.machine
        },
{
    let peers = sorted_map::listing::<EndpointId, Record>(remote.peers);
    let repos = sorted_map::listing::<String, Record>(remote.repos);
    let ok = |k: Seq<u8>, r: Record| r.version < MAX_RECORD_VERSION;
    lemma_listing_distinct::<EndpointId>(remote.peers);
    lemma_merge_peers_machine(s, peers, local);
    lemma_listed_is_offered::<EndpointId>(remote.peers, local, ok);
    lemma_merge_repos_adopts(super::merge_peers(s, peers, local), repos);
}

} // verus!
