//! What the operations on the mesh state promise their callers.

use vstd::prelude::*;

use super::error::Fault;
use super::membership::{
    MAX_MESH_REPOS, MAX_OTHER_PEERS, MAX_RECORD_VERSION, MembershipView, Record,
};
use super::repo::RepoView;
use super::{MeshView, laws};
use crate::net::endpoint::EndpointId;
use crate::order::Key;
use crate::sorted_map;

verus! {

/// A gossiped repo record may be held under any usable name at any version below
/// the ceiling, and a peer record at such a version where it is a tombstone or
/// carries a usable name; only records about ourselves are never taken in.
pub proof fn sound_records_are_holdable(
    name: Seq<char>,
    repo: Record,
    endpoint: Seq<u8>,
    peer: Record,
    local: Seq<u8>,
)
    ensures
        laws::takes_repo()(name, repo) <==> crate::config::name::valid_name(name) && repo.version
            < MAX_RECORD_VERSION,
        laws::takes_peer(local)(endpoint, peer) <==> endpoint != local && peer.version
            < MAX_RECORD_VERSION && (peer.payload is None || crate::config::name::valid_name(
            peer.payload->Some_0,
        )),
{
}

/// A repo record that other machines may gossip (under a usable name, below the
/// version ceiling) and that outranks what is held, or is new to a state within
/// the caps, is held exactly as it came once merged. A retired name is no longer
/// registered then, so a removal reaches every machine; a name in use stays
/// registered where it was.
pub proof fn better_repo_records_arrive(
    s: MeshView,
    remote: MembershipView,
    local: Seq<u8>,
    name: Seq<char>,
)
    requires
        laws::real_state(s),
        laws::real_membership(remote),
        remote.repos.contains_key(name),
        crate::config::name::valid_name(name),
        remote.repos[name].version < MAX_RECORD_VERSION,
        s.mesh_repos.contains_key(name) ==> super::membership::outranks(
            remote.repos[name],
            s.mesh_repos[name],
        ),
        !s.mesh_repos.contains_key(name) ==> s.mesh_repos.dom().union(remote.repos.dom()).len()
            <= MAX_MESH_REPOS && s.peers.dom().union(remote.peers.dom().remove(local)).len()
            <= MAX_OTHER_PEERS,
    ensures
        ({
            let after = super::merged(s, remote, local);
            &&& after.mesh_repos.contains_key(name)
            &&& after.mesh_repos[name] == remote.repos[name]
            &&& remote.repos[name].payload is None ==> !after.repos.contains_key(name)
                && super::mesh_id(after.mesh_repos, name) is None
            &&& remote.repos[name].payload is Some ==> super::mesh_id(after.mesh_repos, name)
                == remote.repos[name].payload && (after.repos.contains_key(name)
                <==> s.repos.contains_key(name))
        }),
{
    let after = super::merged(s, remote, local);
    laws::known_records_keep_updating(s, remote, local);
    if !s.mesh_repos.contains_key(name) {
        laws::merging_keeps_the_better_record(s, remote, local);
        assert(after.mesh_repos.get(name) == laws::better(
            s.mesh_repos.get(name),
            laws::offered(remote.repos, name, laws::takes_repo()),
        ));
    }
    assert(after.mesh_repos.get(name) == Some(remote.repos[name]));
    if s.repos.contains_key(name) {
        laws::merging_unregisters_what_it_retires(s, remote, local, name);
        super::membership::outranks_is_strict(
            remote.repos[name],
            remote.repos[name],
            remote.repos[name],
        );
    } else {
        laws::merging_registers_and_moves_nothing(s, remote, local, name);
    }
}

/// A peer record that other machines may gossip (a tombstone, or alive under a
/// usable name, below the version ceiling, and not about ourselves) and that
/// outranks what is held, or is new to a state within the caps, is held exactly
/// as it came once merged.
pub proof fn better_peer_records_arrive(
    s: MeshView,
    remote: MembershipView,
    local: Seq<u8>,
    peer: Seq<u8>,
)
    requires
        laws::real_state(s),
        laws::real_membership(remote),
        remote.peers.contains_key(peer),
        peer != local,
        remote.peers[peer].version < MAX_RECORD_VERSION,
        remote.peers[peer].payload is None || crate::config::name::valid_name(
            remote.peers[peer].payload->Some_0,
        ),
        s.peers.contains_key(peer) ==> super::membership::outranks(
            remote.peers[peer],
            s.peers[peer],
        ),
        !s.peers.contains_key(peer) ==> s.mesh_repos.dom().union(remote.repos.dom()).len()
            <= MAX_MESH_REPOS && s.peers.dom().union(remote.peers.dom().remove(local)).len()
            <= MAX_OTHER_PEERS,
    ensures
        ({
            let after = super::merged(s, remote, local);
            &&& after.peers.contains_key(peer)
            &&& after.peers[peer] == remote.peers[peer]
            &&& super::paired_as(after.peers, peer) == remote.peers[peer].payload
        }),
{
    let after = super::merged(s, remote, local);
    laws::known_records_keep_updating(s, remote, local);
    if !s.peers.contains_key(peer) {
        laws::merging_keeps_the_better_record(s, remote, local);
        assert(after.peers.get(peer) == laws::better(
            s.peers.get(peer),
            laws::offered(remote.peers, peer, laws::takes_peer(local)),
        ));
    }
    assert(after.peers.get(peer) == Some(remote.peers[peer]));
}

/// What is held stays as it is where nothing better is gossiped: no record under
/// the key, one that does not outrank it, or one no machine may gossip.
pub proof fn lesser_records_change_nothing(
    s: MeshView,
    remote: MembershipView,
    local: Seq<u8>,
    name: Seq<char>,
    peer: Seq<u8>,
)
    requires
        laws::real_state(s),
        laws::real_membership(remote),
    ensures
        s.mesh_repos.contains_key(name) && (!remote.repos.contains_key(name)
            || !super::membership::outranks(remote.repos[name], s.mesh_repos[name])
            || remote.repos[name].version >= MAX_RECORD_VERSION
            || !crate::config::name::valid_name(name)) ==> super::merged(
            s,
            remote,
            local,
        ).mesh_repos.contains_key(name) && super::merged(s, remote, local).mesh_repos[name]
            == s.mesh_repos[name] && (s.repos.contains_key(name) ==> super::merged(
            s,
            remote,
            local,
        ).repos.contains_key(name)),
        s.peers.contains_key(peer) && (!remote.peers.contains_key(peer)
            || !super::membership::outranks(remote.peers[peer], s.peers[peer])
            || remote.peers[peer].version >= MAX_RECORD_VERSION || (
        remote.peers[peer].payload is Some && !crate::config::name::valid_name(
            remote.peers[peer].payload->Some_0,
        ))) ==> super::merged(s, remote, local).peers.contains_key(peer) && super::merged(
            s,
            remote,
            local,
        ).peers[peer] == s.peers[peer],
{
    let after = super::merged(s, remote, local);
    laws::known_records_keep_updating(s, remote, local);
    laws::merging_never_downgrades(s, remote, local);
    if s.mesh_repos.contains_key(name) {
        assert(after.mesh_repos.contains_key(name));
        assert(after.mesh_repos.get(name) == laws::better(
            s.mesh_repos.get(name),
            laws::offered(remote.repos, name, laws::takes_repo()),
        ));
        if s.repos.contains_key(name) {
            laws::merging_unregisters_what_it_retires(s, remote, local, name);
        }
    }
    if s.peers.contains_key(peer) {
        assert(after.peers.contains_key(peer));
        assert(after.peers.get(peer) == laws::better(
            s.peers.get(peer),
            laws::offered(remote.peers, peer, laws::takes_peer(local)),
        ));
    }
}

/// A key in use says what its record says; a retired or unknown one says
/// nothing.
pub proof fn lookups_read_the_record(s: MeshView, peer: Seq<u8>, name: Seq<char>)
    ensures
        super::paired_as(s.peers, peer) is Some <==> s.peers.contains_key(peer)
            && s.peers[peer].payload is Some,
        s.peers.contains_key(peer) ==> super::paired_as(s.peers, peer) == s.peers[peer].payload,
        super::mesh_id(s.mesh_repos, name) is Some <==> s.mesh_repos.contains_key(name)
            && s.mesh_repos[name].payload is Some,
        s.mesh_repos.contains_key(name) ==> super::mesh_id(s.mesh_repos, name)
            == s.mesh_repos[name].payload,
{
}

proof fn lemma_in_use<A>(list: Seq<(A, Record)>, k: A, payload: Seq<char>)
    ensures
        super::in_use(list).contains((k, payload)) <==> exists|i: int|
            0 <= i < list.len() && (#[trigger] list[i]).0 == k && list[i].1.payload == Some(
                payload,
            ),
    decreases list.len(),
{
    if list.len() > 0 {
        let rest = list.drop_last();
        let shorter = super::in_use(rest);
        let longer = super::in_use(list);
        lemma_in_use(rest, k, payload);
        assert(forall|i: int| 0 <= i < rest.len() ==> #[trigger] rest[i] == list[i]);
        if longer.contains((k, payload)) {
            let i = choose|i: int| 0 <= i < longer.len() && longer[i] == (k, payload);
            if i < shorter.len() {
                assert(shorter[i] == (k, payload));
                let j = choose|j: int|
                    0 <= j < rest.len() && (#[trigger] rest[j]).0 == k && rest[j].1.payload == Some(
                        payload,
                    );
                assert(list[j].0 == k);
            } else {
                assert(list[list.len() - 1].0 == k);
            }
        }
        if exists|i: int|
            0 <= i < list.len() && (#[trigger] list[i]).0 == k && list[i].1.payload == Some(
                payload,
            ) {
            let i = choose|i: int|
                0 <= i < list.len() && (#[trigger] list[i]).0 == k && list[i].1.payload == Some(
                    payload,
                );
            if i < rest.len() {
                assert(rest[i].0 == k);
                let j = choose|j: int| 0 <= j < shorter.len() && shorter[j] == (k, payload);
                assert(longer[j] == (k, payload));
            } else {
                assert(longer[longer.len() - 1] == (k, payload));
            }
        }
    }
}

/// What is listed as in use keeps the order of the records.
proof fn lemma_in_use_ascends<K: Key>(list: Seq<(K::V, Record)>)
    requires
        sorted_map::ascends::<K, Record>(list),
    ensures
        sorted_map::ascends::<K, Seq<char>>(super::in_use(list)),
        forall|j: int|
            0 <= j < super::in_use(list).len() ==> exists|i: int|
                0 <= i < list.len() && (#[trigger] list[i]).0 == (#[trigger] super::in_use(
                    list,
                )[j]).0,
    decreases list.len(),
{
    if list.len() > 0 {
        let rest = list.drop_last();
        let longer = super::in_use(list);
        let shorter = super::in_use(rest);
        assert(forall|i: int| 0 <= i < rest.len() ==> #[trigger] rest[i] == list[i]);
        assert(sorted_map::ascends::<K, Record>(rest)) by {
            assert forall|i: int, j: int| 0 <= i < j < rest.len() implies #[trigger] K::before(
                (#[trigger] rest[i]).0,
                (#[trigger] rest[j]).0,
            ) by {
                assert(K::before(list[i].0, list[j].0));
            }
        }
        lemma_in_use_ascends::<K>(rest);
        assert forall|j: int| 0 <= j < longer.len() implies exists|i: int|
            0 <= i < list.len() && (#[trigger] list[i]).0 == (#[trigger] longer[j]).0 by {
            if j < shorter.len() {
                assert(longer[j] == shorter[j]);
                let i = choose|i: int|
                    0 <= i < rest.len() && (#[trigger] rest[i]).0 == shorter[j].0;
                assert(list[i].0 == longer[j].0);
            } else {
                assert(list[list.len() - 1].0 == longer[j].0);
            }
        }
        assert forall|i: int, j: int| 0 <= i < j < longer.len() implies #[trigger] K::before(
            (#[trigger] longer[i]).0,
            (#[trigger] longer[j]).0,
        ) by {
            if j < shorter.len() {
                assert(longer[i] == shorter[i] && longer[j] == shorter[j]);
                assert(K::before(shorter[i].0, shorter[j].0));
            } else {
                assert(longer[i] == shorter[i]);
                let m = choose|m: int|
                    0 <= m < rest.len() && (#[trigger] rest[m]).0 == shorter[i].0;
                assert(list[m] == rest[m]);
                assert(K::before(list[m].0, list[list.len() - 1].0));
            }
        }
    }
}

/// The listings show exactly what is in use, each key once and in order: the
/// alive peers under their names, and the mesh repos with their ids.
pub proof fn listings_show_what_is_in_use(
    s: MeshView,
    peer: Seq<u8>,
    name: Seq<char>,
    payload: Seq<char>,
)
    requires
        laws::real_state(s),
    ensures
        super::alive_listing(s.peers).contains((peer, payload)) <==> s.peers.contains_key(peer)
            && s.peers[peer].payload == Some(payload),
        super::mesh_listing(s.mesh_repos).contains((name, payload))
            <==> s.mesh_repos.contains_key(name) && s.mesh_repos[name].payload == Some(payload),
        sorted_map::ascends::<EndpointId, Seq<char>>(super::alive_listing(s.peers)),
        sorted_map::ascends::<String, Seq<char>>(super::mesh_listing(s.mesh_repos)),
{
    let peers = sorted_map::listing::<EndpointId, Record>(s.peers);
    let repos = sorted_map::listing::<String, Record>(s.mesh_repos);
    sorted_map::lemma_listing_exists::<EndpointId, Record>(s.peers);
    sorted_map::lemma_listing_exists::<String, Record>(s.mesh_repos);
    lemma_in_use(peers, peer, payload);
    lemma_in_use(repos, name, payload);
    lemma_in_use_ascends::<EndpointId>(peers);
    lemma_in_use_ascends::<String>(repos);
    if s.peers.contains_key(peer) {
        let i = choose|i: int| 0 <= i < peers.len() && (#[trigger] peers[i]).0 == peer;
        assert(peers[i].1 == s.peers[peer]);
    }
    if s.mesh_repos.contains_key(name) {
        let i = choose|i: int| 0 <= i < repos.len() && (#[trigger] repos[i]).0 == name;
        assert(repos[i].1 == s.mesh_repos[name]);
    }
    if exists|i: int|
        0 <= i < peers.len() && (#[trigger] peers[i]).0 == peer && peers[i].1.payload == Some(
            payload,
        ) {
        let i = choose|i: int|
            0 <= i < peers.len() && (#[trigger] peers[i]).0 == peer && peers[i].1.payload == Some(
                payload,
            );
        assert(s.peers.contains_key(peers[i].0));
    }
    if exists|i: int|
        0 <= i < repos.len() && (#[trigger] repos[i]).0 == name && repos[i].1.payload == Some(
            payload,
        ) {
        let i = choose|i: int|
            0 <= i < repos.len() && (#[trigger] repos[i]).0 == name && repos[i].1.payload == Some(
                payload,
            );
        assert(s.mesh_repos.contains_key(repos[i].0));
    }
}

proof fn lemma_first(list: Seq<(Seq<char>, RepoView)>, id: Seq<char>, path: Seq<u8>)
    ensures
        match super::first_with_id(list, id) {
            Some(name) => exists|i: int|
                0 <= i < list.len() && (#[trigger] list[i]).0 == name && list[i].1.id == id
                    && forall|j: int| 0 <= j < i ==> (#[trigger] list[j]).1.id != id,
            None => forall|i: int| 0 <= i < list.len() ==> (#[trigger] list[i]).1.id != id,
        },
        match super::first_at_path(list, path) {
            Some(name) => exists|i: int|
                0 <= i < list.len() && (#[trigger] list[i]).0 == name
                    && crate::config::path::same_path(list[i].1.path, path) && forall|j: int|
                    0 <= j < i ==> !crate::config::path::same_path(
                        (#[trigger] list[j]).1.path,
                        path,
                    ),
            None => forall|i: int|
                0 <= i < list.len() ==> !crate::config::path::same_path(
                    (#[trigger] list[i]).1.path,
                    path,
                ),
        },
    decreases list.len(),
{
    if list.len() > 0 {
        let rest = list.drop_last();
        lemma_first(rest, id, path);
        assert(forall|i: int| 0 <= i < rest.len() ==> #[trigger] rest[i] == list[i]);
        if super::first_with_id(rest, id) is Some {
            let name = super::first_with_id(rest, id)->Some_0;
            let i = choose|i: int|
                0 <= i < rest.len() && (#[trigger] rest[i]).0 == name && rest[i].1.id == id
                    && forall|j: int| 0 <= j < i ==> (#[trigger] rest[j]).1.id != id;
            assert(list[i].0 == name);
            assert forall|j: int| 0 <= j < i implies (#[trigger] list[j]).1.id != id by {
                assert(rest[j].1.id != id);
            }
        } else {
            assert forall|j: int| 0 <= j < rest.len() implies (#[trigger] list[j]).1.id != id by {
                assert(rest[j].1.id != id);
            }
            assert(list[list.len() - 1] == list.last());
        }
        if super::first_at_path(rest, path) is Some {
            let name = super::first_at_path(rest, path)->Some_0;
            let i = choose|i: int|
                0 <= i < rest.len() && (#[trigger] rest[i]).0 == name
                    && crate::config::path::same_path(rest[i].1.path, path) && forall|j: int|
                    0 <= j < i ==> !crate::config::path::same_path(
                        (#[trigger] rest[j]).1.path,
                        path,
                    );
            assert(list[i].0 == name);
            assert forall|j: int| 0 <= j < i implies !crate::config::path::same_path(
                (#[trigger] list[j]).1.path,
                path,
            ) by {
                assert(!crate::config::path::same_path(rest[j].1.path, path));
            }
        } else {
            assert forall|j: int| 0 <= j < rest.len() implies !crate::config::path::same_path(
                (#[trigger] list[j]).1.path,
                path,
            ) by {
                assert(!crate::config::path::same_path(rest[j].1.path, path));
            }
            assert(list[list.len() - 1] == list.last());
        }
    }
}

/// A repo is found by its id and by its path exactly where one is registered
/// with it, and the first such name is told.
pub proof fn registered_repos_are_found(s: MeshView, id: Seq<char>, path: Seq<u8>)
    requires
        laws::real_state(s),
    ensures
        match super::registered_as(s.repos, id) {
            Some(name) => s.repos.contains_key(name) && s.repos[name].id == id && forall|other: Seq<
                char,
            >| #[trigger]
                s.repos.contains_key(other) && s.repos[other].id == id ==> other == name
                    || crate::order::text_before(name, other),
            None => forall|name: Seq<char>| #[trigger]
                s.repos.contains_key(name) ==> s.repos[name].id != id,
        },
        match super::registered_at(s.repos, path) {
            Some(name) => s.repos.contains_key(name) && crate::config::path::same_path(
                s.repos[name].path,
                path,
            ) && forall|other: Seq<char>| #[trigger]
                s.repos.contains_key(other) && crate::config::path::same_path(
                    s.repos[other].path,
                    path,
                ) ==> other == name || crate::order::text_before(name, other),
            None => forall|name: Seq<char>| #[trigger]
                s.repos.contains_key(name) ==> !crate::config::path::same_path(
                    s.repos[name].path,
                    path,
                ),
        },
{
    let list = sorted_map::listing::<String, RepoView>(s.repos);
    sorted_map::lemma_listing_exists::<String, RepoView>(s.repos);
    lemma_first(list, id, path);
    if super::registered_as(s.repos, id) is Some {
        let name = super::registered_as(s.repos, id)->Some_0;
        let i = choose|i: int|
            0 <= i < list.len() && (#[trigger] list[i]).0 == name && list[i].1.id == id
                && forall|j: int| 0 <= j < i ==> (#[trigger] list[j]).1.id != id;
        assert(s.repos.contains_key(list[i].0));
        assert forall|other: Seq<char>| #[trigger] s.repos.contains_key(other) && s.repos[other].id
            == id implies other == name || crate::order::text_before(name, other) by {
            let j = choose|j: int| 0 <= j < list.len() && (#[trigger] list[j]).0 == other;
            assert(list[j].1 == s.repos[other]);
            if i < j {
                assert(<String as Key>::before(list[i].0, list[j].0));
            }
        }
    } else {
        assert forall|name: Seq<char>| #[trigger] s.repos.contains_key(name) implies s.repos[name].id
            != id by {
            let j = choose|j: int| 0 <= j < list.len() && (#[trigger] list[j]).0 == name;
            assert(list[j].1 == s.repos[name]);
        }
    }
    if super::registered_at(s.repos, path) is Some {
        let name = super::registered_at(s.repos, path)->Some_0;
        let i = choose|i: int|
            0 <= i < list.len() && (#[trigger] list[i]).0 == name
                && crate::config::path::same_path(list[i].1.path, path) && forall|j: int|
                0 <= j < i ==> !crate::config::path::same_path((#[trigger] list[j]).1.path, path);
        assert(s.repos.contains_key(list[i].0));
        assert forall|other: Seq<char>| #[trigger] s.repos.contains_key(other)
            && crate::config::path::same_path(s.repos[other].path, path) implies other == name
            || crate::order::text_before(name, other) by {
            let j = choose|j: int| 0 <= j < list.len() && (#[trigger] list[j]).0 == other;
            assert(list[j].1 == s.repos[other]);
            if i < j {
                assert(<String as Key>::before(list[i].0, list[j].0));
            }
        }
    } else {
        assert forall|name: Seq<char>| #[trigger] s.repos.contains_key(
            name,
        ) implies !crate::config::path::same_path(s.repos[name].path, path) by {
            let j = choose|j: int| 0 <= j < list.len() && (#[trigger] list[j]).0 == name;
            assert(list[j].1 == s.repos[name]);
        }
    }
}

proof fn lemma_carriers(alive: Seq<(Seq<u8>, Seq<char>)>, name: Seq<char>, peer: Seq<u8>)
    ensures
        super::carriers(alive, name).contains(peer) <==> alive.contains((peer, name)),
    decreases alive.len(),
{
    if alive.len() > 0 {
        let rest = alive.drop_last();
        let shorter = super::carriers(rest, name);
        let longer = super::carriers(alive, name);
        lemma_carriers(rest, name, peer);
        assert(forall|i: int| 0 <= i < rest.len() ==> #[trigger] rest[i] == alive[i]);
        if longer.contains(peer) {
            let i = choose|i: int| 0 <= i < longer.len() && longer[i] == peer;
            if i < shorter.len() {
                assert(shorter[i] == peer);
                let j = choose|j: int| 0 <= j < rest.len() && rest[j] == (peer, name);
                assert(alive[j] == (peer, name));
            } else {
                assert(alive[alive.len() - 1] == (peer, name));
            }
        }
        if alive.contains((peer, name)) {
            let i = choose|i: int| 0 <= i < alive.len() && alive[i] == (peer, name);
            if i < rest.len() {
                assert(rest[i] == (peer, name));
                let j = choose|j: int| 0 <= j < shorter.len() && shorter[j] == peer;
                assert(longer[j] == peer);
            } else {
                assert(longer[longer.len() - 1] == peer);
            }
        }
    }
}

proof fn lemma_carriers_distinct(alive: Seq<(Seq<u8>, Seq<char>)>, name: Seq<char>)
    requires
        sorted_map::ascends::<EndpointId, Seq<char>>(alive),
    ensures
        forall|i: int, j: int|
            0 <= i < j < super::carriers(alive, name).len() ==> #[trigger] super::carriers(
                alive,
                name,
            )[i] != #[trigger] super::carriers(alive, name)[j],
        forall|j: int|
            0 <= j < super::carriers(alive, name).len() ==> exists|i: int|
                0 <= i < alive.len() && (#[trigger] alive[i]).0 == (#[trigger] super::carriers(
                    alive,
                    name,
                )[j]),
    decreases alive.len(),
{
    if alive.len() > 0 {
        let rest = alive.drop_last();
        let shorter = super::carriers(rest, name);
        let longer = super::carriers(alive, name);
        assert(forall|i: int| 0 <= i < rest.len() ==> #[trigger] rest[i] == alive[i]);
        assert(sorted_map::ascends::<EndpointId, Seq<char>>(rest)) by {
            assert forall|i: int, j: int|
                0 <= i < j < rest.len() implies #[trigger] <EndpointId as Key>::before(
                (#[trigger] rest[i]).0,
                (#[trigger] rest[j]).0,
            ) by {
                assert(<EndpointId as Key>::before(alive[i].0, alive[j].0));
            }
        }
        lemma_carriers_distinct(rest, name);
        assert forall|j: int| 0 <= j < longer.len() implies exists|i: int|
            0 <= i < alive.len() && (#[trigger] alive[i]).0 == (#[trigger] longer[j]) by {
            if j < shorter.len() {
                assert(longer[j] == shorter[j]);
                let i = choose|i: int| 0 <= i < rest.len() && (#[trigger] rest[i]).0 == shorter[j];
                assert(alive[i].0 == longer[j]);
            } else {
                assert(alive[alive.len() - 1].0 == longer[j]);
            }
        }
        assert forall|i: int, j: int| 0 <= i < j < longer.len() implies #[trigger] longer[i]
            != #[trigger] longer[j] by {
            if j < shorter.len() {
                assert(longer[i] == shorter[i] && longer[j] == shorter[j]);
            } else {
                assert(longer[i] == shorter[i]);
                let m = choose|m: int| 0 <= m < rest.len() && (#[trigger] rest[m]).0 == shorter[i];
                assert(<EndpointId as Key>::before(alive[m].0, alive[alive.len() - 1].0));
                <EndpointId as Key>::irreflexive(alive[m].0);
            }
        }
    }
}

/// A selector means the alive peer of that name where there is one, and is
/// refused where there are several. Otherwise it means the alive peer with the
/// endpoint id it spells.
pub proof fn selectors_mean_one_peer(
    s: MeshView,
    selector: Seq<char>,
    peer: Seq<u8>,
    other: Seq<u8>,
)
    requires
        laws::real_state(s),
    ensures
        super::paired_as(s.peers, peer) == Some(selector) && (forall|p: Seq<u8>|
            #[trigger] super::paired_as(s.peers, p) == Some(selector) ==> p == peer)
            ==> super::resolved(s, selector) == Ok::<Seq<u8>, Fault>(peer),
        peer != other && super::paired_as(s.peers, peer) == Some(selector) && super::paired_as(
            s.peers,
            other,
        ) == Some(selector) ==> super::resolved(s, selector) == Err::<Seq<u8>, Fault>(
            Fault::AmbiguousPeer { selector },
        ),
        (forall|p: Seq<u8>| #[trigger] super::paired_as(s.peers, p) != Some(selector)) ==> (
        match crate::net::endpoint::endpoint_of(selector) {
            None => super::resolved(s, selector) == Err::<Seq<u8>, Fault>(
                Fault::NoPeer { selector },
            ),
            Some(endpoint) => super::resolved(s, selector) == if super::paired_as(
                s.peers,
                endpoint,
            ) is Some {
                Ok::<Seq<u8>, Fault>(endpoint)
            } else {
                Err::<Seq<u8>, Fault>(Fault::NotPaired { endpoint })
            },
        }),
{
    let alive = super::alive_listing(s.peers);
    let named = super::carriers(alive, selector);
    listings_show_what_is_in_use(s, peer, selector, selector);
    lemma_carriers_distinct(alive, selector);
    assert forall|p: Seq<u8>| named.contains(p) <==> #[trigger] super::paired_as(s.peers, p) == Some(
        selector,
    ) by {
        lemma_carriers(alive, selector, p);
        listings_show_what_is_in_use(s, p, selector, selector);
    }
    if super::paired_as(s.peers, peer) == Some(selector) {
        assert(named.contains(peer));
        let i = choose|i: int| 0 <= i < named.len() && named[i] == peer;
        if forall|p: Seq<u8>| #[trigger] super::paired_as(s.peers, p) == Some(selector) ==> p
            == peer {
            if named.len() > 1 {
                assert(named[0] != named[1]);
                assert(named.contains(named[0]) && named.contains(named[1]));
                assert(super::paired_as(s.peers, named[0]) == Some(selector));
                assert(super::paired_as(s.peers, named[1]) == Some(selector));
            }
            assert(named[0] == peer);
        }
        if peer != other && super::paired_as(s.peers, other) == Some(selector) {
            assert(named.contains(other));
            let j = choose|j: int| 0 <= j < named.len() && named[j] == other;
            assert(i != j);
        }
    }
    if forall|p: Seq<u8>| #[trigger] super::paired_as(s.peers, p) != Some(selector) {
        if named.len() > 0 {
            assert(named.contains(named[0]));
            assert(super::paired_as(s.peers, named[0]) == Some(selector));
        }
    }
}

/// A peer can be paired unless its name is not usable, it is alive already, the
/// mesh is full of others, or its record can no longer be changed; the first of
/// these is what the refusal says.
pub proof fn pairing_is_refused_for_a_reason(s: MeshView, endpoint: Seq<u8>, name: Seq<char>)
    ensures
        super::add_peer_fault(s, endpoint, name) is None <==> {
            &&& crate::config::name::valid_name(name)
            &&& super::paired_as(s.peers, endpoint) is None
            &&& s.peers.contains_key(endpoint) || s.peers.len() < MAX_OTHER_PEERS
            &&& s.peers.contains_key(endpoint) ==> s.peers[endpoint].version < MAX_RECORD_VERSION
        },
        super::new_peer_fault(s, name, endpoint) is None <==> crate::config::name::valid_name(name)
            && super::paired_as(s.peers, endpoint) is None,
        super::new_peer_fault(s, name, endpoint) is Some ==> super::add_peer_fault(
            s,
            endpoint,
            name,
        ) == super::new_peer_fault(s, name, endpoint),
        crate::config::name::name_fault(name) is Some ==> super::new_peer_fault(s, name, endpoint)
            == Some(
            Fault::Name { kind: "peer"@, fault: crate::config::name::name_fault(name)->Some_0 },
        ),
        crate::config::name::valid_name(name) && super::paired_as(s.peers, endpoint) is Some
            ==> super::new_peer_fault(s, name, endpoint) == Some(
            Fault::AlreadyPaired {
                endpoint,
                name: super::paired_as(s.peers, endpoint)->Some_0,
            },
        ),
        super::new_peer_fault(s, name, endpoint) is None && !s.peers.contains_key(endpoint)
            && s.peers.len() >= MAX_OTHER_PEERS ==> super::add_peer_fault(s, endpoint, name)
            == Some(Fault::MeshFull),
        super::new_peer_fault(s, name, endpoint) is None && s.peers.contains_key(endpoint)
            && s.peers[endpoint].version >= MAX_RECORD_VERSION ==> super::add_peer_fault(
            s,
            endpoint,
            name,
        ) == Some(
            Fault::Corrupted {
                subject: crate::net::endpoint::hex_lower(endpoint),
                version: s.peers[endpoint].version,
            },
        ),
{
}

/// A repo can be registered unless its name is not usable or taken here, its
/// path or id is registered here, the mesh knows the name under another id, the
/// mesh is full of other repos, or the record can no longer be changed.
pub proof fn registering_is_refused_for_a_reason(s: MeshView, name: Seq<char>, repo: RepoView)
    requires
        laws::real_state(s),
    ensures
        super::add_repo_fault(s, name, repo) is None <==> {
            &&& crate::config::name::valid_name(name)
            &&& !s.repos.contains_key(name)
            &&& forall|held: Seq<char>| #[trigger]
                s.repos.contains_key(held) ==> s.repos[held].id != repo.id
                    && !crate::config::path::same_path(s.repos[held].path, repo.path)
            &&& s.mesh_repos.contains_key(name) && s.mesh_repos[name].payload is Some
                ==> s.mesh_repos[name].payload == Some(repo.id)
            &&& s.mesh_repos.contains_key(name) || s.mesh_repos.len() < MAX_MESH_REPOS
            &&& s.mesh_repos.contains_key(name) ==> s.mesh_repos[name].version
                < MAX_RECORD_VERSION
        },
        super::new_repo_fault(s, name, repo.path) is None <==> {
            &&& crate::config::name::valid_name(name)
            &&& !s.repos.contains_key(name)
            &&& forall|held: Seq<char>| #[trigger]
                s.repos.contains_key(held) ==> !crate::config::path::same_path(
                    s.repos[held].path,
                    repo.path,
                )
        },
        crate::config::name::name_fault(name) is Some ==> super::new_repo_fault(s, name, repo.path)
            == Some(
            Fault::Name { kind: "repo"@, fault: crate::config::name::name_fault(name)->Some_0 },
        ),
        crate::config::name::valid_name(name) && s.repos.contains_key(name)
            ==> super::new_repo_fault(s, name, repo.path) == Some(Fault::RepoExists { name }),
        super::new_repo_fault(s, name, repo.path) is Some ==> super::add_repo_fault(s, name, repo)
            == super::new_repo_fault(s, name, repo.path),
        super::forks(s, name, repo.id) <==> s.mesh_repos.contains_key(name)
            && s.mesh_repos[name].payload is Some && s.mesh_repos[name].payload != Some(repo.id),
{
    registered_repos_are_found(s, repo.id, repo.path);
}

/// A repo name can be retired where it is registered here or in use on the mesh,
/// unless the record can no longer be changed.
pub proof fn retiring_is_refused_for_a_reason(s: MeshView, name: Seq<char>)
    ensures
        super::remove_repo_fault(s, name) is None <==> {
            &&& s.repos.contains_key(name) || (s.mesh_repos.contains_key(name)
                && s.mesh_repos[name].payload is Some)
            &&& s.mesh_repos.contains_key(name) ==> s.mesh_repos[name].version
                < MAX_RECORD_VERSION
        },
        !s.repos.contains_key(name) && !s.mesh_repos.contains_key(name)
            ==> super::remove_repo_fault(s, name) == Some(Fault::NoMeshRepo { name }),
        !s.repos.contains_key(name) && s.mesh_repos.contains_key(name)
            && s.mesh_repos[name].payload is None ==> super::remove_repo_fault(s, name) == Some(
            Fault::RepoRemoved { name },
        ),
{
}

/// A peer can be removed where the selector means one, unless its record can no
/// longer be changed.
pub proof fn removing_is_refused_for_a_reason(s: MeshView, selector: Seq<char>)
    ensures
        match super::resolved(s, selector) {
            Err(fault) => super::remove_peer_fault(s, selector) == Some(fault),
            Ok(endpoint) => super::remove_peer_fault(s, selector) is None <==> (
            s.peers.contains_key(endpoint) ==> s.peers[endpoint].version < MAX_RECORD_VERSION),
        },
{
}

/// A local change writes one record and leaves the others: it says what was
/// asked for, one version past what was held.
pub proof fn local_changes_touch_one_record<A>(
    map: Map<A, Record>,
    key: A,
    payload: Option<Seq<char>>,
    other: A,
)
    ensures
        ({
            let after = super::rewritten(map, key, payload);
            &&& after.contains_key(key)
            &&& after[key].payload == payload
            &&& map.contains_key(key) ==> after[key].version == map[key].version + 1
            &&& !map.contains_key(key) ==> after[key].version == 1
            &&& other != key ==> (after.contains_key(other) <==> map.contains_key(other))
            &&& other != key && map.contains_key(other) ==> after[other] == map[other]
        }),
{
}

/// A membership carries everything that is replicated: our own record under our
/// endpoint, every other peer record and every repo record as held.
pub proof fn memberships_carry_the_records(
    s: MeshView,
    local: Seq<u8>,
    peer: Seq<u8>,
    name: Seq<char>,
)
    ensures
        ({
            let m = super::membership_of(s, local);
            &&& m.peers.contains_key(local)
            &&& m.peers[local].payload == Some(s.machine.name)
            &&& m.peers[local].version == s.machine.version
            &&& peer != local ==> (m.peers.contains_key(peer) <==> s.peers.contains_key(peer))
            &&& peer != local && s.peers.contains_key(peer) ==> m.peers[peer] == s.peers[peer]
            &&& m.repos.contains_key(name) <==> s.mesh_repos.contains_key(name)
            &&& s.mesh_repos.contains_key(name) ==> m.repos[name] == s.mesh_repos[name]
        }),
{
}

} // verus!
