//! Dynamic shell completion of repo and peer names.
//!
//! Candidates come from the local mesh state, so completion works whether or not
//! the daemon is running.

use vstd::prelude::*;

use crate::config::state::MeshState;
use crate::config::state::repo::{Repo, RepoView};
use crate::daemon::control::server::available_repos;
use crate::net::endpoint::EndpointId;
use crate::sorted_map;

verus! {

/// The repos registered on this machine (`repo forget`).
pub fn registered_repos(state: &MeshState) -> (names: Vec<String>)
    ensures
        super::ui::texts_view(names@) == crate::daemon::hub::keys_of(
            sorted_map::listing::<String, RepoView>(state@.repos),
        ),
{
    let ghost list = sorted_map::listing::<String, RepoView>(state@.repos);
    let ghost keys = crate::daemon::hub::keys_of(list);
    let mut names: Vec<String> = Vec::new();
    let len: usize = state.repos.len();
    let mut i: usize = 0;
    assert(super::ui::texts_view(names@) =~= keys.take(0));
    while i < len
        invariant
            i <= len,
            len == list.len(),
            list == sorted_map::listing::<String, RepoView>(state.repos@),
            keys == crate::daemon::hub::keys_of(list),
            super::ui::texts_view(names@) == keys.take(i as int),
        decreases len - i,
    {
        let (name, repo): (&String, &Repo) = state.repos.entry_at(i);
        let ghost before = names@;
        names.push(name.clone());
        assert(super::ui::texts_view(names@) =~= super::ui::texts_view(before).push(name@));
        assert(keys.take(i + 1) =~= keys.take(i as int).push(name@));
        i = i + 1;
    }
    assert(keys.take(len as int) =~= keys);
    names
}

/// The repo names in use on the mesh (`repo remove`).
pub fn mesh_repos(state: &MeshState) -> (names: Vec<String>)
    ensures
        super::ui::texts_view(names@) == crate::daemon::hub::keys_of(
            crate::config::state::mesh_listing(state@.mesh_repos),
        ),
{
    let names = state.mesh_repo_names();
    assert(super::ui::texts_view(names@) =~= crate::daemon::hub::keys_of(
        crate::config::state::mesh_listing(state@.mesh_repos),
    ));
    names
}

/// The mesh repos not registered on this machine, i.e. the clonable ones (`repo
/// clone`).
pub fn clonable_repos(state: &MeshState) -> (names: Vec<String>)
    ensures
        super::ui::texts_view(names@) == crate::daemon::control::server::clonable(state@),
{
    available_repos(state)
}

/// The alive peers (`peer remove`), with their endpoint id as help text since
/// names can be ambiguous.
pub fn peers(state: &MeshState) -> (peers: Vec<(String, String)>)
    ensures
        peers@.map_values(|p: (String, String)| (p.0@, p.1@))
            == crate::config::state::alive_listing(state@.peers).map_values(
            |e: (Seq<u8>, Seq<char>)| (e.1, crate::net::endpoint::hex_lower(e.0)),
        ),
{
    let alive = state.alive_peers();
    let ghost pair = |p: (EndpointId, String)| (p.0@, p.1@);
    let ghost list = crate::config::state::alive_listing(state@.peers);
    let ghost shown = |e: (Seq<u8>, Seq<char>)| (e.1, crate::net::endpoint::hex_lower(e.0));
    let ghost view = |p: (String, String)| (p.0@, p.1@);
    let mut peers: Vec<(String, String)> = Vec::new();
    let mut i: usize = 0;
    assert(peers@.map_values(view) =~= list.map_values(shown).take(0));
    while i < alive.len()
        invariant
            i <= alive@.len(),
            pair == (|p: (EndpointId, String)| (p.0@, p.1@)),
            shown == (|e: (Seq<u8>, Seq<char>)| (e.1, crate::net::endpoint::hex_lower(e.0))),
            view == (|p: (String, String)| (p.0@, p.1@)),
            list == alive@.map_values(pair),
            peers@.map_values(view) == list.map_values(shown).take(i as int),
        decreases alive@.len() - i,
    {
        let ghost before = peers@;
        peers.push((alive[i].1.clone(), alive[i].0.to_text()));
        assert(list[i as int] == pair(alive@[i as int]));
        assert(peers@.map_values(view) =~= before.map_values(view).push(
            shown(list[i as int]),
        ));
        assert(list.map_values(shown).take(i + 1) =~= list.map_values(shown).take(i as int).push(
            shown(list[i as int]),
        ));
        i = i + 1;
    }
    assert(list.map_values(shown).take(i as int) =~= list.map_values(shown));
    peers
}

} // verus!
