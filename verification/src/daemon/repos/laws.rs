//! What aligning the managed repos with the mesh state achieves.

use vstd::prelude::*;

use super::{HandleView, Managed, RepoSetView};
use crate::config::state::repo::RepoView;
use crate::daemon::hub::HubView;
use crate::sorted_map;

verus! {

/// Whether the managed repos are exactly the registered ones.
pub open spec fn aligned(
    repos: Map<Seq<char>, HandleView>,
    target: Map<Seq<char>, RepoView>,
) -> bool {
    &&& forall|name: Seq<char>| #[trigger]
        repos.contains_key(name) <==> target.contains_key(name)
    &&& forall|name: Seq<char>| #[trigger]
        repos.contains_key(name) ==> super::keeps(target, name, repos[name])
}

/// Whether the hub knows exactly the managed repos, by their ids.
pub open spec fn mirrored(h: HubView, repos: Map<Seq<char>, HandleView>) -> bool {
    &&& forall|name: Seq<char>| #[trigger]
        h.repos.contains_key(name) <==> repos.contains_key(name)
    &&& forall|name: Seq<char>| #[trigger]
        h.repos.contains_key(name) ==> h.repos[name].id == repos[name].id
}

/// Whether a list is taken from the registered repos.
spec fn listed(list: Seq<(Seq<char>, RepoView)>, target: Map<Seq<char>, RepoView>) -> bool {
    forall|i: int|
        0 <= i < list.len() ==> target.contains_key((#[trigger] list[i]).0) && target[list[i].0]
            == list[i].1
}

proof fn lemma_unregistered_all(h: HubView, names: Seq<(Seq<char>, u64)>, name: Seq<char>)
    ensures
        ({
            let after = super::unregistered_all(h, names);
            &&& after.repos.contains_key(name) <==> h.repos.contains_key(name) && forall|i: int|
                0 <= i < names.len() ==> (#[trigger] names[i]).0 != name
            &&& after.repos.contains_key(name) ==> after.repos[name] == h.repos[name]
            &&& after.membership == h.membership
            &&& after.peers.dom() == h.peers.dom()
        }),
    decreases names.len(),
{
    if names.len() > 0 {
        let rest = names.drop_last();
        lemma_unregistered_all(h, rest, name);
        assert(forall|i: int| 0 <= i < rest.len() ==> #[trigger] rest[i] == names[i]);
        let before = super::unregistered_all(h, rest);
        let after = super::unregistered_all(h, names);
        if forall|i: int| 0 <= i < rest.len() ==> (#[trigger] rest[i]).0 != name {
            if names.last().0 != name {
                assert forall|i: int| 0 <= i < names.len() implies (#[trigger] names[i]).0
                    != name by {
                    if i < rest.len() {
                        assert(rest[i].0 != name);
                    }
                }
            } else {
                assert(names[names.len() - 1].0 == name);
            }
        } else {
            let i = choose|i: int| 0 <= i < rest.len() && (#[trigger] rest[i]).0 == name;
            assert(names[i].0 == name);
        }
        assert(after.peers.dom() =~= before.peers.dom());
    }
}

proof fn lemma_manage_all(
    m: Managed,
    list: Seq<(Seq<char>, RepoView)>,
    target: Map<Seq<char>, RepoView>,
)
    requires
        listed(list, target),
        forall|name: Seq<char>| #[trigger]
            m.repos.contains_key(name) ==> super::keeps(target, name, m.repos[name]),
        mirrored(m.hub, m.repos),
    ensures
        ({
            let after = super::manage_all(m, list);
            &&& forall|name: Seq<char>| #[trigger]
                after.repos.contains_key(name) ==> super::keeps(target, name, after.repos[name])
            &&& forall|i: int|
                0 <= i < list.len() ==> after.repos.contains_key((#[trigger] list[i]).0)
            &&& forall|name: Seq<char>| #[trigger]
                m.repos.contains_key(name) ==> after.repos.contains_key(name) && after.repos[name]
                    == m.repos[name] && after.hub.repos[name] == m.hub.repos[name]
            &&& mirrored(after.hub, after.repos)
            &&& after.hub.membership == m.hub.membership
            &&& after.hub.peers == m.hub.peers
        }),
    decreases list.len(),
{
    if list.len() > 0 {
        let rest = list.drop_last();
        assert(forall|i: int| 0 <= i < rest.len() ==> #[trigger] rest[i] == list[i]);
        lemma_manage_all(m, rest, target);
        let after = super::manage_all(m, list);
        assert(list[list.len() - 1] == list.last());
        assert forall|i: int| 0 <= i < list.len() implies after.repos.contains_key(
            (#[trigger] list[i]).0,
        ) by {
            if i < rest.len() {
                assert(rest[i] == list[i]);
            }
        }
    }
}

/// Aligning leaves exactly the registered repos managed, each at its path and
/// under its id, and known to the hub.
pub proof fn syncing_aligns(s: RepoSetView, h: HubView, target: Map<Seq<char>, RepoView>)
    requires
        s.repos.dom().finite(),
        target.dom().finite(),
        mirrored(h, s.repos),
    ensures
        ({
            let after = super::synced(s, h, target);
            &&& aligned(after.repos, target)
            &&& mirrored(after.hub, after.repos)
            &&& after.hub.membership == h.membership
            &&& after.hub.peers.dom() == h.peers.dom()
        }),
{
    let list = sorted_map::listing::<String, RepoView>(target);
    sorted_map::lemma_listing_exists::<String, RepoView>(target);
    let base = lemma_dropping(s, h, target);
    lemma_manage_all(base, list, target);
    let after = super::synced(s, h, target);
    assert forall|name: Seq<char>| #[trigger] target.contains_key(
        name,
    ) implies after.repos.contains_key(name) by {
        let i = choose|i: int| 0 <= i < list.len() && (#[trigger] list[i]).0 == name;
        assert(after.repos.contains_key(list[i].0));
    }
}

/// What is left once the unregistered repos are dropped.
proof fn lemma_dropping(s: RepoSetView, h: HubView, target: Map<Seq<char>, RepoView>) -> (base:
    Managed)
    requires
        s.repos.dom().finite(),
        mirrored(h, s.repos),
    ensures
        base == (Managed {
            repos: sorted_map::reworked(s.repos, super::keeping(target)),
            next_task: s.next_task,
            hub: super::unregistered_all(h, super::stopped_by(s, target)),
            started: Seq::empty(),
        }),
        forall|name: Seq<char>| #[trigger]
            base.repos.contains_key(name) ==> super::keeps(target, name, base.repos[name]),
        mirrored(base.hub, base.repos),
        forall|name: Seq<char>| #[trigger]
            base.hub.repos.contains_key(name) ==> base.hub.repos[name] == h.repos[name],
        base.hub.membership == h.membership,
        base.hub.peers.dom() == h.peers.dom(),
{
    let base = Managed {
        repos: sorted_map::reworked(s.repos, super::keeping(target)),
        next_task: s.next_task,
        hub: super::unregistered_all(h, super::stopped_by(s, target)),
        started: Seq::empty(),
    };
    let gone = super::stopped_by(s, target);
    sorted_map::lemma_kept::<String, HandleView, u64>(s.repos, super::dropping(target));
    lemma_unregistered_all(h, gone, Seq::empty());
    assert forall|name: Seq<char>|
        (#[trigger] base.hub.repos.contains_key(name) <==> base.repos.contains_key(name)) && (
        base.hub.repos.contains_key(name) ==> base.hub.repos[name] == h.repos[name]
            && base.hub.repos[name].id == base.repos[name].id) by {
        lemma_unregistered_all(h, gone, name);
        sorted_map::lemma_map_of_keys(gone, name);
        assert(h.repos.contains_key(name) <==> s.repos.contains_key(name));
        assert(sorted_map::reworked(s.repos, super::dropping(target)).contains_key(name) <==> (
        s.repos.contains_key(name) && !super::keeps(target, name, s.repos[name])));
    }
    base
}

/// Aligning does not disturb a repo that stays registered: its task, its state
/// and what the hub holds of it are left as they are.
pub proof fn syncing_leaves_the_others_alone(
    s: RepoSetView,
    h: HubView,
    target: Map<Seq<char>, RepoView>,
    name: Seq<char>,
)
    requires
        s.repos.dom().finite(),
        target.dom().finite(),
        mirrored(h, s.repos),
        s.repos.contains_key(name),
        super::keeps(target, name, s.repos[name]),
    ensures
        ({
            let after = super::synced(s, h, target);
            &&& after.repos.contains_key(name)
            &&& after.repos[name] == s.repos[name]
            &&& after.hub.repos[name] == h.repos[name]
        }),
{
    let list = sorted_map::listing::<String, RepoView>(target);
    sorted_map::lemma_listing_exists::<String, RepoView>(target);
    let base = lemma_dropping(s, h, target);
    lemma_manage_all(base, list, target);
    assert(base.repos.contains_key(name));
    assert(base.hub.repos.contains_key(name));
}

/// Aligning again with the same registered repos stops and starts nothing.
pub proof fn syncing_again_changes_nothing(
    s: RepoSetView,
    h: HubView,
    target: Map<Seq<char>, RepoView>,
)
    requires
        s.repos.dom().finite(),
        target.dom().finite(),
        aligned(s.repos, target),
    ensures
        super::stopped_by(s, target).len() == 0,
        super::synced(s, h, target) == (Managed {
            repos: s.repos,
            next_task: s.next_task,
            hub: h,
            started: Seq::empty(),
        }),
{
    let gone = super::stopped_by(s, target);
    sorted_map::lemma_kept::<String, HandleView, u64>(s.repos, super::dropping(target));
    if gone.len() > 0 {
        sorted_map::lemma_map_of_keys(gone, gone[0].0);
        assert(sorted_map::map_of(gone).contains_key(gone[0].0));
        assert(s.repos.contains_key(gone[0].0));
    }
    assert forall|name: Seq<char>| #[trigger] s.repos.contains_key(name) implies super::keeping(
        target,
    )(name, s.repos[name]) == Some(s.repos[name]) by {}
    assert(sorted_map::reworked(s.repos, super::keeping(target)) =~= s.repos);
    let list = sorted_map::listing::<String, RepoView>(target);
    sorted_map::lemma_listing_exists::<String, RepoView>(target);
    let base = Managed { repos: s.repos, next_task: s.next_task, hub: h, started: Seq::empty() };
    assert forall|i: int| 0 <= i < list.len() implies base.repos.contains_key(
        (#[trigger] list[i]).0,
    ) by {
        assert(target.contains_key(list[i].0));
    }
    lemma_manage_known(base, list);
}

proof fn lemma_manage_known(m: Managed, list: Seq<(Seq<char>, RepoView)>)
    requires
        forall|i: int| 0 <= i < list.len() ==> m.repos.contains_key((#[trigger] list[i]).0),
    ensures
        super::manage_all(m, list) == m,
    decreases list.len(),
{
    if list.len() > 0 {
        let rest = list.drop_last();
        assert(forall|i: int| 0 <= i < rest.len() ==> #[trigger] rest[i] == list[i]);
        lemma_manage_known(m, rest);
        assert(list[list.len() - 1] == list.last());
    }
}

} // verus!
