//! Registered repo management.
//!
//! One watch task per registered repo syncs it (see the `task` submodule);
//! [`RepoSet`] keeps the tasks aligned with the mesh state, starting and
//! stopping them as repos are registered and removed.

pub mod guarantees;
pub mod laws;
pub mod snapshot;
pub mod task;

use vstd::prelude::*;

use crate::config::path::FsPath;
use crate::config::state::MeshState;
use crate::config::state::repo::{Repo, RepoId, RepoView};
use crate::daemon::control::protocol::{RepoStatus, RepoStatusView, WatchStatus, WatchView};
use crate::daemon::hub::{HubView, SyncHub};
use crate::net::sync::{RepoHealth, RepoHealthState, RepoHealthView};
use crate::order::{Duplicate, Same};
use crate::sorted_map::{self, SortedMap};

verus! {

/// Live state of one repo watch.
pub enum RepoState {
    Opening,
    Watching { op_heads: usize, last_change: Option<u64>, last_sync: Option<u64> },
    /// Rebuilding the commit index for op heads that lack one; jj commands in
    /// the repo would otherwise pay for the rebuild themselves.
    Indexing,
    Backoff { until: u64, error: String },
    /// The repo directory itself is gone: an unmounted disk, or a repo the user
    /// deleted without `jj-mesh repo forget`. Retried like a backoff, but
    /// surfaced distinctly so the status can suggest the fix.
    Missing { until: u64 },
}

/// A repo watch's state by content.
pub enum RepoStateView {
    Opening,
    Watching { op_heads: nat, last_change: Option<u64>, last_sync: Option<u64> },
    Indexing,
    Backoff { until: u64, error: Seq<char> },
    Missing { until: u64 },
}

impl View for RepoState {
    type V = RepoStateView;

    open spec fn view(&self) -> RepoStateView {
        match self {
            RepoState::Opening => RepoStateView::Opening,
            RepoState::Watching { op_heads, last_change, last_sync } => RepoStateView::Watching {
                op_heads: *op_heads as nat,
                last_change: *last_change,
                last_sync: *last_sync,
            },
            RepoState::Indexing => RepoStateView::Indexing,
            RepoState::Backoff { until, error } => RepoStateView::Backoff {
                until: *until,
                error: error@,
            },
            RepoState::Missing { until } => RepoStateView::Missing { until: *until },
        }
    }
}

/// Book-keeping for one repo task.
pub struct RepoHandle {
    id: RepoId,
    path: FsPath,
    state: RepoState,
    task: u64,
}

/// A managed repo by content.
#[verifier::ext_equal]
pub struct HandleView {
    pub id: Seq<char>,
    pub path: Seq<u8>,
    pub state: RepoStateView,
    pub task: u64,
}

impl View for RepoHandle {
    type V = HandleView;

    closed spec fn view(&self) -> HandleView {
        HandleView { id: self.id@, path: self.path@, state: self.state@, task: self.task }
    }
}

/// A repo task to start.
pub struct RepoStart {
    pub name: String,
    pub id: RepoId,
    pub path: FsPath,
    pub task: u64,
}

/// A repo task to start, by content.
#[verifier::ext_equal]
pub struct StartView {
    pub name: Seq<char>,
    pub id: Seq<char>,
    pub path: Seq<u8>,
    pub task: u64,
}

impl View for RepoStart {
    type V = StartView;

    open spec fn view(&self) -> StartView {
        StartView { name: self.name@, id: self.id@, path: self.path@, task: self.task }
    }
}

/// The set of managed repos, synced from the mesh state and keyed by their
/// mesh-wide name.
pub struct RepoSet {
    repos: SortedMap<String, RepoHandle>,
    /// Number of the next task, so a task stopped for a replacement cannot be
    /// taken for it.
    next_task: u64,
}

/// Managed repos by content.
#[verifier::ext_equal]
pub struct RepoSetView {
    pub repos: Map<Seq<char>, HandleView>,
    pub next_task: nat,
}

impl View for RepoSet {
    type V = RepoSetView;

    closed spec fn view(&self) -> RepoSetView {
        RepoSetView { repos: self.repos@, next_task: self.next_task as nat }
    }
}

/// Whether a managed repo is still the registered one: same place, same id.
pub open spec fn keeps(
    target: Map<Seq<char>, RepoView>,
    name: Seq<char>,
    handle: HandleView,
) -> bool {
    target.contains_key(name) && crate::config::path::same_path(handle.path, target[name].path)
        && target[name].id == handle.id
}

/// The rule that keeps the repos still registered.
pub open spec fn keeping(target: Map<Seq<char>, RepoView>) -> spec_fn(
    Seq<char>,
    HandleView,
) -> Option<HandleView> {
    |name: Seq<char>, handle: HandleView|
        if keeps(target, name, handle) {
            Some(handle)
        } else {
            None
        }
}

/// The rule that reads the tasks of the repos no longer registered.
pub open spec fn dropping(target: Map<Seq<char>, RepoView>) -> spec_fn(
    Seq<char>,
    HandleView,
) -> Option<u64> {
    |name: Seq<char>, handle: HandleView|
        if keeps(target, name, handle) {
            None
        } else {
            Some(handle.task)
        }
}

/// The hub after names were unregistered one after the other.
pub open spec fn unregistered_all(h: HubView, names: Seq<(Seq<char>, u64)>) -> HubView
    decreases names.len(),
{
    if names.len() == 0 {
        h
    } else {
        crate::daemon::hub::unregistered(
            unregistered_all(h, names.drop_last()),
            names.last().0,
        )
    }
}

/// Managed repos, the hub, and the tasks to start.
#[verifier::ext_equal]
pub struct Managed {
    pub repos: Map<Seq<char>, HandleView>,
    pub next_task: nat,
    pub hub: HubView,
    pub started: Seq<StartView>,
}

/// Managed repos after one registered repo was taken in.
pub open spec fn manage(m: Managed, entry: (Seq<char>, RepoView)) -> Managed {
    let (name, repo) = entry;
    if m.repos.contains_key(name) {
        m
    } else {
        let task = m.next_task as u64;
        Managed {
            repos: m.repos.insert(
                name,
                HandleView { id: repo.id, path: repo.path, state: RepoStateView::Opening, task },
            ),
            next_task: m.next_task + 1,
            hub: crate::daemon::hub::registered(m.hub, name, repo.id),
            started: m.started.push(StartView { name, id: repo.id, path: repo.path, task }),
        }
    }
}

/// Managed repos after registered repos were taken in, in order.
pub open spec fn manage_all(m: Managed, list: Seq<(Seq<char>, RepoView)>) -> Managed
    decreases list.len(),
{
    if list.len() == 0 {
        m
    } else {
        manage(manage_all(m, list.drop_last()), list.last())
    }
}

/// The tasks a sync stops, by name.
pub open spec fn stopped_by(s: RepoSetView, target: Map<Seq<char>, RepoView>) -> Seq<
    (Seq<char>, u64),
> {
    sorted_map::kept(sorted_map::listing::<String, HandleView>(s.repos), dropping(target))
}

/// Managed repos once aligned with the registered ones: those that left or
/// changed are dropped and unregistered, and new ones taken in.
pub open spec fn synced(s: RepoSetView, h: HubView, target: Map<Seq<char>, RepoView>) -> Managed {
    manage_all(
        Managed {
            repos: sorted_map::reworked(s.repos, keeping(target)),
            next_task: s.next_task,
            hub: unregistered_all(h, stopped_by(s, target)),
            started: Seq::empty(),
        },
        sorted_map::listing::<String, RepoView>(target),
    )
}

/// How a repo fares, as peers see it. Opening and indexing are transitions, not
/// faults.
pub open spec fn health_of(state: RepoStateView, paused: bool) -> RepoHealthState {
    if paused {
        RepoHealthState::Paused
    } else {
        match state {
            RepoStateView::Opening => RepoHealthState::Healthy,
            RepoStateView::Watching { .. } => RepoHealthState::Healthy,
            RepoStateView::Indexing => RepoHealthState::Healthy,
            RepoStateView::Backoff { .. } => RepoHealthState::Failed,
            RepoStateView::Missing { .. } => RepoHealthState::Missing,
        }
    }
}

/// Whole seconds from one time to another, none if it lies ahead.
pub open spec fn secs_between(from: u64, to: u64) -> u64 {
    if from <= to {
        ((to - from) / 1000) as u64
    } else {
        0
    }
}

/// Whole seconds since a time, where there is one.
pub open spec fn secs_since(at: Option<u64>, now: u64) -> Option<u64> {
    match at {
        Some(at) => Some(secs_between(at, now)),
        None => None,
    }
}

/// A watch as the control socket shows it, at a steady and a wall clock time.
pub open spec fn watch_of(state: RepoStateView, now: u64, wall: u64) -> WatchView {
    match state {
        RepoStateView::Opening => WatchView::Opening,
        RepoStateView::Indexing => WatchView::Indexing,
        RepoStateView::Watching { op_heads, last_change, last_sync } => WatchView::Watching {
            op_heads: op_heads as u64,
            last_change_secs: secs_since(last_change, wall),
            last_sync_secs: secs_since(last_sync, wall),
        },
        RepoStateView::Backoff { until, error } => WatchView::Failed {
            error,
            retry_in_secs: secs_between(now, until),
        },
        RepoStateView::Missing { until } => WatchView::Missing {
            retry_in_secs: secs_between(now, until),
        },
    }
}

/// Whole seconds from one time to another.
pub fn whole_secs(from: u64, to: u64) -> (secs: u64)
    ensures
        secs == secs_between(from, to),
{
    if from <= to {
        (to - from) / 1000
    } else {
        0
    }
}

fn whole_secs_since(at: Option<u64>, now: u64) -> (secs: Option<u64>)
    ensures
        secs == secs_since(at, now),
{
    match at {
        Some(at) => Some(whole_secs(at, now)),
        None => None,
    }
}

impl RepoSet {
    pub fn new() -> (set: Self)
        ensures
            set@ == (RepoSetView { repos: Map::empty(), next_task: 0 }),
    {
        RepoSet { repos: SortedMap::new(), next_task: 0 }
    }

    /// Managed repos are finitely many.
    pub proof fn lemma_finite(&self)
        ensures
            self@.repos.dom().finite(),
    {
        self.repos.lemma_finite();
    }

    /// How many repos are managed.
    pub fn len(&self) -> (len: usize)
        ensures
            len == self@.repos.len(),
    {
        self.repos.len()
    }

    /// How many tasks were started so far.
    pub fn tasks(&self) -> (tasks: u64)
        ensures
            tasks == self@.next_task,
    {
        self.next_task
    }

    /// Aligns the managed repos with the mesh state: repos that left it are
    /// dropped and new ones taken in. A repo whose path or id changed is
    /// replaced. Returns the tasks to stop and those to start.
    pub fn sync(&mut self, hub: &mut SyncHub, state: &MeshState) -> (plan: (
        Vec<u64>,
        Vec<RepoStart>,
    ))
        requires
            old(hub)@.announce_seq + old(self)@.repos.len() <= u64::MAX,
            old(self)@.next_task + state@.repos.len() <= u64::MAX,
        ensures
            ({
                let after = synced(old(self)@, old(hub)@, state@.repos);
                &&& final(self)@ == RepoSetView {
                    repos: after.repos,
                    next_task: after.next_task,
                }
                &&& final(hub)@ == after.hub
                &&& plan.0@ == stopped_by(old(self)@, state@.repos).map_values(
                    |s: (Seq<char>, u64)| s.1,
                )
                &&& plan.1@.map_values(|s: RepoStart| s@) == after.started
            }),
    {
        let stopped = self.drop_unregistered(hub, state);
        let ghost base = Managed {
            repos: self.repos@,
            next_task: self.next_task as nat,
            hub: hub@,
            started: Seq::empty(),
        };
        let ghost list = sorted_map::listing::<String, RepoView>(state.repos@);
        let ghost shown = |s: RepoStart| s@;
        let mut started: Vec<RepoStart> = Vec::new();
        let len: usize = state.repos.len();
        let mut i: usize = 0;
        assert(started@.map_values(shown) =~= Seq::<StartView>::empty());
        while i < len
            invariant
                i <= len,
                len == list.len(),
                shown == (|s: RepoStart| s@),
                list == sorted_map::listing::<String, RepoView>(state.repos@),
                self.next_task + (len - i) <= u64::MAX,
                manage_all(base, list.take(i as int)) == (Managed {
                    repos: self.repos@,
                    next_task: self.next_task as nat,
                    hub: hub@,
                    started: started@.map_values(shown),
                }),
            decreases len - i,
        {
            let (name, repo): (&String, &Repo) = state.repos.entry_at(i);
            let ghost before = started@;
            assert(list.take(i + 1).drop_last() =~= list.take(i as int));
            assert(list.take(i + 1).last() == list[i as int]);
            if !self.repos.contains_key(name) {
                hub.register_repo(name.as_str(), repo.id.duplicate());
                self.repos.insert(
                    name.clone(),
                    RepoHandle {
                        id: repo.id.duplicate(),
                        path: repo.path.duplicate(),
                        state: RepoState::Opening,
                        task: self.next_task,
                    },
                );
                started.push(
                    RepoStart {
                        name: name.clone(),
                        id: repo.id.duplicate(),
                        path: repo.path.duplicate(),
                        task: self.next_task,
                    },
                );
                assert(started@.map_values(shown) =~= before.map_values(shown).push(
                    started@.last()@,
                ));
                self.next_task = self.next_task + 1;
            }
            i = i + 1;
        }
        assert(list.take(len as int) =~= list);
        (stopped, started)
    }

    /// Drops the repos that left the mesh state or changed, unregistering them.
    fn drop_unregistered(&mut self, hub: &mut SyncHub, state: &MeshState) -> (stopped: Vec<u64>)
        requires
            old(hub)@.announce_seq + old(self)@.repos.len() <= u64::MAX,
        ensures
            final(self)@ == (RepoSetView {
                repos: sorted_map::reworked(old(self)@.repos, keeping(state@.repos)),
                ..old(self)@
            }),
            final(hub)@ == unregistered_all(old(hub)@, stopped_by(old(self)@, state@.repos)),
            stopped@ == stopped_by(old(self)@, state@.repos).map_values(
                |s: (Seq<char>, u64)| s.1,
            ),
    {
        let ghost repos = self.repos@;
        let ghost list = sorted_map::listing::<String, HandleView>(repos);
        let ghost keep = keeping(state@.repos);
        let ghost gone = dropping(state@.repos);
        let ghost second = |s: (Seq<char>, u64)| s.1;
        let mut stopped: Vec<u64> = Vec::new();
        let mut left: SortedMap<String, RepoHandle> = SortedMap::new();
        let len: usize = self.repos.len();
        let mut i: usize = 0;
        proof {
            self.repos.lemma_finite();
        }
        assert(list.skip(0) =~= list);
        assert(stopped@ =~= sorted_map::kept(list.take(0), gone).map_values(second));
        while i < len
            invariant
                i <= len,
                len == list.len(),
                keep == keeping(state@.repos),
                gone == dropping(state@.repos),
                second == (|s: (Seq<char>, u64)| s.1),
                sorted_map::listing::<String, HandleView>(self.repos@) == list.skip(i as int),
                left@ == sorted_map::map_of(sorted_map::kept(list.take(i as int), keep)),
                stopped@ == sorted_map::kept(list.take(i as int), gone).map_values(second),
                hub@ == unregistered_all(
                    old(hub)@,
                    sorted_map::kept(list.take(i as int), gone),
                ),
                hub@.announce_seq <= old(hub)@.announce_seq + i,
                old(hub)@.announce_seq + len <= u64::MAX,
                self.next_task == old(self).next_task,
            decreases len - i,
        {
            let (name, handle): (String, RepoHandle) = self.repos.take_first();
            assert((name@, handle@) == list[i as int]);
            assert(list.skip(i as int).skip(1) =~= list.skip(i + 1));
            let ghost dropped = sorted_map::kept(list.take(i as int), gone);
            proof {
                sorted_map::lemma_kept_step(list, i as int, keep);
                sorted_map::lemma_kept_step(list, i as int, gone);
            }
            let keep_it: bool = match state.repos.get(&name) {
                Some(repo) => handle.path.same_path(&repo.path) && handle.id.same(&repo.id),
                None => false,
            };
            if keep_it {
                left.insert(name, handle);
            } else {
                stopped.push(handle.task);
                hub.unregister_repo(name.as_str());
                proof {
                    let now_dropped = sorted_map::kept(list.take(i + 1), gone);
                    assert(now_dropped == dropped.push((name@, handle@.task)));
                    assert(now_dropped.drop_last() =~= dropped);
                    assert(now_dropped.map_values(second) =~= dropped.map_values(second).push(
                        handle@.task,
                    ));
                }
            }
            i = i + 1;
        }
        proof {
            assert(list.take(len as int) =~= list);
            sorted_map::lemma_kept::<String, HandleView, HandleView>(repos, keep);
        }
        self.repos = left;
        stopped
    }

    /// Records a task's state. A task that was stopped has no say anymore.
    pub fn set_state(&mut self, name: &str, task: u64, state: RepoState)
        ensures
            final(self)@ == if old(self)@.repos.contains_key(name@) && old(self)@.repos[name@].task
                == task {
                RepoSetView {
                    repos: old(self)@.repos.insert(
                        name@,
                        HandleView { state: state@, ..old(self)@.repos[name@] },
                    ),
                    ..old(self)@
                }
            } else {
                old(self)@
            },
    {
        let key = name.to_owned();
        let live: bool = match self.repos.get(&key) {
            Some(handle) => handle.task == task,
            None => false,
        };
        if !live {
            return;
        }
        if let Some(handle) = self.repos.remove(&key) {
            self.repos.insert(
                key,
                RepoHandle { id: handle.id, path: handle.path, state, task: handle.task },
            );
            assert(self@.repos =~= old(self)@.repos.insert(name@, self@.repos[name@]));
        }
    }

    /// Condenses every repo's state into the health report peers see. Local
    /// detail (paths, error messages) deliberately stays out: error strings
    /// embed filesystem paths, which never leave this machine.
    pub fn health(&self, hub: &SyncHub) -> (health: Vec<RepoHealth>)
        ensures
            crate::net::sync::healths_view(health@) == sorted_map::listing::<String, HandleView>(
                self@.repos,
            ).map_values(
                |e: (Seq<char>, HandleView)|
                    RepoHealthView {
                        name: e.0,
                        state: health_of(e.1.state, crate::daemon::hub::paused(hub@, e.0)),
                    },
            ),
    {
        let ghost list = sorted_map::listing::<String, HandleView>(self.repos@);
        let ghost shown = |e: (Seq<char>, HandleView)|
            RepoHealthView {
                name: e.0,
                state: health_of(e.1.state, crate::daemon::hub::paused(hub@, e.0)),
            };
        let mut health: Vec<RepoHealth> = Vec::new();
        let len: usize = self.repos.len();
        let mut i: usize = 0;
        assert(crate::net::sync::healths_view(health@) =~= list.take(0).map_values(shown));
        while i < len
            invariant
                i <= len,
                len == list.len(),
                list == sorted_map::listing::<String, HandleView>(self.repos@),
                shown == (|e: (Seq<char>, HandleView)|
                    RepoHealthView {
                        name: e.0,
                        state: health_of(e.1.state, crate::daemon::hub::paused(hub@, e.0)),
                    }),
                crate::net::sync::healths_view(health@) == list.take(i as int).map_values(shown),
            decreases len - i,
        {
            let (name, handle): (&String, &RepoHandle) = self.repos.entry_at(i);
            let ghost before = health@;
            let state = if hub.is_paused(name.as_str()) {
                RepoHealthState::Paused
            } else {
                match &handle.state {
                    RepoState::Opening => RepoHealthState::Healthy,
                    RepoState::Watching { .. } => RepoHealthState::Healthy,
                    RepoState::Indexing => RepoHealthState::Healthy,
                    RepoState::Backoff { .. } => RepoHealthState::Failed,
                    RepoState::Missing { .. } => RepoHealthState::Missing,
                }
            };
            health.push(RepoHealth { name: name.clone(), state });
            assert(crate::net::sync::healths_view(health@) =~= crate::net::sync::healths_view(
                before,
            ).push(shown(list[i as int])));
            assert(list.take(i + 1).map_values(shown) =~= list.take(i as int).map_values(
                shown,
            ).push(shown(list[i as int])));
            i = i + 1;
        }
        assert(list.take(len as int) =~= list);
        health
    }

    /// Snapshots the state of every repo for the control socket.
    pub fn statuses(&self, now: u64, wall: u64) -> (statuses: Vec<RepoStatus>)
        ensures
            statuses@.map_values(|s: RepoStatus| s@) == sorted_map::listing::<String, HandleView>(
                self@.repos,
            ).map_values(
                |e: (Seq<char>, HandleView)|
                    RepoStatusView {
                        name: e.0,
                        path: e.1.path,
                        watch: watch_of(e.1.state, now, wall),
                    },
            ),
    {
        let ghost list = sorted_map::listing::<String, HandleView>(self.repos@);
        let ghost shown = |e: (Seq<char>, HandleView)|
            RepoStatusView {
                name: e.0,
                path: e.1.path,
                watch: watch_of(e.1.state, now, wall),
            };
        let ghost view = |s: RepoStatus| s@;
        let mut statuses: Vec<RepoStatus> = Vec::new();
        let len: usize = self.repos.len();
        let mut i: usize = 0;
        assert(statuses@.map_values(view) =~= list.take(0).map_values(shown));
        while i < len
            invariant
                i <= len,
                len == list.len(),
                list == sorted_map::listing::<String, HandleView>(self.repos@),
                view == (|s: RepoStatus| s@),
                shown == (|e: (Seq<char>, HandleView)|
                    RepoStatusView {
                        name: e.0,
                        path: e.1.path,
                        watch: watch_of(e.1.state, now, wall),
                    }),
                statuses@.map_values(view) == list.take(i as int).map_values(shown),
            decreases len - i,
        {
            let (name, handle): (&String, &RepoHandle) = self.repos.entry_at(i);
            let ghost before = statuses@;
            let watch = match &handle.state {
                RepoState::Opening => WatchStatus::Opening,
                RepoState::Indexing => WatchStatus::Indexing,
                RepoState::Watching { op_heads, last_change, last_sync } => WatchStatus::Watching {
                    op_heads: *op_heads as u64,
                    last_change_secs: whole_secs_since(*last_change, wall),
                    last_sync_secs: whole_secs_since(*last_sync, wall),
                },
                RepoState::Backoff { until, error } => WatchStatus::Failed {
                    error: error.clone(),
                    retry_in_secs: whole_secs(now, *until),
                },
                RepoState::Missing { until } => WatchStatus::Missing {
                    retry_in_secs: whole_secs(now, *until),
                },
            };
            statuses.push(RepoStatus { name: name.clone(), path: handle.path.duplicate(), watch });
            assert(statuses@.last()@ == shown(list[i as int]));
            assert(statuses@.map_values(view) =~= before.map_values(view).push(
                shown(list[i as int]),
            ));
            assert(list.take(i + 1).map_values(shown) =~= list.take(i as int).map_values(
                shown,
            ).push(shown(list[i as int])));
            i = i + 1;
        }
        assert(list.take(len as int) =~= list);
        statuses
    }
}

} // verus!
