//! What a repo's watch does about what happens around it, told by what it reads,
//! keeps and passes on.

use vstd::prelude::*;

use super::snapshot::{SNAPSHOT_DUTY_DIVISOR, Snapshotting};
use super::task::{
    BACKOFF_MAX, BACKOFF_MIN, Drained, FETCH_RETRY, Handled, MAX_ANNOUNCED_HEADS, MAX_ERROR_LEN,
    STABLE_WATCH, TaskView, Wake,
};
use super::{HandleView, Managed, RepoSetView, RepoStateView, StartView};
use crate::config::settings::RepoSettings;
use crate::config::state::repo::RepoView;
use crate::daemon::control::protocol::WatchView;
use crate::daemon::health::ReporterView;
use crate::daemon::hub::inbox::{PeerAnnounceView, SlotView};
use crate::daemon::hub::HubView;
use crate::net::sync::{RepoHealthState, RepoHealthView, StatusReportView};
use crate::sorted_map;

verus! {

/// A watch looks at the repo whenever its op heads may have changed, an
/// announcement may be waiting, a retry is due, or it idled while its directory
/// is there. Only working copy events leave it waiting, only a due snapshot runs
/// one, and only a directory that is gone ends it.
pub proof fn wakeups_lead_to_their_step(wake: Wake)
    ensures
        ({
            let step = super::task::step_for(wake);
            &&& wake is HeadsChanged ==> step is Check
            &&& wake is Announced ==> step is Check
            &&& wake is RetryDue ==> step is Check
            &&& wake == (Wake::Idle { present: true }) ==> step is Check
            &&& step is Wait <==> wake is TreeChanged || wake is TreeFailed
            &&& step is Snapshot <==> wake is SnapshotDue
            &&& step is Gone <==> wake == (Wake::Idle { present: false })
        }),
{
}

/// A wakeup itself changes a watch only in two ways: an edit arms a snapshot,
/// and a failed working copy watch is given up.
pub proof fn wakeups_keep_what_the_watch_knows(t: TaskView, wake: Wake, now: u64)
    ensures
        ({
            let after = super::task::woken(t, wake, now);
            &&& after.settings == t.settings
            &&& after.heads == t.heads
            &&& after.last_change == t.last_change
            &&& after.last_sync == t.last_sync
            &&& after.retry_at == t.retry_at
            &&& after.tree == (t.tree && !(wake is TreeFailed))
            &&& !(wake is TreeChanged) ==> after.snap == t.snap
            &&& wake is TreeChanged && t.settings.snapshot_interval is None ==> after.snap
                == t.snap
            &&& wake is TreeChanged ==> after.snap.earliest == t.snap.earliest
            &&& wake is TreeChanged && t.snap.deadline is Some ==> after.snap == t.snap
        }),
{
}

/// An edit arms a snapshot exactly one configured interval out, in seconds,
/// unless the last snapshot asks for a longer gap.
pub proof fn edits_arm_a_snapshot(t: TaskView, now: u64, secs: u64)
    requires
        t.settings.snapshot_interval is Some,
        t.settings.snapshot_interval->Some_0 == secs,
        now + secs * 1000 <= u64::MAX,
        t.snap.deadline is None,
    ensures
        ({
            let after = super::task::woken(t, Wake::TreeChanged, now).snap;
            let wanted = now + secs * 1000;
            &&& after.deadline is Some
            &&& after.deadline->Some_0 >= wanted
            &&& t.snap.earliest is None ==> after.deadline->Some_0 == wanted
            &&& t.snap.earliest is Some && t.snap.earliest->Some_0 <= wanted
                ==> after.deadline->Some_0 == wanted
            &&& t.snap.earliest is Some && t.snap.earliest->Some_0 > wanted
                ==> after.deadline == t.snap.earliest
        }),
{
}

/// A schedule armed with an interval has a deadline no earlier than that
/// interval from now or the floor the last snapshot set, and at one of the two.
pub proof fn arming_sets_the_deadline(s: Snapshotting, interval: u64, now: u64)
    requires
        now + interval <= u64::MAX,
    ensures
        ({
            let after = super::snapshot::armed(s, Some(interval), now);
            let d = after.deadline->Some_0;
            &&& after.earliest == s.earliest
            &&& after.deadline is Some
            &&& s.deadline is Some ==> after.deadline == s.deadline
            &&& s.deadline is None ==> {
                &&& d >= now + interval
                &&& s.earliest is Some ==> d >= s.earliest->Some_0
                &&& d == now + interval || s.earliest == Some(d)
            }
            &&& super::snapshot::armed(s, None, now) == s
        }),
        SNAPSHOT_DUTY_DIVISOR == 2,
{
}

/// A settled wakeup publishes exactly when the heads it read differ from those
/// it knew, and heals the working copy exactly after a sync that left a single
/// head, where that is enabled.
pub proof fn settling_follows_the_heads(t: TaskView, drained: Drained, heads: Seq<Seq<u8>>)
    ensures
        ({
            let settled = super::task::settling(t, drained, heads);
            &&& settled.changed <==> heads != t.heads
            &&& settled.update_stale <==> drained.synced && heads.len() == 1
                && t.settings.update_stale
        }),
{
}

/// A settled watch knows the heads it read, when it last synced and changed, and
/// when to retry; healing the working copy stands in for a pending snapshot.
pub proof fn settled_watches_are_up_to_date(
    t: TaskView,
    drained: Drained,
    heads: Seq<Seq<u8>>,
    now: u64,
    wall: u64,
)
    requires
        now + FETCH_RETRY <= u64::MAX,
    ensures
        ({
            let after = super::task::settled_task(t, drained, heads, now, wall);
            let heals = drained.synced && heads.len() == 1 && t.settings.update_stale;
            &&& after.heads == heads
            &&& after.settings == t.settings
            &&& after.tree == t.tree
            &&& drained.synced ==> after.last_sync == Some(wall)
            &&& !drained.synced ==> after.last_sync == t.last_sync
            &&& heads != t.heads ==> after.last_change == Some(wall)
            &&& heads == t.heads ==> after.last_change == t.last_change
            &&& drained.retry ==> after.retry_at is Some && after.retry_at->Some_0 == now
                + FETCH_RETRY
            &&& !drained.retry ==> after.retry_at is None
            &&& after.snap.earliest == t.snap.earliest
            &&& heals ==> after.snap.deadline is None
            &&& !heals ==> after.snap.deadline == t.snap.deadline
        }),
{
}

/// A watch starts with the heads it found and nothing else behind it.
pub proof fn watches_start_with_their_heads(settings: RepoSettings, heads: Seq<Seq<u8>>)
    ensures
        ({
            let t = super::task::started_task(settings, heads);
            &&& t.settings == settings
            &&& t.heads == heads
            &&& t.last_change is None
            &&& t.last_sync is None
            &&& t.snap.deadline is None
            &&& t.snap.earliest is None
            &&& !t.tree
            &&& t.retry_at is None
        }),
{
}

/// Starting a watch on a registered repo makes it servable from its stores and
/// tells every connected peer its heads and whether it is colocated.
pub proof fn starting_a_watch_announces_the_repo(
    h: HubView,
    name: Seq<char>,
    id: Seq<char>,
    handle: u64,
    colocated: bool,
    heads: Seq<Seq<u8>>,
)
    requires
        h.repos.contains_key(name),
        h.repos[name].id == id,
    ensures
        ({
            let open = super::task::opened(h, name, id, handle, colocated);
            let after = crate::daemon::hub::published(open, name, id, heads);
            let e = h.repos[name];
            let f = after.repos[name];
            &&& after.repos.contains_key(name)
            &&& f.serving is Some
            &&& f.serving->Some_0.handle == handle
            &&& f.serving->Some_0.active == 0
            &&& f.local_colocated == colocated
            &&& f.published == Some(heads)
            &&& f.id == e.id
            &&& f.inbox == e.inbox
            &&& f.conflicts == e.conflicts
            &&& f.colocated_peers == e.colocated_peers
            &&& after.repos.remove(name) == h.repos.remove(name)
            &&& after.orphans == h.orphans
            &&& after.reports == h.reports
            &&& forall|p: Seq<u8>| #[trigger]
                h.peers.contains_key(p) ==> {
                    let told = after.peers[p].outbox.announces;
                    &&& told.contains_key(name)
                    &&& told[name].heads == heads
                    &&& told[name].id == id
                    &&& told[name].colocated == colocated
                }
        }),
{
    let open = super::task::opened(h, name, id, handle, colocated);
    let after = crate::daemon::hub::published(open, name, id, heads);
    crate::daemon::hub::guarantees::published_heads_reach_every_peer(open, name, id, heads);
    assert(open.peers == h.peers);
    assert(after.repos.remove(name) =~= h.repos.remove(name));
}

/// A task of a repo that is not registered under its id, because it was replaced
/// or removed, changes nothing in the hub.
pub proof fn replaced_tasks_have_no_say(
    h: HubView,
    name: Seq<char>,
    id: Seq<char>,
    handle: u64,
    colocated: bool,
    announce: PeerAnnounceView,
    handled: Handled,
)
    requires
        !h.repos.contains_key(name) || h.repos[name].id != id,
    ensures
        super::task::opened(h, name, id, handle, colocated) == h,
        super::task::closed(h, name, id) == h,
        super::task::hub_after(h, name, id, announce, handled) == h,
{
}

/// Closing a repo's stores stops serving it and changes nothing else.
pub proof fn closed_repos_are_not_served(h: HubView, name: Seq<char>, id: Seq<char>)
    requires
        h.repos.contains_key(name),
        h.repos[name].id == id,
    ensures
        ({
            let after = super::task::closed(h, name, id);
            &&& after.repos.contains_key(name)
            &&& after.repos[name].serving is None
            &&& after.repos[name].id == id
            &&& after.repos[name].published == h.repos[name].published
            &&& after.repos[name].seq == h.repos[name].seq
            &&& after.repos[name].inbox == h.repos[name].inbox
            &&& after.repos[name].conflicts == h.repos[name].conflicts
            &&& after.repos[name].local_colocated == h.repos[name].local_colocated
            &&& after.repos[name].colocated_peers == h.repos[name].colocated_peers
            &&& after.repos.remove(name) == h.repos.remove(name)
            &&& after.peers == h.peers
            &&& after.orphans == h.orphans
            &&& forall|peer: Seq<u8>| #[trigger]
                crate::daemon::hub::fetch_answer(after, peer, name, id)
                    == crate::daemon::hub::FetchAnswer::Unavailable
        }),
{
    assert(super::task::closed(h, name, id).repos.remove(name) =~= h.repos.remove(name));
}

/// A handled announcement counts as a sync exactly when it was fetched and asks
/// for a retry exactly when it failed; what was counted before stays counted.
pub proof fn drains_count_what_happened(d: Drained, handled: Handled)
    ensures
        super::task::drained_after(d, handled).synced <==> d.synced || handled is Fetched,
        super::task::drained_after(d, handled).retry <==> d.retry || handled is Failed,
{
}

/// The heads of a failed fetch wait in the repo's inbox again, as announced,
/// unless the peer announced something newer meanwhile; one that succeeded or
/// had nothing to do leaves the inbox alone.
pub proof fn failed_fetches_are_retried(
    h: HubView,
    name: Seq<char>,
    id: Seq<char>,
    announce: PeerAnnounceView,
    handled: Handled,
)
    requires
        h.repos.contains_key(name),
        h.repos[name].id == id,
    ensures
        ({
            let after = super::task::hub_after(h, name, id, announce, handled);
            let slots = h.repos[name].inbox;
            let current = slots.contains_key(announce.peer) && slots[announce.peer].seq
                == announce.seq && slots[announce.peer].drained;
            &&& !(handled is Failed) ==> after == h
            &&& handled is Failed && current ==> {
                &&& after.repos[name].inbox.contains_key(announce.peer)
                &&& after.repos[name].inbox[announce.peer] == (SlotView {
                    seq: announce.seq,
                    heads: announce.heads,
                    drained: false,
                })
            }
            &&& !current ==> after.repos[name].inbox == slots
            &&& after.repos[name].inbox.remove(announce.peer) == slots.remove(announce.peer)
            &&& after.repos[name].published == h.repos[name].published
            &&& after.repos[name].conflicts == h.repos[name].conflicts
            &&& after.repos[name].serving == h.repos[name].serving
            &&& after.repos.remove(name) == h.repos.remove(name)
            &&& after.peers == h.peers
            &&& after.orphans == h.orphans
            &&& after.announce_seq == h.announce_seq
        }),
{
    let after = super::task::hub_after(h, name, id, announce, handled);
    assert(after.repos.remove(name) =~= h.repos.remove(name));
    assert(after.repos[name].inbox.remove(announce.peer) =~= h.repos[name].inbox.remove(
        announce.peer,
    ));
}

/// An announcement is taken seriously exactly when it carries at most the
/// accepted number of heads, each of the length of an operation id. It is then
/// held while the repo is paused, and compared with what is known otherwise.
pub proof fn sound_announcements_are_compared(heads: Seq<Seq<u8>>, id_len: nat, paused: bool)
    ensures
        ({
            let screened = super::task::screening(heads, id_len, paused);
            let sound = heads.len() <= MAX_ANNOUNCED_HEADS && forall|i: int|
                0 <= i < heads.len() ==> (#[trigger] heads[i]).len() == id_len;
            &&& screened is Malformed <==> !sound
            &&& screened is Held <==> sound && paused
            &&& screened is Compare <==> sound && !paused
        }),
        MAX_ANNOUNCED_HEADS == 64,
{
}

/// What is fetched of an announcement are exactly the heads not known here.
pub proof fn missing_heads_are_the_unknown_ones(
    heads: Seq<Seq<u8>>,
    known: Seq<bool>,
    head: Seq<u8>,
)
    requires
        heads.len() == known.len(),
    ensures
        super::task::missing_of(heads, known).contains(head) <==> exists|i: int|
            0 <= i < heads.len() && #[trigger] heads[i] == head && !known[i],
        super::task::missing_of(heads, known).len() <= heads.len(),
    decreases heads.len(),
{
    if heads.len() > 0 {
        let some = heads.drop_last();
        let flags = known.drop_last();
        missing_heads_are_the_unknown_ones(some, flags, head);
        assert(forall|i: int| 0 <= i < some.len() ==> #[trigger] some[i] == heads[i]);
        assert(forall|i: int| 0 <= i < flags.len() ==> #[trigger] flags[i] == known[i]);
        assert(heads[heads.len() - 1] == heads.last());
        assert(known[known.len() - 1] == known.last());
        let before = super::task::missing_of(some, flags);
        let after = super::task::missing_of(heads, known);
        if before.contains(head) {
            let i = choose|i: int| 0 <= i < before.len() && before[i] == head;
            assert(after[i] == head);
            let n = choose|n: int|
                0 <= n < some.len() && #[trigger] some[n] == head && !flags[n];
            assert(heads[n] == head && !known[n]);
        }
        if heads.last() == head && !known.last() {
            assert(after.last() == head);
            assert(after[after.len() - 1] == head);
        }
        if after.contains(head) {
            let i = choose|i: int| 0 <= i < after.len() && after[i] == head;
            if i < before.len() {
                assert(before[i] == head);
            }
        }
        if exists|i: int| 0 <= i < heads.len() && #[trigger] heads[i] == head && !known[i] {
            let i = choose|i: int|
                0 <= i < heads.len() && #[trigger] heads[i] == head && !known[i];
            if i < some.len() {
                assert(some[i] == head && !flags[i]);
            }
        }
    }
}

/// A stored error is the error itself while it is short enough; a longer one
/// keeps its beginning, with its end marked.
pub proof fn stored_errors_keep_their_beginning(error: Seq<char>, i: int)
    ensures
        ({
            let stored = super::task::stored_error(error);
            &&& error.len() <= MAX_ERROR_LEN ==> stored == error
            &&& error.len() > MAX_ERROR_LEN ==> {
                &&& stored.len() == MAX_ERROR_LEN + 1
                &&& stored[MAX_ERROR_LEN as int] == '\u{2026}'
                &&& 0 <= i < MAX_ERROR_LEN ==> stored[i] == error[i]
            }
        }),
        MAX_ERROR_LEN == 256,
        BACKOFF_MIN == 1_000,
        BACKOFF_MAX == 60_000,
        STABLE_WATCH == 10_000,
        FETCH_RETRY == 30_000,
{
}

/// A managed repo is kept exactly while it is registered under its name, at its
/// place and with its id.
pub proof fn kept_repos_are_the_registered_ones(
    target: Map<Seq<char>, RepoView>,
    name: Seq<char>,
    handle: HandleView,
)
    ensures
        super::keeps(target, name, handle) <==> {
            &&& target.contains_key(name)
            &&& crate::config::path::same_path(handle.path, target[name].path)
            &&& handle.id == target[name].id
        },
{
}

/// A sync stops exactly the tasks of the repos that are not registered anymore,
/// or are registered at another place or with another id.
pub proof fn tasks_stop_with_their_repos(
    s: RepoSetView,
    target: Map<Seq<char>, RepoView>,
    name: Seq<char>,
    task: u64,
)
    requires
        s.repos.dom().finite(),
    ensures
        super::stopped_by(s, target).contains((name, task)) <==> {
            &&& s.repos.contains_key(name)
            &&& s.repos[name].task == task
            &&& !(target.contains_key(name) && crate::config::path::same_path(
                s.repos[name].path,
                target[name].path,
            ) && s.repos[name].id == target[name].id)
        },
{
    sorted_map::kept_entries_are_those_chosen::<String, HandleView, u64>(
        s.repos,
        super::dropping(target),
    );
}

/// A sync starts exactly one kind of task: one for each registered repo that had
/// none, at its path and under its id, with a number no earlier task had, and
/// the repo is opening from then on.
pub proof fn tasks_start_with_their_repos(
    s: RepoSetView,
    h: HubView,
    target: Map<Seq<char>, RepoView>,
    start: StartView,
)
    requires
        s.repos.dom().finite(),
        target.dom().finite(),
        s.next_task + target.len() <= u64::MAX,
    ensures
        ({
            let after = super::synced(s, h, target);
            let kept = s.repos.contains_key(start.name) && crate::config::path::same_path(
                s.repos[start.name].path,
                target[start.name].path,
            ) && s.repos[start.name].id == target[start.name].id;
            &&& after.started.contains(start) ==> {
                &&& target.contains_key(start.name)
                &&& !kept
                &&& start.id == target[start.name].id
                &&& start.path == target[start.name].path
                &&& s.next_task <= start.task < after.next_task
            }
            &&& target.contains_key(start.name) && !kept ==> {
                let made = after.repos[start.name];
                &&& after.repos.contains_key(start.name)
                &&& made.id == target[start.name].id
                &&& made.path == target[start.name].path
                &&& made.state is Opening
                &&& after.started.contains(
                    StartView {
                        name: start.name,
                        id: made.id,
                        path: made.path,
                        task: made.task,
                    },
                )
            }
        }),
{
    let list = sorted_map::listing::<String, RepoView>(target);
    sorted_map::lemma_listing_exists::<String, RepoView>(target);
    sorted_map::lemma_listing_len::<String, RepoView>(target);
    let base = Managed {
        repos: sorted_map::reworked(s.repos, super::keeping(target)),
        next_task: s.next_task,
        hub: super::unregistered_all(h, super::stopped_by(s, target)),
        started: Seq::empty(),
    };
    lemma_started(base, list, start);
    lemma_taken_in(base, list, start.name);
    let after = super::synced(s, h, target);
    if after.started.contains(start) {
        let i = choose|i: int|
            0 <= i < list.len() && (#[trigger] list[i]).0 == start.name && list[i].1.id == start.id
                && list[i].1.path == start.path;
        assert(target[list[i].0] == list[i].1);
    }
    if target.contains_key(start.name) {
        let i = choose|i: int| 0 <= i < list.len() && (#[trigger] list[i]).0 == start.name;
        assert(target[list[i].0] == list[i].1);
        if !base.repos.contains_key(start.name) {
            let n = choose|n: int|
                0 <= n < list.len() && (#[trigger] list[n]).0 == start.name
                    && after.repos[start.name].id == list[n].1.id && after.repos[start.name].path
                    == list[n].1.path;
            assert(target[list[n].0] == list[n].1);
        }
    }
}

proof fn lemma_started(m: Managed, list: Seq<(Seq<char>, RepoView)>, start: StartView)
    requires
        m.next_task + list.len() <= u64::MAX,
        m.started.len() == 0,
    ensures
        ({
            let after = super::manage_all(m, list);
            &&& m.next_task <= after.next_task <= m.next_task + list.len()
            &&& after.started.contains(start) ==> {
                &&& m.next_task <= start.task < after.next_task
                &&& !m.repos.contains_key(start.name)
                &&& exists|i: int|
                    0 <= i < list.len() && (#[trigger] list[i]).0 == start.name && list[i].1.id
                        == start.id && list[i].1.path == start.path
            }
            &&& m.repos.contains_key(start.name) ==> after.repos.contains_key(start.name)
        }),
    decreases list.len(),
{
    if list.len() > 0 {
        let rest = list.drop_last();
        lemma_started(m, rest, start);
        assert(forall|i: int| 0 <= i < rest.len() ==> #[trigger] rest[i] == list[i]);
        assert(list[list.len() - 1] == list.last());
        let before = super::manage_all(m, rest);
        let after = super::manage_all(m, list);
        if after.started.contains(start) {
            let n = choose|n: int| 0 <= n < after.started.len() && after.started[n] == start;
            if n < before.started.len() {
                assert(before.started[n] == start);
                let i = choose|i: int|
                    0 <= i < rest.len() && (#[trigger] rest[i]).0 == start.name && rest[i].1.id
                        == start.id && rest[i].1.path == start.path;
                assert(list[i].0 == start.name);
            }
        }
    }
}

proof fn lemma_taken_in(m: Managed, list: Seq<(Seq<char>, RepoView)>, name: Seq<char>)
    ensures
        ({
            let after = super::manage_all(m, list);
            let listed = exists|i: int| 0 <= i < list.len() && (#[trigger] list[i]).0 == name;
            let made = after.repos[name];
            &&& m.repos.contains_key(name) ==> after.repos.contains_key(name)
                && after.repos[name] == m.repos[name]
            &&& !m.repos.contains_key(name) ==> (after.repos.contains_key(name) <==> listed)
            &&& !m.repos.contains_key(name) && listed ==> {
                &&& made.state is Opening
                &&& exists|i: int|
                    0 <= i < list.len() && (#[trigger] list[i]).0 == name && made.id
                        == list[i].1.id && made.path == list[i].1.path
                &&& after.started.contains(
                    StartView { name, id: made.id, path: made.path, task: made.task },
                )
            }
        }),
    decreases list.len(),
{
    if list.len() > 0 {
        let rest = list.drop_last();
        lemma_taken_in(m, rest, name);
        assert(forall|i: int| 0 <= i < rest.len() ==> #[trigger] rest[i] == list[i]);
        assert(list[list.len() - 1] == list.last());
        let before = super::manage_all(m, rest);
        let after = super::manage_all(m, list);
        let made = after.repos[name];
        if exists|i: int| 0 <= i < rest.len() && (#[trigger] rest[i]).0 == name {
            let i = choose|i: int| 0 <= i < rest.len() && (#[trigger] rest[i]).0 == name;
            assert(list[i].0 == name);
        }
        if !m.repos.contains_key(name) && before.repos.contains_key(name) {
            let wanted = StartView { name, id: made.id, path: made.path, task: made.task };
            let n = choose|n: int| 0 <= n < before.started.len() && before.started[n] == wanted;
            assert(after.started[n] == wanted);
            let i = choose|i: int|
                0 <= i < rest.len() && (#[trigger] rest[i]).0 == name && made.id == rest[i].1.id
                    && made.path == rest[i].1.path;
            assert(list[i].0 == name);
        }
        if !before.repos.contains_key(name) && list.last().0 == name {
            assert(after.started.last() == (StartView {
                name,
                id: made.id,
                path: made.path,
                task: made.task,
            }));
            assert(after.started[after.started.len() - 1] == after.started.last());
        }
        if exists|i: int| 0 <= i < list.len() && (#[trigger] list[i]).0 == name {
            let i = choose|i: int| 0 <= i < list.len() && (#[trigger] list[i]).0 == name;
            if i < rest.len() {
                assert(rest[i].0 == name);
            }
        }
    }
}

/// Peers see a paused repo as paused whatever its watch does, one that fails as
/// failed, one whose directory is gone as missing, and any other as healthy.
pub proof fn health_follows_the_watch(state: RepoStateView, paused: bool)
    ensures
        ({
            let health = super::health_of(state, paused);
            &&& health is Paused <==> paused
            &&& health is Failed <==> !paused && state is Backoff
            &&& health is Missing <==> !paused && state is Missing
            &&& health is Healthy <==> !paused && !(state is Backoff) && !(state is Missing)
        }),
{
}

/// A health report covers exactly the managed repos, each as it fares, under
/// this machine's versions.
pub proof fn reports_cover_every_repo(
    r: ReporterView,
    s: RepoSetView,
    h: HubView,
    name: Seq<char>,
    state: RepoHealthState,
)
    requires
        s.repos.dom().finite(),
    ensures
        ({
            let report = crate::daemon::health::report_of(r, s, h);
            &&& report.daemon_version == r.daemon_version
            &&& report.jj_version == r.jj_version
            &&& report.repos.len() == s.repos.len()
            &&& report.repos.contains(RepoHealthView { name, state }) <==> s.repos.contains_key(
                name,
            ) && state == super::health_of(
                s.repos[name].state,
                crate::daemon::hub::paused(h, name),
            )
        }),
{
    let list = sorted_map::listing::<String, HandleView>(s.repos);
    let repos = crate::daemon::health::report_of(r, s, h).repos;
    let shown = RepoHealthView { name, state };
    sorted_map::lemma_listing_exists::<String, HandleView>(s.repos);
    sorted_map::lemma_listing_len::<String, HandleView>(s.repos);
    assert forall|i: int| 0 <= i < list.len() implies (#[trigger] repos[i]).name == list[i].0
        && repos[i].state == super::health_of(
        s.repos[list[i].0].state,
        crate::daemon::hub::paused(h, list[i].0),
    ) by {
        assert(s.repos[list[i].0] == list[i].1);
    }
    if s.repos.contains_key(name) {
        let i = choose|i: int| 0 <= i < list.len() && (#[trigger] list[i]).0 == name;
        assert(repos[i].name == name);
        if repos[i].state == state {
            assert(repos[i] == shown);
        }
    }
    if repos.contains(shown) {
        let i = choose|i: int| 0 <= i < repos.len() && repos[i] == shown;
        assert(list[i].0 == name);
    }
}

/// A published report is what every connected peer is told, and what one that
/// connects later is told.
pub proof fn reports_reach_every_peer(h: HubView, report: StatusReportView, p: Seq<u8>)
    ensures
        ({
            let after = crate::daemon::health::reporting(h, report);
            &&& after.status == Some(report)
            &&& crate::daemon::hub::replay(after).status == Some(report)
            &&& after.peers.contains_key(p) <==> h.peers.contains_key(p)
            &&& h.peers.contains_key(p) ==> after.peers[p].outbox.status == Some(report)
                && after.peers[p].outbox.announces == h.peers[p].outbox.announces
                && after.peers[p].outbox.membership == h.peers[p].outbox.membership
                && after.peers[p].conn == h.peers[p].conn
            &&& after.repos == h.repos
            &&& after.orphans == h.orphans
            &&& after.reports == h.reports
            &&& after.membership == h.membership
            &&& after.announce_seq == h.announce_seq
        }),
{
}

/// Times are shown in whole seconds: the time that passed, rounded down, and
/// none for one that lies ahead.
pub proof fn elapsed_times_are_whole_seconds(from: u64, to: u64)
    ensures
        ({
            let secs = super::secs_between(from, to);
            &&& from <= to ==> secs * 1000 <= to - from < secs * 1000 + 1000
            &&& from > to ==> secs == 0
            &&& super::secs_since(Some(from), to) == Some(secs)
            &&& super::secs_since(None, to) is None
        }),
{
}

/// The status shows a watch as it is: changes and syncs by the seconds since
/// them, a failure with its error, and a failure or a missing directory by the
/// seconds until the next attempt.
pub proof fn watches_are_shown_as_they_are(state: RepoStateView, now: u64, wall: u64)
    ensures
        match (state, super::watch_of(state, now, wall)) {
            (RepoStateView::Opening, WatchView::Opening) => true,
            (RepoStateView::Indexing, WatchView::Indexing) => true,
            (
                RepoStateView::Watching { op_heads, last_change, last_sync },
                WatchView::Watching { op_heads: shown, last_change_secs, last_sync_secs },
            ) => {
                &&& op_heads <= u64::MAX ==> shown == op_heads
                &&& last_change is None <==> last_change_secs is None
                &&& last_sync is None <==> last_sync_secs is None
                &&& last_change is Some && last_change->Some_0 <= wall
                    ==> last_change_secs->Some_0 == (wall - last_change->Some_0) / 1000
                &&& last_sync is Some && last_sync->Some_0 <= wall ==> last_sync_secs->Some_0 == (
                wall - last_sync->Some_0) / 1000
            },
            (
                RepoStateView::Backoff { until, error },
                WatchView::Failed { error: shown, retry_in_secs },
            ) => {
                &&& shown == error
                &&& now <= until ==> retry_in_secs == (until - now) / 1000
                &&& now > until ==> retry_in_secs == 0
            },
            (RepoStateView::Missing { until }, WatchView::Missing { retry_in_secs }) => {
                &&& now <= until ==> retry_in_secs == (until - now) / 1000
                &&& now > until ==> retry_in_secs == 0
            },
            _ => false,
        },
{
}

} // verus!
