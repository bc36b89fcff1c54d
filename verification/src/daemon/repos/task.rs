//! The per-repo watch task: open, watch op heads, announce local changes, fetch
//! announced changes from peers, and drive the optional auto-snapshot and
//! update-stale jj runs.
//!
//! The task watches the repo's op-heads directory: every mutating jj command
//! atomically swaps head marker files there, so a change event means new
//! operations to announce. The task publishes its head set through the sync hub
//! (on change and on watch start) and fetches operations peers announce;
//! serving peer fetches is dispatched by the hub directly (never through this
//! task's loop, which may itself be fetching).
//!
//! Change detection compares the head set against the last one seen, which also
//! absorbs event bursts and spurious wakeups; the task's own head writes
//! (applying fetched operations) fold into that baseline before the comparison,
//! so self-triggered events are suppressed the same way.
//!
//! When auto-snapshotting is enabled, the task also watches the working copy
//! files: the first edit arms a snapshot one interval later (never
//! immediately), and edits during the wait do not postpone it, so continuous
//! editing snapshots at the configured cadence. The snapshot runs through the
//! jj binary and produces a regular operation, which the op-heads watch then
//! picks up and announces like any local change.
//!
//! Syncing operations from peers can leave the local working copy stale
//! (updated by an operation the working copy never saw). When enabled, `jj
//! workspace update-stale` runs after every sync that applied operations, and
//! once on watch start for staleness accrued while the daemon was down, but
//! only while the op head is single. Any jj command reconciles divergent op
//! heads by writing a merge operation, so daemons doing this on both ends of a
//! divergence would ping-pong fresh merge operations at each other. Divergence
//! is left to the next actual jj activity (a user command, an auto-snapshot),
//! whose merge then arrives here as a single head.
//!
//! The task is a state machine: the program around it waits for what wakes it,
//! reads heads, runs jj and fetches; what follows from each is decided here.
//! Times are milliseconds of the steady clock, and of the wall clock where they
//! are only shown.

use vstd::prelude::*;

use super::RepoState;
use super::snapshot::Snapshotting;
use crate::config::path::bytes_to_vec;
use crate::config::settings::RepoSettings;
use crate::config::state::repo::RepoId;
use crate::daemon::backoff::{Backoff, BackoffView};
use crate::daemon::hub::inbox::{PeerAnnounce, PeerAnnounceView};
use crate::daemon::hub::{HubView, RepoEntryView, SyncHub};
use crate::net::sync::duplicate_heads;
use crate::order::{Rel, relate_bytes, same_bytes};

verus! {

/// Retry delay after a failure to open or watch, in milliseconds; doubles up to
/// [`BACKOFF_MAX`]. Covers repos on unmounted disks or with unsupported
/// backends without hot-looping.
pub const BACKOFF_MIN: u64 = 1_000;

/// Ceiling of the retry delay.
pub const BACKOFF_MAX: u64 = 60_000;

/// A watch surviving this long resets the backoff.
pub const STABLE_WATCH: u64 = 10_000;

/// Cap on stored error strings: they embed bytes read from repo files, so their
/// length is not ours to trust, and they are cloned into every status response.
pub const MAX_ERROR_LEN: usize = 256;

/// Cap on head ids accepted in one announcement; legitimate divergence is a few
/// heads, anything more is a hostile or broken peer.
pub const MAX_ANNOUNCED_HEADS: usize = 64;

/// Delay before retrying a fetch that failed. The announcement was already
/// consumed, so without this a transient failure (a peer momentarily busy, a
/// dropped stream) would strand the change until the peer next announces or
/// reconnects. Kept coarse: the failures it covers are not urgent.
pub const FETCH_RETRY: u64 = 30_000;

/// An error as stored: cut at [`MAX_ERROR_LEN`] characters, the cut marked.
pub open spec fn stored_error(error: Seq<char>) -> Seq<char> {
    if error.len() > MAX_ERROR_LEN {
        error.take(MAX_ERROR_LEN as int).push('\u{2026}')
    } else {
        error
    }
}

/// Formats an error for storage, bounded by [`MAX_ERROR_LEN`].
pub fn truncated_error(error: &str) -> (stored: String)
    ensures
        stored@ == stored_error(error@),
{
    if error.unicode_len() > MAX_ERROR_LEN {
        let mut stored = error.substring_char(0, MAX_ERROR_LEN).to_owned();
        stored.push('\u{2026}');
        stored
    } else {
        error.to_owned()
    }
}

/// A stored error passes through display uncut.
pub proof fn stored_errors_are_shown_whole(error: Seq<char>)
    ensures
        stored_error(error).len() <= MAX_ERROR_LEN + 1,
        error.len() <= MAX_ERROR_LEN ==> crate::config::name::sanitized_bounded(
            stored_error(error),
        ) == crate::config::name::sanitized(error),
{
}

/// Whether heads ascend byte-wise.
pub open spec fn heads_ascend(heads: Seq<Seq<u8>>) -> bool {
    forall|i: int, j: int|
        0 <= i < j < heads.len() ==> !crate::order::bytes_before(
            #[trigger] heads[j],
            #[trigger] heads[i],
        )
}

/// Sorts op heads, so head sets compare across reads.
pub fn sorted_heads(heads: Vec<Vec<u8>>) -> (sorted: Vec<Vec<u8>>)
    ensures
        heads_ascend(crate::net::sync::heads_view(sorted@)),
        sorted@.to_multiset() == heads@.to_multiset(),
{
    let mut sorted: Vec<Vec<u8>> = Vec::new();
    let mut rest = heads;
    proof {
        vstd::seq_lib::lemma_multiset_commutative(rest@, sorted@);
        assert(rest@ + sorted@ =~= heads@);
    }
    while rest.len() > 0
        invariant
            heads_ascend(crate::net::sync::heads_view(sorted@)),
            rest@.to_multiset().add(sorted@.to_multiset()) == heads@.to_multiset(),
        decreases rest@.len(),
    {
        let ghost rest0 = rest@;
        let ghost sorted0 = sorted@;
        let head = rest.swap_remove(0);
        let mut at: usize = 0;
        while at < sorted.len() && relate_bytes(sorted[at].as_slice(), head.as_slice())
            == Rel::Before
            invariant
                at <= sorted@.len(),
                forall|i: int|
                    0 <= i < at ==> crate::order::bytes_before((#[trigger] sorted@[i])@, head@),
            decreases sorted@.len() - at,
        {
            at = at + 1;
        }
        let ghost h = head;
        proof {
            // Everything from `at` on is not before the head.
            let v = crate::net::sync::heads_view(sorted@);
            assert(forall|i: int| 0 <= i < v.len() ==> #[trigger] v[i] == sorted@[i]@);
            if at < sorted@.len() {
                crate::order::bytes_connected(sorted@[at as int]@, head@);
            }
            assert forall|i: int| at <= i < sorted@.len() implies !crate::order::bytes_before(
                (#[trigger] sorted@[i])@,
                head@,
            ) by {
                crate::order::bytes_irreflexive(head@);
                if crate::order::bytes_before(sorted@[i]@, head@) {
                    if i == at {
                        crate::order::bytes_chain(sorted@[i]@, head@, sorted@[i]@);
                        crate::order::bytes_irreflexive(sorted@[i]@);
                    } else {
                        // sorted[at] is not after sorted[i], so it is before the head too.
                        assert(!crate::order::bytes_before(v[i], v[at as int]));
                        crate::order::bytes_connected(v[i], v[at as int]);
                        if v[i] != v[at as int] {
                            crate::order::bytes_chain(v[at as int], v[i], head@);
                        }
                        assert(crate::order::bytes_before(v[at as int], head@));
                        crate::order::bytes_chain(v[at as int], head@, v[at as int]);
                        crate::order::bytes_irreflexive(v[at as int]);
                    }
                }
            }
        }
        sorted.insert(at, head);
        proof {
            let before = crate::net::sync::heads_view(sorted0);
            let after = crate::net::sync::heads_view(sorted@);
            assert(after =~= before.insert(at as int, h@));
            assert forall|i: int, j: int| 0 <= i < j < after.len() implies !crate::order::bytes_before(
                #[trigger] after[j],
                #[trigger] after[i],
            ) by {
                let i0 = if i < at { i } else { i - 1 };
                let j0 = if j < at { j } else { j - 1 };
                if i != at && j != at {
                    assert(after[i] == before[i0] && after[j] == before[j0]);
                } else if i == at {
                    assert(after[j] == before[j0]);
                    assert(before[j0] == sorted0[j0]@);
                } else {
                    assert(after[i] == before[i0]);
                    assert(before[i0] == sorted0[i0]@);
                    if crate::order::bytes_before(h@, before[i0]) {
                        crate::order::bytes_chain(h@, before[i0], h@);
                        crate::order::bytes_irreflexive(h@);
                    }
                }
            }
            lemma_swap_remove_multiset(rest0, 0);
            vstd::seq_lib::to_multiset_insert(sorted0, at as int, h);
            assert(rest@.to_multiset().insert(h) =~= rest0.to_multiset());
            assert(rest@.to_multiset().add(sorted@.to_multiset()) =~= heads@.to_multiset());
        }
    }
    proof {
        assert(rest@ =~= Seq::empty());
        rest@.to_multiset_ensures();
        assert(sorted@.to_multiset() =~= heads@.to_multiset());
    }
    sorted
}

proof fn lemma_swap_remove_multiset<A>(s: Seq<A>, i: int)
    requires
        0 <= i < s.len(),
    ensures
        s.update(i, s.last()).drop_last().to_multiset().insert(s[i]) == s.to_multiset(),
{
    let t = s.update(i, s.last()).drop_last();
    s.to_multiset_ensures();
    t.to_multiset_ensures();
    let last = s.last();
    let head = s.drop_last();
    head.to_multiset_ensures();
    assert(head.push(last) =~= s);
    if i == s.len() - 1 {
        assert(t =~= head);
    } else {
        assert(t =~= head.update(i, last));
        vstd::seq_lib::to_multiset_update(head, i, last);
    }
}

/// Whether two head sets are the same.
pub fn same_heads(a: &Vec<Vec<u8>>, b: &Vec<Vec<u8>>) -> (same: bool)
    ensures
        same == (crate::net::sync::heads_view(a@) == crate::net::sync::heads_view(b@)),
{
    let ghost va = crate::net::sync::heads_view(a@);
    let ghost vb = crate::net::sync::heads_view(b@);
    if a.len() != b.len() {
        assert(va.len() != vb.len());
        return false;
    }
    let mut i: usize = 0;
    while i < a.len()
        invariant
            i <= a@.len(),
            a@.len() == b@.len(),
            va == crate::net::sync::heads_view(a@),
            vb == crate::net::sync::heads_view(b@),
            forall|j: int| 0 <= j < i ==> va[j] == vb[j],
        decreases a@.len() - i,
    {
        if !same_bytes(a[i].as_slice(), b[i].as_slice()) {
            assert(va[i as int] != vb[i as int]);
            return false;
        }
        assert(va[i as int] == vb[i as int]);
        i = i + 1;
    }
    assert(va =~= vb);
    true
}

/// What a peer's announcement asks for before its heads are looked up.
#[derive(Clone, Copy, PartialEq, Eq, Structural, Debug)]
pub enum Screened {
    /// Not an announcement any machine would make; ignored.
    Malformed,
    /// Sync is paused: held for a retry, so the heads are fetched as soon as
    /// the pause lifts instead of being lost until the peer's next change.
    Held,
    /// Its heads are to be compared with the local ones.
    Compare,
}

/// What a peer's announcement asks for: nothing if it carries too many heads or
/// one that is no id, a retry while the repo is paused.
pub open spec fn screening(heads: Seq<Seq<u8>>, id_len: nat, paused: bool) -> Screened {
    if heads.len() > MAX_ANNOUNCED_HEADS || (exists|i: int|
        0 <= i < heads.len() && (#[trigger] heads[i]).len() != id_len) {
        Screened::Malformed
    } else if paused {
        Screened::Held
    } else {
        Screened::Compare
    }
}

/// The announced heads not known here.
pub open spec fn missing_of(heads: Seq<Seq<u8>>, known: Seq<bool>) -> Seq<Seq<u8>>
    decreases heads.len(),
{
    if heads.len() == 0 {
        Seq::empty()
    } else {
        let rest = missing_of(heads.drop_last(), known.drop_last());
        if known.last() {
            rest
        } else {
            rest.push(heads.last())
        }
    }
}

/// Screens a peer's head announcement; `id_len` is the length of this repo's
/// operation ids.
pub fn screen_announce(announce: &PeerAnnounce, id_len: usize, paused: bool) -> (screened: Screened)
    ensures
        screened == screening(announce@.heads, id_len as nat, paused),
{
    let ghost heads = announce@.heads;
    assert(heads.len() == announce.heads@.len());
    if announce.heads.len() > MAX_ANNOUNCED_HEADS {
        return Screened::Malformed;
    }
    let mut i: usize = 0;
    while i < announce.heads.len()
        invariant
            i <= announce.heads@.len(),
            announce.heads@.len() <= MAX_ANNOUNCED_HEADS,
            heads == crate::net::sync::heads_view(announce.heads@),
            forall|j: int| 0 <= j < i ==> (#[trigger] heads[j]).len() == id_len,
        decreases announce.heads@.len() - i,
    {
        assert(heads[i as int] == announce.heads@[i as int]@);
        if announce.heads[i].len() != id_len {
            return Screened::Malformed;
        }
        i = i + 1;
    }
    if paused {
        Screened::Held
    } else {
        Screened::Compare
    }
}

/// The announced heads to fetch, given which ones are known here.
pub fn missing_heads(heads: &Vec<Vec<u8>>, known: &Vec<bool>) -> (missing: Vec<Vec<u8>>)
    requires
        heads@.len() == known@.len(),
    ensures
        crate::net::sync::heads_view(missing@) == missing_of(
            crate::net::sync::heads_view(heads@),
            known@,
        ),
{
    let ghost all = crate::net::sync::heads_view(heads@);
    let mut missing: Vec<Vec<u8>> = Vec::new();
    let mut i: usize = 0;
    assert(crate::net::sync::heads_view(missing@) =~= missing_of(all.take(0), known@.take(0)));
    while i < heads.len()
        invariant
            i <= heads@.len(),
            heads@.len() == known@.len(),
            all == crate::net::sync::heads_view(heads@),
            crate::net::sync::heads_view(missing@) == missing_of(
                all.take(i as int),
                known@.take(i as int),
            ),
        decreases heads@.len() - i,
    {
        let ghost before = missing@;
        assert(all.take(i + 1).drop_last() =~= all.take(i as int));
        assert(known@.take(i + 1).drop_last() =~= known@.take(i as int));
        assert(all.take(i + 1).last() == heads@[i as int]@);
        if !known[i] {
            let head = bytes_to_vec(heads[i].as_slice());
            missing.push(head);
            assert(crate::net::sync::heads_view(missing@) =~= crate::net::sync::heads_view(
                before,
            ).push(heads@[i as int]@));
        }
        i = i + 1;
    }
    assert(all.take(i as int) =~= all);
    assert(known@.take(i as int) =~= known@);
    missing
}

/// Nothing is fetched exactly when every announced head is known.
pub proof fn nothing_missing_when_all_known(heads: Seq<Seq<u8>>, known: Seq<bool>)
    requires
        heads.len() == known.len(),
    ensures
        missing_of(heads, known).len() == 0 <==> forall|i: int| 0 <= i < known.len() ==> known[i],
    decreases heads.len(),
{
    if heads.len() > 0 {
        nothing_missing_when_all_known(heads.drop_last(), known.drop_last());
        assert(known[known.len() - 1] == known.last());
        assert forall|i: int| 0 <= i < known.len() - 1 implies known.drop_last()[i] == known[i] by {}
        if forall|i: int| 0 <= i < known.len() ==> known[i] {
            assert forall|i: int| 0 <= i < known.drop_last().len() implies known.drop_last()[i] by {
                assert(known[i]);
            }
        }
        if missing_of(heads, known).len() == 0 {
            assert forall|i: int| 0 <= i < known.len() implies known[i] by {
                if i < known.len() - 1 {
                    assert(known.drop_last()[i]);
                }
            }
        }
    }
}

/// Outcome of handling one peer announcement.
#[derive(Clone, Copy, PartialEq, Eq, Structural, Debug)]
pub enum Handled {
    /// New operations were fetched and applied.
    Fetched,
    /// Nothing to do: already in sync, or the announcement was malformed.
    Idle,
    /// A fetch was attempted but failed (or is held back); the heads are worth
    /// retrying.
    Failed,
}

/// Outcome of one announcement inbox drain.
#[derive(Clone, Copy, PartialEq, Eq, Structural, Debug)]
pub struct Drained {
    /// Whether any fetch applied new operations.
    pub synced: bool,
    /// Whether any fetch failed and deserves a retry wakeup.
    pub retry: bool,
}

/// A drain after one more announcement was handled.
pub open spec fn drained_after(d: Drained, handled: Handled) -> Drained {
    Drained {
        synced: d.synced || handled == Handled::Fetched,
        retry: d.retry || handled == Handled::Failed,
    }
}

/// The hub after an announcement was handled: failed heads go back.
pub open spec fn hub_after(
    h: HubView,
    name: Seq<char>,
    id: Seq<char>,
    announce: PeerAnnounceView,
    handled: Handled,
) -> HubView {
    if handled == Handled::Failed && crate::daemon::hub::holds(h, name, id) {
        let e = h.repos[name];
        HubView {
            repos: h.repos.insert(
                name,
                RepoEntryView {
                    inbox: crate::daemon::hub::inbox::requeued(
                        e.inbox,
                        announce.peer,
                        announce.seq,
                        announce.heads,
                    ),
                    ..e
                },
            ),
            ..h
        }
    } else {
        h
    }
}

impl Drained {
    /// A drain that has handled nothing yet.
    pub fn new() -> (drained: Self)
        ensures
            drained == (Drained { synced: false, retry: false }),
    {
        Drained { synced: false, retry: false }
    }

    /// Concludes one drained announcement. Failed fetches are requeued (a newer
    /// announcement or a reconnect supersedes them) and reported for a retry
    /// wakeup.
    pub fn conclude(
        &mut self,
        hub: &mut SyncHub,
        name: &str,
        id: &RepoId,
        announce: PeerAnnounce,
        handled: Handled,
    )
        ensures
            *final(self) == drained_after(*old(self), handled),
            final(hub)@ == hub_after(old(hub)@, name@, id@, announce@, handled),
    {
        match handled {
            Handled::Fetched => {
                self.synced = true;
            },
            Handled::Failed => {
                hub.requeue(name, id, announce.peer, announce.seq, announce.heads);
                self.retry = true;
            },
            Handled::Idle => {},
        }
    }
}

/// What woke a repo task.
#[derive(Clone, Copy, PartialEq, Eq, Structural, Debug)]
pub enum Wake {
    /// The op heads may have changed.
    HeadsChanged,
    /// Nothing happened for a while; whether the op heads directory is still
    /// there (an unmount kills the watch without emitting any event).
    Idle { present: bool },
    /// An announcement may be waiting.
    Announced,
    /// Failed fetches are due for a retry.
    RetryDue,
    /// Working copy files changed.
    TreeChanged,
    /// The working copy watch failed.
    TreeFailed,
    /// A snapshot is due.
    SnapshotDue,
}

/// What a woken repo task does.
#[derive(Clone, Copy, PartialEq, Eq, Structural, Debug)]
pub enum Step {
    /// Check the store configuration, drain the inbox and re-read the heads.
    Check,
    /// Wait on. Edits are frequent and arming is all they need.
    Wait,
    /// Run a snapshot.
    Snapshot,
    /// Give the watch up: the op heads directory is gone.
    Gone,
}

/// What a settled wakeup leads to.
#[derive(Clone, Copy, PartialEq, Eq, Structural, Debug)]
pub struct Settled {
    /// The op heads changed, and were published.
    pub changed: bool,
    /// The working copy may be stale and is to be updated.
    pub update_stale: bool,
}

/// What a watch starts with.
#[derive(Clone, Copy, PartialEq, Eq, Structural, Debug)]
pub struct StartPlan {
    /// Working copy files are to be watched.
    pub watch_tree: bool,
    /// Staleness accrued while the daemon was down is to be healed.
    pub update_stale: bool,
}

/// One repo's running watch.
pub struct RepoTask {
    settings: RepoSettings,
    heads: Vec<Vec<u8>>,
    last_change: Option<u64>,
    last_sync: Option<u64>,
    snap: Snapshotting,
    /// Whether working copy files are watched.
    tree: bool,
    /// The time to wake and retry fetches that failed and were requeued.
    /// Requeued heads are re-drained on any wake, so this is only a fallback
    /// that fires when nothing else would wake the task first.
    retry_at: Option<u64>,
}

/// A running watch by content.
#[verifier::ext_equal]
pub struct TaskView {
    pub settings: RepoSettings,
    pub heads: Seq<Seq<u8>>,
    pub last_change: Option<u64>,
    pub last_sync: Option<u64>,
    pub snap: Snapshotting,
    pub tree: bool,
    pub retry_at: Option<u64>,
}

impl View for RepoTask {
    type V = TaskView;

    closed spec fn view(&self) -> TaskView {
        TaskView {
            settings: self.settings,
            heads: crate::net::sync::heads_view(self.heads@),
            last_change: self.last_change,
            last_sync: self.last_sync,
            snap: self.snap,
            tree: self.tree,
            retry_at: self.retry_at,
        }
    }
}

/// The snapshot interval in milliseconds.
pub open spec fn interval_ms(settings: RepoSettings) -> Option<u64> {
    match settings.snapshot_interval {
        Some(secs) => Some((secs * 1000) as u64),
        None => None,
    }
}

/// Whether a snapshot armed now has a time to be due at.
pub open spec fn clock_has_room(settings: RepoSettings, now: u64) -> bool {
    match settings.snapshot_interval {
        Some(secs) => now + secs * 1000 <= u64::MAX,
        None => true,
    }
}

/// The hub once a repo is opened.
pub open spec fn opened(
    h: HubView,
    name: Seq<char>,
    id: Seq<char>,
    handle: u64,
    colocated: bool,
) -> HubView {
    if crate::daemon::hub::holds(h, name, id) {
        HubView {
            repos: h.repos.insert(
                name,
                RepoEntryView {
                    serving: Some(crate::daemon::hub::Serving { handle, active: 0 }),
                    local_colocated: colocated,
                    ..h.repos[name]
                },
            ),
            ..h
        }
    } else {
        h
    }
}

/// A watch that just started.
pub open spec fn started_task(settings: RepoSettings, heads: Seq<Seq<u8>>) -> TaskView {
    TaskView {
        settings,
        heads,
        last_change: None,
        last_sync: None,
        snap: Snapshotting { deadline: None, earliest: None },
        tree: false,
        retry_at: None,
    }
}

/// A watch after something woke it.
pub open spec fn woken(t: TaskView, wake: Wake, now: u64) -> TaskView {
    match wake {
        Wake::TreeChanged => TaskView {
            snap: super::snapshot::armed(t.snap, interval_ms(t.settings), now),
            ..t
        },
        Wake::TreeFailed => TaskView { tree: false, ..t },
        _ => t,
    }
}

/// What a woken watch does.
pub open spec fn step_for(wake: Wake) -> Step {
    match wake {
        Wake::HeadsChanged | Wake::Announced | Wake::RetryDue => Step::Check,
        Wake::Idle { present } => if present {
            Step::Check
        } else {
            Step::Gone
        },
        Wake::TreeChanged | Wake::TreeFailed => Step::Wait,
        Wake::SnapshotDue => Step::Snapshot,
    }
}

/// What follows from a wakeup that drained the inbox and re-read the heads.
pub open spec fn settling(t: TaskView, drained: Drained, heads: Seq<Seq<u8>>) -> Settled {
    Settled {
        changed: heads != t.heads,
        update_stale: drained.synced && heads.len() == 1 && t.settings.update_stale,
    }
}

/// A watch after a wakeup that drained the inbox and re-read the heads.
pub open spec fn settled_task(
    t: TaskView,
    drained: Drained,
    heads: Seq<Seq<u8>>,
    now: u64,
    wall: u64,
) -> TaskView {
    TaskView {
        heads,
        last_sync: if drained.synced {
            Some(wall)
        } else {
            t.last_sync
        },
        last_change: if heads != t.heads {
            Some(wall)
        } else {
            t.last_change
        },
        retry_at: if drained.retry {
            Some((now + FETCH_RETRY) as u64)
        } else {
            None
        },
        snap: if settling(t, drained, heads).update_stale {
            Snapshotting { deadline: None, ..t.snap }
        } else {
            t.snap
        },
        ..t
    }
}

impl RepoTask {
    /// Starts watching an opened repo whose op heads are `heads`: it becomes
    /// servable, and its heads are published. Publishing on watch start doubles
    /// as anti-entropy: changes made while the watch was down are absorbed into
    /// the baseline and would otherwise never be announced.
    pub fn start(
        hub: &mut SyncHub,
        name: &str,
        id: &RepoId,
        handle: u64,
        colocated: bool,
        heads: Vec<Vec<u8>>,
        settings: RepoSettings,
    ) -> (started: (Self, StartPlan))
        requires
            old(hub)@.announce_seq < u64::MAX,
        ensures
            started.0@ == started_task(settings, crate::net::sync::heads_view(heads@)),
            started.1 == (StartPlan {
                watch_tree: settings.snapshot_interval is Some,
                update_stale: heads@.len() == 1 && settings.update_stale,
            }),
            final(hub)@ == crate::daemon::hub::published(
                opened(old(hub)@, name@, id@, handle, colocated),
                name@,
                id@,
                crate::net::sync::heads_view(heads@),
            ),
    {
        hub.repo_opened(name, id, handle, colocated);
        hub.publish(name, id, duplicate_heads(&heads));
        let plan = StartPlan {
            watch_tree: settings.snapshot_interval.is_some(),
            update_stale: heads.len() == 1 && settings.update_stale,
        };
        let task = RepoTask {
            settings,
            heads,
            last_change: None,
            last_sync: None,
            snap: Snapshotting::default(),
            tree: false,
            retry_at: None,
        };
        (task, plan)
    }

    /// Completes the start once the working copy watch is up (or is not to be).
    /// Edits made while the watch was down produce no event, so the working
    /// copy is snapshotted once on start: it is the only anti-entropy the
    /// snapshot path has.
    pub fn ready(&mut self, tree: bool, now: u64)
        requires
            clock_has_room(old(self)@.settings, now),
        ensures
            final(self)@ == (TaskView {
                tree,
                snap: super::snapshot::armed(
                    old(self)@.snap,
                    interval_ms(old(self)@.settings),
                    now,
                ),
                ..old(self)@
            }),
    {
        self.tree = tree;
        self.arm(now);
    }

    /// Schedules a snapshot after an edit.
    fn arm(&mut self, now: u64)
        requires
            clock_has_room(old(self)@.settings, now),
        ensures
            final(self)@ == (TaskView {
                snap: super::snapshot::armed(
                    old(self)@.snap,
                    interval_ms(old(self)@.settings),
                    now,
                ),
                ..old(self)@
            }),
    {
        let interval: Option<u64> = match self.settings.snapshot_interval {
            Some(secs) => Some(secs * 1000),
            None => None,
        };
        self.snap.arm(interval, now);
    }

    /// Whether working copy files are watched.
    pub fn watches_tree(&self) -> (tree: bool)
        ensures
            tree == self@.tree,
    {
        self.tree
    }

    /// When the pending snapshot is due, if one is pending.
    pub fn snapshot_deadline(&self) -> (deadline: Option<u64>)
        ensures
            deadline == self@.snap.deadline,
    {
        self.snap.deadline
    }

    /// When failed fetches are to be retried, if any.
    pub fn retry_at(&self) -> (at: Option<u64>)
        ensures
            at == self@.retry_at,
    {
        self.retry_at
    }

    /// Decides what a wakeup leads to.
    pub fn wake(&mut self, wake: Wake, now: u64) -> (step: Step)
        requires
            clock_has_room(old(self)@.settings, now),
        ensures
            step == step_for(wake),
            final(self)@ == woken(old(self)@, wake, now),
    {
        match wake {
            Wake::HeadsChanged | Wake::Announced | Wake::RetryDue => Step::Check,
            Wake::Idle { present } => if present {
                Step::Check
            } else {
                Step::Gone
            },
            Wake::TreeChanged => {
                self.arm(now);
                Step::Wait
            },
            Wake::TreeFailed => {
                self.tree = false;
                Step::Wait
            },
            Wake::SnapshotDue => Step::Snapshot,
        }
    }

    /// Records a snapshot that ran from `started` until `now`.
    pub fn snapshot_ran(&mut self, started: u64, now: u64)
        requires
            started <= now,
            now + (now - started) * super::snapshot::SNAPSHOT_DUTY_DIVISOR <= u64::MAX,
        ensures
            final(self)@ == (TaskView {
                snap: Snapshotting {
                    deadline: None,
                    earliest: Some(
                        (now + (now - started) * super::snapshot::SNAPSHOT_DUTY_DIVISOR) as u64,
                    ),
                },
                ..old(self)@
            }),
    {
        self.snap.finished(started, now);
    }

    /// Records that the working copy watch did not survive a jj run: no more
    /// snapshots until the repo reopens.
    pub fn tree_lost(&mut self)
        ensures
            final(self)@ == (TaskView { tree: false, ..old(self)@ }),
    {
        self.tree = false;
    }

    /// Settles a wakeup: `drained` is what handling the inbox came to, `heads`
    /// the op heads read afterwards. Announcements are handled before the heads
    /// are re-read: fetching updates the heads, so the re-read then picks the
    /// change up in this same wakeup and the baseline update suppresses the
    /// watcher events our own writes caused. The applied operations may have
    /// left the working copy stale; only a single head is caught up on.
    /// update-stale snapshots the working copy itself, so a pending snapshot is
    /// done with it.
    pub fn settle(
        &mut self,
        hub: &mut SyncHub,
        name: &str,
        id: &RepoId,
        drained: Drained,
        heads: Vec<Vec<u8>>,
        now: u64,
        wall: u64,
    ) -> (settled: Settled)
        requires
            old(hub)@.announce_seq < u64::MAX,
            now + FETCH_RETRY <= u64::MAX,
        ensures
            settled == settling(old(self)@, drained, crate::net::sync::heads_view(heads@)),
            final(self)@ == settled_task(
                old(self)@,
                drained,
                crate::net::sync::heads_view(heads@),
                now,
                wall,
            ),
            final(hub)@ == if settled.changed {
                crate::daemon::hub::published(
                    old(hub)@,
                    name@,
                    id@,
                    crate::net::sync::heads_view(heads@),
                )
            } else {
                old(hub)@
            },
    {
        if drained.synced {
            self.last_sync = Some(wall);
        }
        self.retry_at = if drained.retry {
            Some(now + FETCH_RETRY)
        } else {
            None
        };
        let changed: bool = !same_heads(&heads, &self.heads);
        let single: bool = heads.len() == 1;
        if changed {
            self.last_change = Some(wall);
            hub.publish(name, id, duplicate_heads(&heads));
        }
        self.heads = heads;
        let update_stale: bool = drained.synced && single && self.settings.update_stale;
        if update_stale {
            self.snap.done();
        }
        Settled { changed, update_stale }
    }

    /// The state shown for this watch.
    pub fn state(&self) -> (state: RepoState)
        ensures
            state@ == (super::RepoStateView::Watching {
                op_heads: self@.heads.len(),
                last_change: self@.last_change,
                last_sync: self@.last_sync,
            }),
    {
        RepoState::Watching {
            op_heads: self.heads.len(),
            last_change: self.last_change,
            last_sync: self.last_sync,
        }
    }
}

/// A watch and its hub always agree on the heads peers are told: what was read
/// last is what was published last.
pub proof fn heads_read_are_heads_published(
    h: HubView,
    t: TaskView,
    name: Seq<char>,
    id: Seq<char>,
    drained: Drained,
    heads: Seq<Seq<u8>>,
    now: u64,
    wall: u64,
)
    requires
        crate::daemon::hub::holds(h, name, id),
        h.repos[name].published == Some(t.heads),
    ensures
        ({
            let after = if settling(t, drained, heads).changed {
                crate::daemon::hub::published(h, name, id, heads)
            } else {
                h
            };
            after.repos[name].published == Some(settled_task(t, drained, heads, now, wall).heads)
        }),
{
}

/// Divergent op heads are never reconciled by the daemon: update-stale only
/// runs on a single head, after a sync, where enabled.
pub proof fn divergence_is_left_alone(t: TaskView, drained: Drained, heads: Seq<Seq<u8>>)
    requires
        heads.len() != 1 || !drained.synced,
    ensures
        !settling(t, drained, heads).update_stale,
{
}

/// The retry and reopen schedule of one repo.
pub struct RepoRunner {
    backoff: Backoff,
}

impl View for RepoRunner {
    type V = BackoffView;

    closed spec fn view(&self) -> BackoffView {
        self.backoff@
    }
}

/// The hub once a repo's stores are closed.
pub open spec fn closed(h: HubView, name: Seq<char>, id: Seq<char>) -> HubView {
    if crate::daemon::hub::holds(h, name, id) {
        crate::daemon::hub::with_serving(h, name, None)
    } else {
        h
    }
}

impl RepoRunner {
    pub fn new() -> (runner: Self)
        ensures
            runner@ == crate::daemon::backoff::started(BACKOFF_MIN as nat, BACKOFF_MAX as nat),
    {
        RepoRunner { backoff: Backoff::new(BACKOFF_MIN, BACKOFF_MAX) }
    }

    /// The watch ended because the store configuration changed: expected
    /// behavior, not a fault, so the repo is reopened at once instead of
    /// sitting out a backoff unserved.
    pub fn reconfigured(&mut self, hub: &mut SyncHub, name: &str, id: &RepoId)
        ensures
            final(hub)@ == closed(old(hub)@, name@, id@),
            final(self)@ == crate::daemon::backoff::started(old(self)@.min, old(self)@.max),
    {
        hub.repo_closed(name, id);
        self.backoff.reset();
    }

    /// The watch failed after running for `ran_for` milliseconds; returns the
    /// delay before the next attempt. The stores may be stale (moved disk,
    /// replaced repo): fetches are not served from them until the reopen
    /// succeeds.
    pub fn failed(&mut self, hub: &mut SyncHub, name: &str, id: &RepoId, ran_for: u64) -> (delay:
        u64)
        ensures
            final(hub)@ == closed(old(hub)@, name@, id@),
            ({
                let from = if ran_for >= STABLE_WATCH {
                    crate::daemon::backoff::started(old(self)@.min, old(self)@.max)
                } else {
                    old(self)@
                };
                &&& delay == from.current
                &&& final(self)@ == crate::daemon::backoff::advanced(from)
            }),
    {
        hub.repo_closed(name, id);
        if ran_for >= STABLE_WATCH {
            self.backoff.reset();
        }
        self.backoff.next_delay()
    }
}

/// The state shown while a failed repo waits to be retried. A missing repo
/// directory is not a repo problem to diagnose but a gone repo, surfaced as its
/// own state so the status can suggest the fix.
pub fn waiting_state(present: bool, until: u64, error: &str) -> (state: RepoState)
    ensures
        state@ == if present {
            super::RepoStateView::Backoff { until, error: stored_error(error@) }
        } else {
            super::RepoStateView::Missing { until }
        },
{
    if present {
        RepoState::Backoff { until, error: truncated_error(error) }
    } else {
        RepoState::Missing { until }
    }
}

} // verus!
