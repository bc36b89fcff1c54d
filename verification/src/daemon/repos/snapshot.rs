//! Scheduling of automatic snapshots.

use vstd::prelude::*;

verus! {

/// How much of the time a repeated snapshot may occupy, as the ratio of the
/// enforced gap to the snapshot's own duration. Only binds on repos where a
/// snapshot outlasts the configured interval.
pub const SNAPSHOT_DUTY_DIVISOR: u64 = 2;

/// Scheduling state of one repo's auto-snapshots, in milliseconds of a steady
/// clock.
///
/// The first edit arms a snapshot one interval out and later edits never
/// postpone it, so continuous editing snapshots at the configured cadence. A
/// snapshot walks the whole working copy though, which on a large repo can take
/// longer than the interval; the last one's duration therefore also sets a
/// floor on the gap to the next, so the daemon cannot end up snapshotting an
/// unbounded fraction of the time.
#[derive(Clone, Copy, PartialEq, Eq, Structural, Debug)]
pub struct Snapshotting {
    /// When the pending snapshot is due, if one is pending.
    pub deadline: Option<u64>,
    /// Earliest acceptable time for the next snapshot, from the cost of the
    /// last one.
    pub earliest: Option<u64>,
}

/// When a snapshot armed now is due: an interval out, but not before the last
/// one allows.
pub open spec fn due(s: Snapshotting, interval: u64, now: u64) -> int {
    let wanted = now + interval;
    match s.earliest {
        Some(floor) => if wanted < floor {
            floor as int
        } else {
            wanted
        },
        None => wanted,
    }
}

/// The schedule after an edit.
pub open spec fn armed(s: Snapshotting, interval: Option<u64>, now: u64) -> Snapshotting {
    match interval {
        Some(interval) => if s.deadline is Some {
            s
        } else {
            Snapshotting { deadline: Some(due(s, interval, now) as u64), ..s }
        },
        None => s,
    }
}

impl Default for Snapshotting {
    /// Nothing pending.
    fn default() -> (s: Self)
        ensures
            s == (Snapshotting { deadline: None, earliest: None }),
    {
        Snapshotting { deadline: None, earliest: None }
    }
}

impl Snapshotting {
    /// Schedules a snapshot `interval` from now unless one is already pending,
    /// or auto-snapshotting is off (`interval` is `None`).
    pub fn arm(&mut self, interval: Option<u64>, now: u64)
        requires
            interval is Some ==> now + interval->Some_0 <= u64::MAX,
        ensures
            *final(self) == armed(*old(self), interval, now),
    {
        let interval: u64 = match interval {
            Some(interval) => interval,
            None => {
                return;
            },
        };
        if self.deadline.is_some() {
            return;
        }
        let wanted: u64 = now + interval;
        let due: u64 = match self.earliest {
            Some(floor) => if wanted < floor {
                floor
            } else {
                wanted
            },
            None => wanted,
        };
        self.deadline = Some(due);
    }

    /// Records a snapshot that ran, from the instant it started until now.
    pub fn finished(&mut self, started: u64, now: u64)
        requires
            started <= now,
            now + (now - started) * SNAPSHOT_DUTY_DIVISOR <= u64::MAX,
        ensures
            *final(self) == (Snapshotting {
                deadline: None,
                earliest: Some((now + (now - started) * SNAPSHOT_DUTY_DIVISOR) as u64),
            }),
    {
        self.done();
        self.earliest = Some(now + (now - started) * SNAPSHOT_DUTY_DIVISOR);
    }

    /// Clears the pending snapshot, after something else did the work.
    pub fn done(&mut self)
        ensures
            *final(self) == (Snapshotting { deadline: None, ..*old(self) }),
    {
        self.deadline = None;
    }
}

/// Edits never postpone a pending snapshot.
pub proof fn edits_never_postpone(s: Snapshotting, interval: Option<u64>, now: u64)
    requires
        s.deadline is Some,
    ensures
        armed(s, interval, now) == s,
{
}

/// The first edit arms a snapshot, never immediately: one interval out, and
/// after a gap of twice what the last one cost.
pub proof fn arming_keeps_the_cadence(
    s: Snapshotting,
    interval: u64,
    now: u64,
    started: u64,
    ended: u64,
)
    requires
        s.deadline is None,
        now + interval <= u64::MAX,
        started <= ended <= now,
        ended + (ended - started) * SNAPSHOT_DUTY_DIVISOR <= u64::MAX,
        s.earliest == Some((ended + (ended - started) * SNAPSHOT_DUTY_DIVISOR) as u64),
    ensures
        ({
            let deadline = armed(s, Some(interval), now).deadline->Some_0;
            &&& armed(s, Some(interval), now).deadline is Some
            &&& deadline >= now + interval
            &&& deadline - ended >= (ended - started) * SNAPSHOT_DUTY_DIVISOR
        }),
{
}

} // verus!
