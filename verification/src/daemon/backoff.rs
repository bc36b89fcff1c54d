//! Exponential backoff, shared by the reconnect and retry loops.

use vstd::prelude::*;

verus! {

/// Exponential backoff, in milliseconds. [`Backoff::next_delay`] returns the
/// delay to wait and advances toward the ceiling; [`Backoff::reset`] returns to
/// the floor once whatever it guards has been stable. Callers jitter the delay,
/// so many loops backing off together do not retry in lockstep.
#[derive(Debug)]
pub struct Backoff {
    min: u64,
    max: u64,
    current: u64,
}

/// A backoff: its floor, its ceiling and the delay due next.
#[verifier::ext_equal]
pub struct BackoffView {
    pub min: nat,
    pub max: nat,
    pub current: nat,
}

impl View for Backoff {
    type V = BackoffView;

    closed spec fn view(&self) -> BackoffView {
        BackoffView { min: self.min as nat, max: self.max as nat, current: self.current as nat }
    }
}

/// A backoff that has not waited yet.
pub open spec fn started(min: nat, max: nat) -> BackoffView {
    BackoffView { min, max, current: min }
}

/// A backoff after one more wait: twice the delay, up to the ceiling.
pub open spec fn advanced(b: BackoffView) -> BackoffView {
    BackoffView {
        current: if 2 * b.current < b.max {
            2 * b.current
        } else {
            b.max
        },
        ..b
    }
}

/// A backoff after several waits.
pub open spec fn waited(b: BackoffView, times: nat) -> BackoffView
    decreases times,
{
    if times == 0 {
        b
    } else {
        advanced(waited(b, (times - 1) as nat))
    }
}

impl Backoff {
    pub fn new(min: u64, max: u64) -> (backoff: Self)
        ensures
            backoff@ == started(min as nat, max as nat),
    {
        Backoff { min, max, current: min }
    }

    /// Returns the next delay and advances toward the ceiling.
    pub fn next_delay(&mut self) -> (delay: u64)
        ensures
            delay == old(self)@.current,
            final(self)@ == advanced(old(self)@),
    {
        let delay: u64 = self.current;
        self.current = if self.current <= self.max / 2 && 2 * self.current < self.max {
            2 * self.current
        } else {
            self.max
        };
        delay
    }

    /// Resets to the floor delay.
    pub fn reset(&mut self)
        ensures
            final(self)@ == started(old(self)@.min, old(self)@.max),
    {
        self.current = self.min;
    }
}

/// Delays stay between the floor and the ceiling, and never shrink while
/// nothing resets them.
pub proof fn delays_stay_in_bounds(min: nat, max: nat, times: nat)
    requires
        min <= max,
    ensures
        min <= waited(started(min, max), times).current <= max,
        times > 0 ==> waited(started(min, max), (times - 1) as nat).current <= waited(
            started(min, max),
            times,
        ).current,
        waited(started(min, max), times).min == min,
        waited(started(min, max), times).max == max,
    decreases times,
{
    if times > 0 {
        delays_stay_in_bounds(min, max, (times - 1) as nat);
    }
}

/// A backoff with a floor reaches its ceiling and stays there.
pub proof fn delays_reach_the_ceiling(min: nat, max: nat, times: nat)
    requires
        0 < min <= max,
        times >= max,
    ensures
        waited(started(min, max), times).current == max,
    decreases times,
{
    lemma_delay_grows(min, max, times);
}

proof fn lemma_delay_grows(min: nat, max: nat, times: nat)
    requires
        0 < min <= max,
    ensures
        waited(started(min, max), times).current == max || waited(
            started(min, max),
            times,
        ).current > times,
        waited(started(min, max), times).max == max,
        waited(started(min, max), times).current <= max,
    decreases times,
{
    if times > 0 {
        lemma_delay_grows(min, max, (times - 1) as nat);
    }
}

/// A delay doubles with every wait until twice it would pass the ceiling; the
/// bounds stay, and a reset goes back to the floor.
pub proof fn delays_double(b: BackoffView)
    ensures
        2 * b.current <= b.max ==> advanced(b).current == 2 * b.current,
        2 * b.current > b.max ==> advanced(b).current == b.max,
        advanced(b).min == b.min,
        advanced(b).max == b.max,
        started(b.min, b.max).current == b.min,
        started(b.min, b.max).min == b.min,
        started(b.min, b.max).max == b.max,
{
}

} // verus!
