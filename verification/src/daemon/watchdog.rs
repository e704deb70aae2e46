//! A wedged daemon must not keep the user's mouse.
//!
//! The one dangerous state is *alive but wedged*: the process holds the grab, is not dead, and is
//! not emitting. The watchdog turns "wedged" into "dead", which the kernel knows how to clean up.
//!
//! The loop legitimately blocks forever when nothing is happening, so a periodic tick would be
//! wrong. Instead the loop marks when it *enters* a unit of work and when it *leaves*, and the
//! watchdog trips only on work that never finished.

use vstd::prelude::*;

verus! {

/// How long a single unit of work may take before the loop is presumed wedged, in milliseconds.
pub const DEFAULT_TIMEOUT_MS: u64 = 2000;

/// The loop's proof of life.
#[derive(Debug, Clone, Copy, PartialEq, Eq, Structural)]
pub struct Heartbeat {
    /// Milliseconds since the start at which the current unit of work began; 0 when idle.
    pub in_work_since: u64,
}

/// The mark of a unit of work, given up to end it.
#[must_use]
#[derive(Debug, PartialEq, Eq, Structural)]
pub struct Work {
    pub began: u64,
}

/// How long the loop has been inside one unit of work.
pub open spec fn stuck(beat: Heartbeat, now_ms: u64) -> Option<u64> {
    if beat.in_work_since == 0 {
        None
    } else if now_ms >= beat.in_work_since {
        Some((now_ms - beat.in_work_since) as u64)
    } else {
        Some(0)
    }
}

impl Heartbeat {
    pub fn new() -> (r: Self)
        ensures
            r.in_work_since == 0,
    {
        Heartbeat { in_work_since: 0 }
    }

    /// Mark a unit of work that begins now.
    pub fn work(&mut self, now_ms: u64) -> (r: Work)
        ensures
            // Work that begins in the first millisecond must not look like idling.
            final(self).in_work_since == if now_ms < 1 {
                1
            } else {
                now_ms
            },
            r.began == final(self).in_work_since,
    {
        self.in_work_since = if now_ms < 1 {
            1
        } else {
            now_ms
        };
        Work { began: self.in_work_since }
    }

    /// Mark the end of a unit of work.
    pub fn leave(&mut self, work: Work)
        ensures
            final(self).in_work_since == 0,
    {
        self.in_work_since = 0;
    }

    /// Whether the loop is inside a unit of work right now.
    pub fn busy(&self) -> (b: bool)
        ensures
            b == (stuck(*self, 0) is Some),
    {
        self.in_work_since != 0
    }

    /// How long the loop has been inside one unit of work, in milliseconds, or `None` when idle.
    pub fn stuck_for(&self, now_ms: u64) -> (r: Option<u64>)
        ensures
            r == stuck(*self, now_ms),
    {
        if self.in_work_since == 0 {
            return None;
        }
        Some(now_ms.saturating_sub(self.in_work_since))
    }

    /// Whether to trip: the loop has been inside one unit of work for the whole timeout. A zero
    /// timeout never trips.
    pub fn wedged(&self, now_ms: u64, timeout_ms: u64) -> (b: bool)
        ensures
            b == is_wedged(*self, now_ms, timeout_ms),
    {
        match self.stuck_for(now_ms) {
            Some(ms) => timeout_ms > 0 && ms >= timeout_ms,
            None => false,
        }
    }
}

/// Whether the loop has been inside one unit of work for the whole of a timeout.
pub open spec fn is_wedged(beat: Heartbeat, now_ms: u64, timeout_ms: u64) -> bool {
    timeout_ms > 0 && (stuck(beat, now_ms) matches Some(ms) && ms >= timeout_ms)
}

/// The time between two looks, in microseconds: a quarter of the timeout, within bounds.
pub open spec fn interval_of(timeout_ms: u64) -> int {
    if timeout_ms * 250 < 50_000 {
        50_000
    } else if timeout_ms * 250 > 500_000 {
        500_000
    } else {
        timeout_ms * 250
    }
}

/// How often to look, in microseconds: a quarter of the timeout, so that the worst overshoot is
/// small, but never so often that the watchdog itself becomes a source of wakeups.
pub fn check_interval_us(timeout_ms: u64) -> (r: u64)
    ensures
        r == interval_of(timeout_ms),
{
    if timeout_ms < 200 {
        50_000
    } else if timeout_ms > 2000 {
        500_000
    } else {
        timeout_ms * 250
    }
}

/// However long a daemon has been idle, it is never taken for a wedged one.
pub proof fn law_an_idle_loop_never_trips(beat: Heartbeat, now_ms: u64, timeout_ms: u64)
    requires
        beat.in_work_since == 0,
    ensures
        !is_wedged(beat, now_ms, timeout_ms),
{
}

/// Work that began at a time and has not ended trips from a timeout after it on, and not before.
pub proof fn law_unfinished_work_trips_in_time(began: u64, now_ms: u64, timeout_ms: u64)
    requires
        began >= 1,
        now_ms >= began,
        timeout_ms > 0,
    ensures
        is_wedged(Heartbeat { in_work_since: began }, now_ms, timeout_ms) <==> now_ms - began
            >= timeout_ms,
{
}

/// Work is stuck for as long as it has gone on, and a clock that went back makes it no longer.
pub proof fn law_work_is_stuck_since_it_began(began: u64, now_ms: u64, later_ms: u64)
    requires
        began >= 1,
        now_ms <= later_ms,
    ensures
        stuck(Heartbeat { in_work_since: 0 }, now_ms) is None,
        stuck(Heartbeat { in_work_since: began }, began) == Some(0u64),
        began <= now_ms ==> stuck(Heartbeat { in_work_since: began }, later_ms)->0 - stuck(
            Heartbeat { in_work_since: began },
            now_ms,
        )->0 == later_ms - now_ms,
        now_ms < began ==> stuck(Heartbeat { in_work_since: began }, now_ms) == Some(0u64),
        !is_wedged(Heartbeat { in_work_since: began }, now_ms, 0),
{
}

/// The watchdog looks four times within a timeout, but neither more often than every 50
/// milliseconds nor less often than every 500.
pub proof fn law_a_timeout_is_looked_at_four_times(timeout_ms: u64)
    ensures
        50_000 <= interval_of(timeout_ms) <= 500_000,
        200 <= timeout_ms <= 2_000 ==> 4 * interval_of(timeout_ms) == 1000 * timeout_ms,
        timeout_ms < 200 ==> interval_of(timeout_ms) == 50_000,
        timeout_ms > 2_000 ==> interval_of(timeout_ms) == 500_000,
{
}

} // verus!
