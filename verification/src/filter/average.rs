//! The moving window of the `average` stage.
//!
//! The stage averages position over a window of *time*: a window counted in samples would be a
//! different filter on a mouse with a different report rate. What is kept here is which samples
//! are in the window; the positions themselves are carried along as bit patterns.

use std::collections::VecDeque;
use vstd::prelude::*;

verus! {

/// How much a sample counts for as it ages out of the window.
#[derive(Debug, Clone, Copy, PartialEq, Eq, Structural)]
pub enum Weighting {
    /// Falls off straight to nothing at the window edge. Halving the window halves the lag.
    Linear,
    /// Falls off fast at first and lingers, so recent motion dominates.
    Exponential,
    /// Falls off slowly near the newest sample, then quickly.
    Gaussian,
}

/// Hard ceiling on buffered samples, so that an absurd window cannot cost unbounded memory.
pub const MAX_ENTRIES: usize = 4096;

/// A sample in the window: a position, as two bit patterns, and when it was reported.
#[derive(Debug, Clone, Copy, PartialEq, Eq, Structural)]
pub struct Entry {
    pub x: u64,
    pub y: u64,
    pub t_us: u64,
}

/// The samples in the window, oldest first.
#[derive(Debug)]
pub struct Window {
    /// Bound on the number of samples, so that pushing never has to grow the buffer.
    pub capacity: usize,
    pub window_us: u64,
    pub history: VecDeque<Entry>,
}

/// How long before `now` a sample was reported. One from the future is of age nothing: a source
/// whose timestamps step backwards must not produce an enormous age.
pub open spec fn age(now: u64, e: Entry) -> u64 {
    if now >= e.t_us {
        (now - e.t_us) as u64
    } else {
        0
    }
}

/// The samples that are left once those past the window are dropped from the front. The last one
/// always stays.
pub open spec fn aged(s: Seq<Entry>, now: u64, window_us: u64) -> Seq<Entry>
    decreases s.len(),
{
    if s.len() > 1 && age(now, s[0]) > window_us {
        aged(s.drop_first(), now, window_us)
    } else {
        s
    }
}

/// The samples with a new one at the end, the oldest having made room for it.
pub open spec fn pushed(s: Seq<Entry>, capacity: int, e: Entry) -> Seq<Entry> {
    if s.len() >= capacity && s.len() > 0 {
        s.drop_first().push(e)
    } else {
        s.push(e)
    }
}

/// The number of samples a buffer holds.
pub open spec fn room_for(wanted: Option<u64>) -> int {
    match wanted {
        None => 1,
        Some(n) => if n < 1 {
            2
        } else if n > MAX_ENTRIES {
            MAX_ENTRIES + 1
        } else {
            n + 1
        },
    }
}

/// The number of samples a buffer holds, from the number that the window spans at the highest
/// report rate. `None` is a window that does nothing.
pub fn capacity_for(wanted: Option<u64>) -> (r: usize)
    ensures
        r == room_for(wanted),
{
    match wanted {
        None => 1,
        Some(n) => {
            // One more than the window spans, so that the window's own edge sample fits.
            if n < 1 {
                2
            } else if n > MAX_ENTRIES as u64 {
                MAX_ENTRIES + 1
            } else {
                n as usize + 1
            }
        },
    }
}

impl Window {
    /// The buffer is never over its bound.
    pub open spec fn wf(&self) -> bool {
        &&& self.capacity >= 1
        &&& self.history@.len() <= self.capacity
    }

    pub fn new(capacity: usize, window_us: u64) -> (r: Self)
        requires
            capacity >= 1,
        ensures
            r.wf(),
            r.capacity == capacity,
            r.window_us == window_us,
            r.history@.len() == 0,
    {
        Window { capacity, window_us, history: VecDeque::new() }
    }

    /// Forget every sample.
    pub fn clear(&mut self)
        ensures
            final(self).history@.len() == 0,
            final(self).capacity == old(self).capacity,
            final(self).window_us == old(self).window_us,
    {
        self.history.clear();
    }

    /// Take in a new sample and drop those that are past the window.
    ///
    /// The buffer is full only when the window is longer than it can hold at this report rate.
    /// Dropping the oldest shortens the effective window, which is a graceful degradation.
    pub fn push(&mut self, e: Entry)
        requires
            old(self).wf(),
        ensures
            final(self).wf(),
            final(self).capacity == old(self).capacity,
            final(self).window_us == old(self).window_us,
            final(self).history@ == aged(
                pushed(old(self).history@, old(self).capacity as int, e),
                e.t_us,
                old(self).window_us,
            ),
    {
        let ghost before = self.history@;
        if self.history.len() >= self.capacity {
            let _ = self.history.pop_front();
            assert(self.history@ =~= before.drop_first());
        }
        self.history.push_back(e);
        let ghost all = self.history@;
        proof {
            assert(all =~= pushed(before, self.capacity as int, e));
        }
        while self.history.len() > 1 && e.t_us.saturating_sub(self.history[0].t_us)
            > self.window_us
            invariant
                self.history@.len() >= 1,
                self.history@.len() <= self.capacity,
                self.capacity == old(self).capacity,
                self.window_us == old(self).window_us,
                aged(self.history@, e.t_us, self.window_us) == aged(all, e.t_us, self.window_us),
            decreases self.history@.len(),
        {
            let ghost was = self.history@;
            let _ = self.history.pop_front();
            assert(self.history@ =~= was.drop_first());
        }
    }

    pub fn len(&self) -> (n: usize)
        ensures
            n == self.history@.len(),
    {
        self.history.len()
    }

    /// A sample in the window, the oldest first.
    pub fn entry(&self, i: usize) -> (e: Entry)
        requires
            i < self.history@.len(),
        ensures
            e == self.history@[i as int],
    {
        self.history[i]
    }

    /// How long ago a sample in the window was reported.
    pub fn age_us(&self, i: usize, now: u64) -> (r: u64)
        requires
            i < self.history@.len(),
        ensures
            r == age(now, self.history@[i as int]),
    {
        now.saturating_sub(self.history[i].t_us)
    }
}

/// The window is a run of the newest samples: whatever is dropped is older than all that stays.
pub proof fn law_the_window_keeps_the_newest(s: Seq<Entry>, now: u64, window_us: u64)
    requires
        s.len() > 0,
    ensures
        aged(s, now, window_us).len() >= 1,
        aged(s, now, window_us).len() <= s.len(),
        aged(s, now, window_us) == s.skip(s.len() - aged(s, now, window_us).len()),
        aged(s, now, window_us).last() == s.last(),
        forall|i: int|
            0 <= i < s.len() - aged(s, now, window_us).len() ==> age(now, #[trigger] s[i])
                > window_us,
        aged(s, now, window_us).len() == 1 || age(now, aged(s, now, window_us)[0]) <= window_us,
    decreases s.len(),
{
    if s.len() > 1 && age(now, s[0]) > window_us {
        let rest = s.drop_first();
        law_the_window_keeps_the_newest(rest, now, window_us);
        let kept = aged(rest, now, window_us);
        assert(kept =~= s.skip(s.len() - kept.len()));
        assert forall|i: int| 0 <= i < s.len() - kept.len() implies age(now, #[trigger] s[i])
            > window_us by {
            if i > 0 {
                assert(rest[i - 1] == s[i]);
            }
        }
    } else {
        assert(s.skip(0) =~= s);
    }
}

/// A source whose time moves backwards empties nothing.
pub proof fn law_time_moving_backwards_drops_nothing(s: Seq<Entry>, now: u64, window_us: u64)
    requires
        s.len() > 0,
        now <= s[0].t_us,
    ensures
        aged(s, now, window_us) == s,
{
}

/// A new sample is the last in the window, behind all that were there; only where the buffer is
/// full does the oldest make room for it.
pub proof fn law_a_new_sample_comes_last(s: Seq<Entry>, capacity: int, e: Entry)
    requires
        capacity >= 1,
        s.len() <= capacity,
    ensures
        pushed(s, capacity, e).last() == e,
        pushed(s, capacity, e).len() <= capacity,
        s.len() < capacity ==> pushed(s, capacity, e).drop_last() == s,
        s.len() == capacity ==> pushed(s, capacity, e).drop_last() == s.skip(1),
{
    assert(s.push(e).drop_last() =~= s);
    if s.len() > 0 {
        assert(s.drop_first().push(e).drop_last() =~= s.skip(1));
    }
}

/// A sample is as old as the time since it was reported, and never less than new.
pub proof fn law_age_is_the_time_since(now: u64, e: Entry)
    ensures
        now >= e.t_us ==> age(now, e) == now - e.t_us,
        now < e.t_us ==> age(now, e) == 0,
{
}

/// A buffer has room for every sample of its window and for the one at its edge, up to 4096 of
/// them; a window that does nothing needs room for one.
pub proof fn law_a_buffer_has_room_for_its_window(n: u64)
    ensures
        1 <= n <= 4096 ==> room_for(Some(n)) == n + 1,
        n > 4096 ==> room_for(Some(n)) == 4097,
        room_for(Some(0u64)) == 2,
        room_for(None) == 1,
{
}

} // verus!
