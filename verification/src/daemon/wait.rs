//! Waiting for input with a deadline.
//!
//! The loop wakes on either of two things: a descriptor that has something to read, or a deadline
//! that expires so that filters can advance. When nothing is outstanding the wait is indefinite.

use vstd::prelude::*;

verus! {

/// How many descriptors a wait can report on.
pub const MOST_REPORTED: usize = 32;

/// The longest wait in milliseconds that the system call takes.
pub const LONGEST_WAIT_MS: i32 = 0x7fff_ffff;

#[derive(Debug, Clone, Copy, PartialEq, Eq, Structural)]
pub enum Wake {
    /// A bitmask over the descriptors: bit *n* set means that the one at *n* is readable.
    ///
    /// **Which** descriptor woke us has to be reported, not just *that* one did. Reading one that
    /// has nothing waiting blocks.
    Ready(u32),
    /// The deadline expired with no input.
    Timeout,
    /// Interrupted by a signal; the caller should loop and re-check its shutdown flag.
    Interrupted,
}

/// Whether bit `i` of a mask is set.
pub open spec fn bit(mask: u32, i: u32) -> bool {
    mask & (1u32 << i) != 0
}

/// Whether the wake reports the descriptor at `index` as readable.
pub open spec fn reports(w: Wake, index: int) -> bool {
    w matches Wake::Ready(mask) && bit(mask, index as u32)
}

impl Wake {
    /// Whether the descriptor at `index` is readable.
    pub fn has(&self, index: usize) -> (b: bool)
        requires
            *self is Ready ==> index < MOST_REPORTED,
        ensures
            b == reports(*self, index as int),
    {
        match self {
            Wake::Ready(mask) => *mask & (1u32 << (index as u32)) != 0,
            _ => false,
        }
    }
}

/// The number of milliseconds that is at least as long as `us`.
pub open spec fn whole_ms(us: int) -> int {
    (us + 999) / 1000
}

/// The milliseconds to wait for: none is as long as it takes, and any time at all is at least one.
pub open spec fn wait_ms(timeout_us: Option<u64>) -> int {
    match timeout_us {
        None => -1,
        Some(us) => if whole_ms(us as int) < 1 {
            1
        } else if whole_ms(us as int) > LONGEST_WAIT_MS {
            LONGEST_WAIT_MS as int
        } else {
            whole_ms(us as int)
        },
    }
}

/// The timeout to hand to the system call, which takes whole milliseconds and `-1` for no limit.
///
/// Rounded *up*, so that a sub-millisecond deadline never becomes a zero timeout, which would
/// spin.
pub fn timeout_ms(timeout_us: Option<u64>) -> (r: i32)
    ensures
        r == wait_ms(timeout_us),
{
    match timeout_us {
        None => -1,
        Some(us) => {
            let ms: u64 = if us % 1000 == 0 {
                us / 1000
            } else {
                us / 1000 + 1
            };
            if ms < 1 {
                1
            } else if ms > LONGEST_WAIT_MS as u64 {
                LONGEST_WAIT_MS
            } else {
                ms as i32
            }
        },
    }
}

/// A wait never spins, and lasts no less than was asked for as far as the system call can.
pub proof fn law_a_deadline_is_never_cut_short(us: u64)
    ensures
        whole_ms(us as int) * 1000 >= us,
        whole_ms(us as int) * 1000 < us + 1000,
{
}

/// The mask of the descriptors that are ready.
fn mask_of(ready: &Vec<bool>) -> (mask: u32)
    ensures
        forall|i: u32|
            i < MOST_REPORTED ==> #[trigger] bit(mask, i) == (i < ready@.len() && ready@[i as int]),
{
    let mut mask: u32 = 0;
    let mut i: usize = 0;
    assert(forall|k: u32| k < 32 ==> (0u32 & (1u32 << k)) == 0) by (bit_vector);
    while i < ready.len() && i < MOST_REPORTED
        invariant
            i <= ready.len(),
            i <= MOST_REPORTED,
            forall|k: u32|
                k < MOST_REPORTED ==> #[trigger] bit(mask, k) == (k < i && ready@[k as int]),
        decreases ready.len() - i,
    {
        if ready[i] {
            let at: u32 = i as u32;
            let ghost before = mask;
            mask = mask | (1u32 << at);
            proof {
                assert forall|k: u32| k < MOST_REPORTED implies #[trigger] bit(mask, k) == (k < i + 1
                    && ready@[k as int]) by {
                    assert(bit(before, k) == (k < i && ready@[k as int]));
                    assert(((before | (1u32 << at)) & (1u32 << k) != 0) == (before & (1u32 << k) != 0
                        || k == at)) by (bit_vector)
                        requires
                            k < 32,
                            at < 32,
                    ;
                }
            }
        }
        i += 1;
    }
    mask
}

/// What a wait came to, from the number that the system call returned, whether a failure was a
/// signal's, and which descriptors it marked. An error or a hang-up counts as ready: reading the
/// descriptor is how to find out.
///
/// Any other failure on descriptors that are open means that something is gone. Reporting
/// everything as ready lets the caller's own read surface the real error.
pub fn woken(n: i32, interrupted: bool, ready: &Vec<bool>) -> (w: Wake)
    ensures
        w is Interrupted <==> n < 0 && interrupted,
        w is Timeout <==> n == 0,
        n > 0 ==> forall|i: int|
            0 <= i < MOST_REPORTED ==> #[trigger] reports(w, i) == (i < ready@.len() && ready@[i]),
        n < 0 && !interrupted ==> forall|i: int|
            0 <= i < MOST_REPORTED ==> #[trigger] reports(w, i),
{
    if n < 0 {
        if interrupted {
            return Wake::Interrupted;
        }
        let w = Wake::Ready(0xffff_ffff);
        proof {
            assert forall|i: int| 0 <= i < MOST_REPORTED implies #[trigger] reports(w, i) by {
                let k = i as u32;
                assert(0xffff_ffffu32 & (1u32 << k) != 0) by (bit_vector)
                    requires
                        k < 32,
                ;
            }
        }
        return w;
    }
    if n == 0 {
        return Wake::Timeout;
    }
    let mask: u32 = mask_of(ready);
    let w = Wake::Ready(mask);
    proof {
        assert forall|i: int| 0 <= i < MOST_REPORTED implies #[trigger] reports(w, i) == (i
            < ready@.len() && ready@[i]) by {
            assert(bit(mask, i as u32) == (i < ready@.len() && ready@[i]));
        }
    }
    w
}

/// A wait lasts at least as long as it is asked to, by less than a millisecond more, and never
/// turns into none; without a deadline it lasts as long as it takes.
pub proof fn law_a_wait_lasts_as_long_as_it_is_asked_to(us: u64)
    ensures
        wait_ms(None) == -1,
        wait_ms(Some(us)) >= 1,
        1 <= us <= 1_000_000_000 ==> us <= 1000 * wait_ms(Some(us)) < us + 1000,
        wait_ms(Some(us)) <= 0x7fff_ffff,
{
}

/// A wake that is no report reports nothing, and one that is reports each place by itself.
pub proof fn law_each_place_is_reported_by_itself(mask: u32, i: u32, k: u32)
    requires
        i < 32,
        k < 32,
    ensures
        !reports(Wake::Timeout, i as int),
        !reports(Wake::Interrupted, i as int),
        reports(Wake::Ready(1u32 << i), k as int) <==> i == k,
        reports(Wake::Ready(mask | (1u32 << i)), k as int) <==> i == k || reports(
            Wake::Ready(mask),
            k as int,
        ),
        !reports(Wake::Ready(0), k as int),
{
    assert(((1u32 << i) & (1u32 << k) != 0) == (i == k)) by (bit_vector)
        requires
            i < 32,
            k < 32,
    ;
    assert(((mask | (1u32 << i)) & (1u32 << k) != 0) == (mask & (1u32 << k) != 0 || k == i))
        by (bit_vector)
        requires
            i < 32,
            k < 32,
    ;
    assert((0u32 & (1u32 << k)) == 0) by (bit_vector)
        requires
            k < 32,
    ;
}

} // verus!
