//! The choices of the `pressure` stage.
//!
//! How fast, how far and how long are floating point and stay with the caller; what follows from
//! them is decided here.

use vstd::prelude::*;

verus! {

/// Which motion the speed term reads.
#[derive(Debug, Clone, Copy, PartialEq, Eq, Structural)]
pub enum SpeedSource {
    /// Velocity of the drawn point.
    Output,
    /// Velocity of the raw input.
    Cursor,
}

/// What to do when the measured point stops moving.
#[derive(Debug, Clone, Copy, PartialEq, Eq, Structural)]
pub enum StallBehaviour {
    /// Freeze the velocity estimate.
    Hold,
    /// Let velocity fall toward zero, producing pressure hotspots.
    Decay,
}

/// What a sample does to the estimate of the speed.
#[derive(Debug, Clone, Copy, PartialEq, Eq, Structural)]
pub enum SpeedStep {
    /// Leave the estimate, and everything banked, alone.
    Untouched,
    /// Blend in the speed of this sample alone, and drop what was banked.
    Instant,
    /// Blend in the speed of everything banked with this sample, and start banking anew.
    Banked,
    /// Drop what was banked and hold the estimate.
    Discard,
    /// Bank this sample and hold the estimate.
    Bank,
}

/// A sample, as far as the estimate of the speed goes by it.
#[derive(Debug, Clone, Copy, PartialEq, Eq, Structural)]
pub struct Travel {
    /// Whether the sample contributed any distance at all.
    pub moved: bool,
    /// Whether the speed that would be blended in is a number.
    pub measurable: bool,
    /// Whether what is banked, this sample included, goes far enough to count as movement.
    pub far: bool,
    /// Whether banking it took longer than a stall may.
    pub long: bool,
}

/// What a sample does to the estimate.
///
/// A sample that contributed no distance is not banked at all: banking its time would inflate the
/// divisor and make the next measurement read as slow, which is the hotspot that holding prevents.
pub open spec fn speed_update(behaviour: StallBehaviour, t: Travel) -> SpeedStep {
    match behaviour {
        StallBehaviour::Decay => if t.measurable {
            SpeedStep::Instant
        } else {
            SpeedStep::Untouched
        },
        StallBehaviour::Hold => if !t.moved {
            SpeedStep::Untouched
        } else if t.far && t.measurable {
            SpeedStep::Banked
        } else if t.far || t.long {
            SpeedStep::Discard
        } else {
            SpeedStep::Bank
        },
    }
}

/// What a sample does to the estimate of the speed.
pub fn speed_step(behaviour: StallBehaviour, t: Travel) -> (r: SpeedStep)
    ensures
        r == speed_update(behaviour, t),
{
    match behaviour {
        StallBehaviour::Decay => {
            if t.measurable {
                SpeedStep::Instant
            } else {
                SpeedStep::Untouched
            }
        },
        StallBehaviour::Hold => {
            if !t.moved {
                SpeedStep::Untouched
            } else if t.far {
                if t.measurable {
                    SpeedStep::Banked
                } else {
                    SpeedStep::Discard
                }
            } else if t.long {
                SpeedStep::Discard
            } else {
                SpeedStep::Bank
            }
        },
    }
}

/// Where a stall holds, the estimate changes only by travel that counts as movement, and time
/// spent standing still is never banked.
pub proof fn law_a_stall_holds_the_estimate(t: Travel)
    ensures
        !(speed_update(StallBehaviour::Hold, t) is Instant),
        speed_update(StallBehaviour::Hold, t) is Banked ==> t.moved && t.far,
        !t.moved ==> speed_update(StallBehaviour::Hold, t) is Untouched,
{
}

/// What a sample does to the envelope that tapers a stroke's ends.
#[derive(Debug, Clone, Copy, PartialEq, Eq, Structural)]
pub enum EnvelopeStep {
    /// Go to the target at once.
    Reach,
    /// Go one step toward the target.
    Approach,
    /// Stay.
    Stay,
}

/// What a sample does to the envelope.
pub open spec fn envelope_of(tapers: bool, measurable: bool, within: bool) -> EnvelopeStep {
    if !tapers || (measurable && within) {
        EnvelopeStep::Reach
    } else if measurable {
        EnvelopeStep::Approach
    } else {
        EnvelopeStep::Stay
    }
}

/// What a sample does to the envelope: `tapers` where a ramp is asked for, `measurable` where its
/// step is a number, `within` where the target is no further than one step.
///
/// Reaching the target from within a step is what keeps an envelope that is there from moving
/// off again.
pub fn envelope_step(tapers: bool, measurable: bool, within: bool) -> (r: EnvelopeStep)
    ensures
        r == envelope_of(tapers, measurable, within),
{
    if !tapers {
        EnvelopeStep::Reach
    } else if !measurable {
        EnvelopeStep::Stay
    } else if within {
        EnvelopeStep::Reach
    } else {
        EnvelopeStep::Approach
    }
}

/// Where a stall decays every measurable sample counts by itself. Where it holds, travel counts
/// once it is far enough and measurable, is dropped where it took too long or cannot be measured,
/// and is banked until then.
pub proof fn law_what_becomes_of_travel(t: Travel)
    ensures
        t.measurable ==> speed_update(StallBehaviour::Decay, t) == SpeedStep::Instant,
        !t.measurable ==> speed_update(StallBehaviour::Decay, t) == SpeedStep::Untouched,
        t.moved && t.far && t.measurable ==> speed_update(StallBehaviour::Hold, t)
            == SpeedStep::Banked,
        t.moved && t.far && !t.measurable ==> speed_update(StallBehaviour::Hold, t)
            == SpeedStep::Discard,
        t.moved && !t.far && t.long ==> speed_update(StallBehaviour::Hold, t)
            == SpeedStep::Discard,
        t.moved && !t.far && !t.long ==> speed_update(StallBehaviour::Hold, t) == SpeedStep::Bank,
{
}

/// Without a taper the envelope is at its target at once. With one it reaches the target from
/// within a step, approaches it from further off, and stays where a step cannot be measured.
pub proof fn law_an_envelope_reaches_its_target(measurable: bool, within: bool)
    ensures
        envelope_of(false, measurable, within) == EnvelopeStep::Reach,
        envelope_of(true, true, true) == EnvelopeStep::Reach,
        envelope_of(true, true, false) == EnvelopeStep::Approach,
        envelope_of(true, false, within) == EnvelopeStep::Stay,
{
}

} // verus!
