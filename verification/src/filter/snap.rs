//! When the `snap` stage constrains, and from where.
//!
//! Engaging and releasing never move the cursor: on release the stage re-anchors to where the
//! output actually is, so that what was discarded stays discarded.

use vstd::prelude::*;

verus! {

/// What a sample does to the constraint.
#[derive(Debug, Clone, Copy, PartialEq, Eq, Structural)]
pub enum SnapStep {
    /// The sample passes through untouched.
    Pass {
        /// The constraint was let go on this sample: the constrained position becomes the truth,
        /// and anchor and direction are forgotten.
        release: bool,
    },
    /// The sample is constrained.
    Constrain {
        /// A new segment begins where the position is, with no direction yet.
        anchor: bool,
    },
}

/// Where the constraint stands.
#[derive(Debug, Clone, Copy, PartialEq, Eq, Structural)]
pub struct Snap {
    /// When false the constraint is always on and the modifier is irrelevant.
    pub needs_modifier: bool,
    pub engaged: bool,
    /// Whether a line has its direction.
    pub committed: bool,
}

/// What a sample does, from whether the stage was engaged once a discontinuity has cleared it.
pub open spec fn snap_step(s: Snap, discontinuity: bool, constrain: bool) -> SnapStep {
    let engaged = s.engaged && !discontinuity;
    if s.needs_modifier && !constrain {
        SnapStep::Pass { release: engaged }
    } else {
        SnapStep::Constrain { anchor: !engaged }
    }
}

/// Whether a line takes its direction, and the constraint after it.
pub open spec fn commitment(s: Snap, travelled_enough: bool) -> (bool, Snap) {
    (
        !s.committed && travelled_enough,
        Snap { committed: s.committed || travelled_enough, ..s },
    )
}

impl Snap {
    pub fn new(needs_modifier: bool) -> (r: Self)
        ensures
            r == (Snap { needs_modifier, engaged: false, committed: false }),
    {
        Snap { needs_modifier, engaged: false, committed: false }
    }

    /// Forget the segment.
    pub fn clear(&mut self)
        ensures
            *final(self) == (Snap { engaged: false, committed: false, ..*old(self) }),
    {
        self.engaged = false;
        self.committed = false;
    }

    /// What a sample does to the constraint.
    pub fn step(&mut self, discontinuity: bool, constrain: bool) -> (r: SnapStep)
        ensures
            r == snap_step(*old(self), discontinuity, constrain),
            final(self).needs_modifier == old(self).needs_modifier,
            final(self).engaged == r is Constrain,
            final(self).committed == (old(self).committed && !discontinuity && (r matches
                SnapStep::Constrain { anchor } && !anchor || r == (SnapStep::Pass {
                release: false,
            }))),
    {
        if discontinuity {
            self.clear();
        }
        if self.needs_modifier && !constrain {
            let release = self.engaged;
            if release {
                self.clear();
            }
            return SnapStep::Pass { release };
        }
        let anchor = !self.engaged;
        if anchor {
            self.engaged = true;
            self.committed = false;
        }
        SnapStep::Constrain { anchor }
    }

    /// Whether a line takes its direction now: once, after enough travel to mean something.
    pub fn commit(&mut self, travelled_enough: bool) -> (r: bool)
        ensures
            (r, *final(self)) == commitment(*old(self), travelled_enough),
    {
        if !self.committed && travelled_enough {
            self.committed = true;
            return true;
        }
        false
    }
}

/// Without its modifier the stage is pass-through; one that needs none always constrains.
pub proof fn law_the_modifier_decides(s: Snap, discontinuity: bool, constrain: bool)
    ensures
        snap_step(s, discontinuity, constrain) is Pass <==> s.needs_modifier && !constrain,
{
}

/// Engaging again starts a fresh segment.
pub proof fn law_re_engaging_starts_afresh(s: Snap, discontinuity: bool)
    requires
        !s.engaged,
    ensures
        snap_step(s, discontinuity, true) == (SnapStep::Constrain { anchor: true }),
{
}

/// The constraint takes a new anchor when it engages and keeps it while it stays engaged; letting
/// go of the modifier releases it once.
pub proof fn law_a_constraint_keeps_its_anchor(s: Snap)
    requires
        s.needs_modifier,
    ensures
        s.engaged ==> snap_step(s, false, true) == (SnapStep::Constrain { anchor: false }),
        s.engaged ==> snap_step(s, true, true) == (SnapStep::Constrain { anchor: true }),
        s.engaged ==> snap_step(s, false, false) == (SnapStep::Pass { release: true }),
        !s.engaged ==> snap_step(s, false, false) == (SnapStep::Pass { release: false }),
        snap_step(s, true, false) == (SnapStep::Pass { release: false }),
{
}

/// A line takes its direction once, when it has travelled far enough, and keeps it.
pub proof fn law_a_line_takes_its_direction_once(s: Snap, enough: bool)
    ensures
        commitment(s, true).0 == !s.committed,
        commitment(s, true).1.committed,
        !commitment(commitment(s, true).1, enough).0,
        commitment(s, false) == (false, s),
        commitment(s, enough).1.engaged == s.engaged,
        commitment(s, enough).1.needs_modifier == s.needs_modifier,
{
}

} // verus!
