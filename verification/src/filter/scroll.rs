//! The gesture of the `scroll` stage: when hand movement becomes scrolling.
//!
//! The amounts are arithmetic done elsewhere. What is decided here is whether a gesture is
//! engaged, what a sample does to it, and when a glide starts, goes on and stops.

use vstd::prelude::*;

verus! {

/// How held movement becomes scrolling.
#[derive(Debug, Clone, Copy, PartialEq, Eq, Structural)]
pub enum Mode {
    /// Hand movement scrolls directly, one-to-one with distance.
    Drag,
    /// The wheel, routed through the stage so that it picks up speed and momentum. The binding is
    /// a modifier here, not a grip.
    Wheel,
    /// Displacement from where the button went down sets a scroll velocity.
    Joystick,
}

/// The choices that shape a gesture.
#[derive(Debug, Clone, Copy, PartialEq, Eq, Structural)]
pub struct Settings {
    pub mode: Mode,
    /// Click to start and click to stop, rather than holding throughout.
    pub latch: bool,
    /// Hold the cursor still while the gesture runs.
    pub freeze_cursor: bool,
    /// Keep scrolling after a swipe is released, decaying from the speed it ended at.
    pub momentum: bool,
    /// Act with nothing held, in `wheel` mode.
    pub always_active: bool,
    /// Letting go of *everything* ends the glide.
    pub full_release_stops_momentum: bool,
}

/// Where a gesture stands.
#[derive(Debug, Clone, Copy, PartialEq, Eq, Structural)]
pub struct Gesture {
    pub was_held: bool,
    pub latched: bool,
    /// Whether the gesture was engaged on the previous sample.
    pub was_active: bool,
    /// Whether a velocity is being produced with no motion to drive it.
    pub coasting: bool,
}

/// What a sample says that a gesture depends on.
#[derive(Debug, Clone, Copy, PartialEq, Eq, Structural)]
pub struct Input {
    pub discontinuity: bool,
    /// Whether a whole scroll chord is held.
    pub held: bool,
    /// Whether any part of one is.
    pub partial: bool,
    /// Whether the wheel moved.
    pub wheel: bool,
    /// Whether any time has passed.
    pub elapsed: bool,
}

/// What to do with a sample. Each is done in the order of the fields, after everything has been
/// forgotten where the sample is a discontinuity.
#[derive(Debug, Clone, Copy, PartialEq, Eq, Structural)]
pub enum Plan {
    /// The wheel is the whole input.
    Wheel {
        /// Take the wheel's motion and clear it, so that nothing passes the original on as well.
        take: bool,
        /// Add the notch to the glide.
        seed: bool,
        /// Stop the glide.
        brake: bool,
    },
    /// Nothing is engaged: carry on whatever glide there is.
    Idle {
        /// Stop the glide before anything else.
        brake: bool,
        /// The gesture ended on this sample: forget the press origin and the rate.
        ended: bool,
        /// The glide starts from the rate that the gesture ended at; otherwise, where it ended,
        /// there is none.
        carry_on: bool,
    },
    /// The hand is on it: stop the glide and divert the motion.
    Engaged {
        /// Displacement sets a velocity, rather than distance an amount.
        joystick: bool,
        /// Take the motion away from the cursor.
        freeze: bool,
    },
}

/// The state in which nothing has happened yet.
pub open spec fn fresh() -> Gesture {
    Gesture { was_held: false, latched: false, was_active: false, coasting: false }
}

/// The state that a sample is judged from.
pub open spec fn start(g: Gesture, i: Input) -> Gesture {
    if i.discontinuity {
        fresh()
    } else {
        g
    }
}

/// Whether the latch is on after a sample: a press toggles it, a release does nothing.
pub open spec fn latch_after(s: Settings, g: Gesture, held: bool) -> bool {
    if s.latch && held && !g.was_held {
        !g.latched
    } else {
        g.latched
    }
}

/// Whether the gesture is engaged.
pub open spec fn engaged(s: Settings, g: Gesture, held: bool) -> bool {
    if s.latch {
        latch_after(s, g, held)
    } else {
        held
    }
}

/// Whether letting go stops a glide on this sample.
pub open spec fn brakes(s: Settings, i: Input) -> bool {
    s.full_release_stops_momentum && !i.partial
}

/// What to do with a sample.
pub open spec fn plan(s: Settings, g: Gesture, i: Input) -> Plan {
    let g = start(g, i);
    let active = engaged(s, g, i.held);
    if s.mode == Mode::Wheel {
        let acting = s.always_active || active;
        Plan::Wheel {
            take: acting && i.wheel,
            seed: acting && i.wheel && s.momentum && i.elapsed,
            brake: !acting && brakes(s, i),
        }
    } else if !active {
        Plan::Idle {
            brake: brakes(s, i),
            ended: g.was_active,
            carry_on: g.was_active && s.momentum && s.mode != Mode::Joystick && !brakes(s, i),
        }
    } else {
        Plan::Engaged { joystick: s.mode == Mode::Joystick, freeze: s.freeze_cursor }
    }
}

/// The state after a sample, before it is known whether anything coasts.
pub open spec fn after(s: Settings, g: Gesture, i: Input) -> Gesture {
    let g = start(g, i);
    Gesture {
        was_held: i.held,
        latched: latch_after(s, g, i.held),
        was_active: if s.mode == Mode::Wheel {
            g.was_active
        } else {
            engaged(s, g, i.held)
        },
        coasting: g.coasting,
    }
}

impl Gesture {
    pub fn new() -> (r: Self)
        ensures
            r == fresh(),
    {
        Gesture { was_held: false, latched: false, was_active: false, coasting: false }
    }

    /// Whether the gesture is engaged, resolving `latch` against the raw button state.
    fn engaged(&mut self, s: &Settings, held: bool) -> (r: bool)
        ensures
            r == engaged(*s, *old(self), held),
            *final(self) == (Gesture {
                was_held: held,
                latched: latch_after(*s, *old(self), held),
                ..*old(self)
            }),
    {
        let pressed = held && !self.was_held;
        self.was_held = held;
        if s.latch {
            if pressed {
                self.latched = !self.latched;
            }
            self.latched
        } else {
            held
        }
    }

    /// What to do with a sample.
    pub fn step(&mut self, s: &Settings, i: Input) -> (r: Plan)
        ensures
            r == plan(*s, *old(self), i),
            *final(self) == after(*s, *old(self), i),
    {
        if i.discontinuity {
            self.was_held = false;
            self.latched = false;
            self.was_active = false;
            self.coasting = false;
        }
        let was_active = self.was_active;
        let active = self.engaged(s, i.held);
        let brakes = s.full_release_stops_momentum && !i.partial;
        if s.mode == Mode::Wheel {
            let acting = s.always_active || active;
            return Plan::Wheel {
                take: acting && i.wheel,
                seed: acting && i.wheel && s.momentum && i.elapsed,
                brake: !acting && brakes,
            };
        }
        if !active {
            self.was_active = false;
            return Plan::Idle {
                brake: brakes,
                ended: was_active,
                carry_on: was_active && s.momentum && s.mode != Mode::Joystick && !brakes,
            };
        }
        self.was_active = true;
        Plan::Engaged { joystick: s.mode == Mode::Joystick, freeze: s.freeze_cursor }
    }

    /// Record whether a velocity runs with nothing driving it: a glide that has not died down, or
    /// a displacement past the deadzone.
    pub fn coasts(&mut self, coasting: bool)
        ensures
            *final(self) == (Gesture { coasting, ..*old(self) }),
    {
        self.coasting = coasting;
    }

    /// Whether the stage holds nothing back: no velocity runs, and no glide is owed. A drag is
    /// settled between samples, since it produces nothing without hand movement.
    pub fn settled(&self, gliding: bool) -> (b: bool)
        ensures
            b == (!self.coasting && !gliding),
    {
        !self.coasting && !gliding
    }
}

/// A gesture that nothing engages leaves motion and wheel alone.
pub proof fn law_an_unheld_gesture_touches_nothing(s: Settings, g: Gesture, i: Input)
    requires
        !engaged(s, start(g, i), i.held),
        !s.always_active,
    ensures
        !(plan(s, g, i) is Engaged),
        plan(s, g, i) matches Plan::Wheel { take, seed, .. } ==> !take && !seed,
{
}

/// A mode that is not `wheel` never takes the wheel, and `wheel` never diverts hand movement.
pub proof fn law_only_wheel_mode_takes_the_wheel(s: Settings, g: Gesture, i: Input)
    ensures
        plan(s, g, i) is Wheel <==> s.mode == Mode::Wheel,
{
}

/// A latched gesture outlives the release of its button, and a second press ends it.
pub proof fn law_a_latch_goes_on_and_off_by_pressing(s: Settings, g: Gesture, press: Input, i: Input)
    requires
        s.latch,
        press.held,
        !press.discontinuity,
        !i.discontinuity,
        !g.was_held,
    ensures
        // The press toggles.
        after(s, g, press).latched == !g.latched,
        // Holding on and letting go change nothing.
        after(s, after(s, g, press), i).latched == !g.latched,
        engaged(s, after(s, g, press), i.held) == !g.latched,
        // Pressing again once it was let go toggles back.
        !i.held ==> after(s, after(s, after(s, g, press), i), press).latched == g.latched,
{
}

/// Without momentum, and for a joystick, letting go hands nothing to a glide.
pub proof fn law_momentum_is_off_unless_asked_for(s: Settings, g: Gesture, i: Input)
    requires
        !s.momentum || s.mode == Mode::Joystick,
    ensures
        plan(s, g, i) matches Plan::Idle { carry_on, .. } ==> !carry_on,
        !s.momentum ==> (plan(s, g, i) matches Plan::Wheel { seed, .. } ==> !seed),
{
}

/// Where a full release is a brake, letting go of everything carries nothing on; keeping part of
/// the chord held does.
pub proof fn law_a_full_release_is_a_brake(s: Settings, g: Gesture, i: Input)
    requires
        s.full_release_stops_momentum,
        s.mode == Mode::Drag,
        !engaged(s, start(g, i), i.held),
    ensures
        !i.partial ==> plan(s, g, i) == (Plan::Idle {
            brake: true,
            ended: start(g, i).was_active,
            carry_on: false,
        }),
        i.partial ==> plan(s, g, i) == (Plan::Idle {
            brake: false,
            ended: start(g, i).was_active,
            carry_on: start(g, i).was_active && s.momentum,
        }),
{
}

/// A held modifier does not stop the momentum it is there to produce.
pub proof fn law_a_held_modifier_never_brakes(s: Settings, g: Gesture, i: Input)
    requires
        s.mode == Mode::Wheel,
        engaged(s, start(g, i), i.held),
    ensures
        plan(s, g, i) matches Plan::Wheel { brake, .. } && !brake,
{
}

/// A gap in time forgets a held button and a latch.
pub proof fn law_a_discontinuity_forgets_the_gesture(s: Settings, g: Gesture, h: Gesture, i: Input)
    requires
        i.discontinuity,
    ensures
        plan(s, g, i) == plan(s, h, i),
        after(s, g, i) == after(s, h, i),
{
}

/// A gesture without a latch runs exactly while its chord is held: hand movement is then diverted,
/// as a joystick where that is the mode, with the cursor frozen where that is chosen.
pub proof fn law_a_held_gesture_diverts_movement(s: Settings, g: Gesture, i: Input)
    requires
        !s.latch,
        s.mode != Mode::Wheel,
    ensures
        plan(s, g, i) is Engaged <==> i.held,
        i.held ==> plan(s, g, i) == (Plan::Engaged {
            joystick: s.mode == Mode::Joystick,
            freeze: s.freeze_cursor,
        }),
        after(s, g, i).was_active == i.held,
        after(s, g, i).was_held == i.held,
{
}

/// In `wheel` mode a held modifier takes the wheel whenever it moves, and adds it to a glide where
/// there is to be momentum and time has passed; without the modifier the wheel is left alone,
/// unless the stage is always to act.
pub proof fn law_a_held_modifier_takes_the_wheel(s: Settings, g: Gesture, i: Input)
    requires
        s.mode == Mode::Wheel,
        !s.latch,
    ensures
        plan(s, g, i) matches Plan::Wheel { take, seed, brake } && (take <==> i.wheel && (i.held
            || s.always_active)) && (seed <==> take && s.momentum && i.elapsed) && (brake
            ==> !i.held && !i.partial && s.full_release_stops_momentum),
{
}

/// Letting go ends a gesture on the sample that lets go, once, and hands its rate to a glide where
/// a drag has momentum and nothing brakes it.
pub proof fn law_letting_go_ends_a_gesture_once(s: Settings, g: Gesture, held: Input, free: Input)
    requires
        s.mode != Mode::Wheel,
        !s.latch,
        held.held,
        !free.held,
        !free.discontinuity,
    ensures
        plan(s, after(s, g, held), free) == (Plan::Idle {
            brake: s.full_release_stops_momentum && !free.partial,
            ended: true,
            carry_on: s.momentum && s.mode == Mode::Drag && !(s.full_release_stops_momentum
                && !free.partial),
        }),
        plan(s, after(s, after(s, g, held), free), free) == (Plan::Idle {
            brake: s.full_release_stops_momentum && !free.partial,
            ended: false,
            carry_on: false,
        }),
{
}

/// A gap in time is judged as though nothing had happened before it.
pub proof fn law_a_gap_starts_afresh(s: Settings, g: Gesture, i: Input)
    requires
        i.discontinuity,
    ensures
        plan(s, g, i) == plan(s, fresh(), Input { discontinuity: false, ..i }),
        after(s, g, i) == after(s, fresh(), Input { discontinuity: false, ..i }),
        !fresh().was_held && !fresh().latched && !fresh().was_active && !fresh().coasting,
{
}

} // verus!
