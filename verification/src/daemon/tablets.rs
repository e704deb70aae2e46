//! The set of virtual tablets, one per screen, and the handover between them.
//!
//! A single tablet spanning the desktop divides one fixed surface among every monitor, so
//! precision falls with each screen added. One tablet per screen avoids that.
//!
//! Devices are created and destroyed elsewhere: what is kept here is which of them exist, which
//! holds its tool in proximity, and what has to be done to them.

use crate::text::owned;
use vstd::prelude::*;
use vstd::string::*;

verus! {

/// A screen of the desktop, in pixels.
#[derive(Debug)]
pub struct Screen {
    pub name: String,
    pub x: i32,
    pub y: i32,
    pub width: i32,
    pub height: i32,
}

/// The name of the tablet for a screen, or of the one that covers the desktop.
pub open spec fn name_for(screen: Option<Seq<char>>) -> Seq<char> {
    match screen {
        Some(s) => "StabMouse tablet"@ + " "@ + s,
        None => "StabMouse tablet"@,
    }
}

/// The name of the tablet for a screen.
///
/// The name is the identity a compositor keys per-device settings off, so it is stable across
/// teardown and recreation and holds nothing volatile.
pub fn device_name(screen: Option<&Screen>) -> (r: String)
    ensures
        r@ == name_for(
            match screen {
                Some(s) => Some(s.name@),
                None => None,
            },
        ),
{
    match screen {
        Some(s) => owned("StabMouse tablet").concat(" ").concat(s.name.as_str()),
        None => owned("StabMouse tablet"),
    }
}

/// One virtual tablet, and the choice of whether it survives leaving tablet output.
#[derive(Debug)]
pub struct Tablet {
    pub name: String,
    /// Whether the device exists.
    pub present: bool,
    /// Whether its tool is in proximity.
    pub in_proximity: bool,
    /// Destroy the device when tablet output is left, instead of keeping it alive.
    pub destroy_on_leave: bool,
}

/// Something to do to the device of a tablet.
#[derive(Debug, Clone, Copy, PartialEq, Eq, Structural)]
pub enum DeviceStep {
    /// Take the tool of this tablet out of proximity.
    Lift(usize),
    /// Destroy the device of this tablet.
    Destroy(usize),
    /// Create the device of this tablet, under its old name.
    Create(usize),
}

/// What leaving asks of a device.
#[derive(Debug, Clone, Copy, PartialEq, Eq, Structural)]
pub struct Leaving {
    pub lift: bool,
    pub destroy: bool,
}

/// A tablet whose pen has been lifted.
pub open spec fn lifted(t: Tablet) -> Tablet {
    Tablet { in_proximity: false, ..t }
}

/// A tablet that has been left.
pub open spec fn left(t: Tablet) -> Tablet {
    Tablet { in_proximity: false, present: t.present && !t.destroy_on_leave, ..t }
}

impl Tablet {
    /// A tool in proximity is the tool of a device that exists.
    pub open spec fn wf(&self) -> bool {
        self.in_proximity ==> self.present
    }

    /// A tablet whose device was just created.
    pub fn new(name: String, destroy_on_leave: bool) -> (r: Self)
        ensures
            r.wf(),
            r == (Tablet { name, present: true, in_proximity: false, destroy_on_leave }),
    {
        Tablet { name, present: true, in_proximity: false, destroy_on_leave }
    }

    pub fn name(&self) -> (s: &str)
        ensures
            s@ == self.name@,
    {
        self.name.as_str()
    }

    /// Whether the device currently exists.
    pub fn present(&self) -> (b: bool)
        ensures
            b == self.present,
    {
        self.present
    }

    /// Whether this tablet's tool is in proximity.
    pub fn in_proximity(&self) -> (b: bool)
        ensures
            b == self.in_proximity,
    {
        self.in_proximity
    }

    /// See to it that the device exists, creating it if a previous leave destroyed it. Whether it
    /// has to be created.
    pub fn ensure(&mut self) -> (create: bool)
        ensures
            create == !old(self).present,
            *final(self) == (Tablet { present: true, ..*old(self) }),
    {
        let create = !self.present;
        self.present = true;
        create
    }

    /// The pen reported a position, which brings the tool into proximity.
    pub fn pen(&mut self)
        requires
            old(self).present,
        ensures
            *final(self) == (Tablet { in_proximity: true, ..*old(self) }),
    {
        self.in_proximity = true;
    }

    /// Lift the pen without tearing anything down. Whether there was anything to lift.
    ///
    /// Separate from [`Tablet::leave`] because it runs on every report: destroying and recreating
    /// the device each time would be catastrophic rather than merely wasteful.
    pub fn lift(&mut self) -> (lift: bool)
        ensures
            lift == old(self).in_proximity,
            *final(self) == lifted(*old(self)),
    {
        let lift = self.in_proximity;
        self.in_proximity = false;
        lift
    }

    /// Leave tablet output: lift the pen, and destroy the device if configured to.
    ///
    /// The proximity-out comes before any teardown and unconditionally: a device that vanishes
    /// mid-stroke leaves applications holding a pen that is still down.
    pub fn leave(&mut self) -> (r: Leaving)
        ensures
            r.lift == old(self).present,
            r.destroy == (old(self).present && old(self).destroy_on_leave),
            *final(self) == left(*old(self)),
    {
        let r = Leaving { lift: self.present, destroy: self.present && self.destroy_on_leave };
        self.in_proximity = false;
        self.present = self.present && !self.destroy_on_leave;
        r
    }
}

/// Leaving a tablet that has been left changes nothing.
pub proof fn law_leaving_twice_is_harmless(t: Tablet)
    ensures
        left(left(t)) == left(t),
        !left(t).in_proximity,
        left(t).present <==> t.present && !t.destroy_on_leave,
{
}

/// Lifting the pen destroys nothing, whatever leaving would do.
pub proof fn law_lifting_does_not_destroy(t: Tablet)
    ensures
        lifted(t).present == t.present,
        !lifted(t).in_proximity,
{
}

/// The virtual tablets.
#[derive(Debug)]
pub struct Tablets {
    pub tablets: Vec<Tablet>,
    /// The one that the position is on, as far as it is known.
    pub active: usize,
    /// Whether every tablet was successfully confined to its screen.
    pub placed: bool,
}

/// The tablet that receives the pen.
pub open spec fn active_of(t: Tablets) -> int {
    if t.active < t.tablets@.len() {
        t.active as int
    } else if t.tablets@.len() > 0 {
        t.tablets@.len() - 1
    } else {
        0
    }
}

/// The steps for lifting every pen that is in proximity but for one.
pub open spec fn lift_steps(tablets: Seq<Tablet>, keep: int) -> Seq<DeviceStep>
    decreases tablets.len(),
{
    if tablets.len() == 0 {
        seq![]
    } else {
        let i = tablets.len() - 1;
        let rest = lift_steps(tablets.drop_last(), keep);
        if i != keep && tablets.last().in_proximity {
            rest.push(DeviceStep::Lift(i as usize))
        } else {
            rest
        }
    }
}

/// The steps for leaving one tablet.
pub open spec fn leave_steps_of(t: Tablet, i: usize) -> Seq<DeviceStep> {
    if !t.present {
        seq![]
    } else if t.destroy_on_leave {
        seq![DeviceStep::Lift(i), DeviceStep::Destroy(i)]
    } else {
        seq![DeviceStep::Lift(i)]
    }
}

/// The steps for leaving every tablet.
pub open spec fn leave_steps(tablets: Seq<Tablet>) -> Seq<DeviceStep>
    decreases tablets.len(),
{
    if tablets.len() == 0 {
        seq![]
    } else {
        leave_steps(tablets.drop_last()) + leave_steps_of(
            tablets.last(),
            (tablets.len() - 1) as usize,
        )
    }
}

/// The tablets with every pen lifted but for one.
pub open spec fn lifted_but(tablets: Seq<Tablet>, keep: int) -> Seq<Tablet> {
    Seq::new(
        tablets.len(),
        |i: int|
            if i == keep {
                tablets[i]
            } else {
                lifted(tablets[i])
            },
    )
}

/// The tablets once each has been left.
pub open spec fn all_left(tablets: Seq<Tablet>) -> Seq<Tablet> {
    Seq::new(tablets.len(), |i: int| left(tablets[i]))
}

/// Whether some tool is in proximity.
pub open spec fn some_live(tablets: Seq<Tablet>) -> bool {
    exists|i: int| 0 <= i < tablets.len() && (#[trigger] tablets[i]).in_proximity
}

fn lift_but(tablets: &mut Vec<Tablet>, keep: Option<usize>) -> (r: Vec<DeviceStep>)
    ensures
        final(tablets)@ == lifted_but(
            old(tablets)@,
            match keep {
                Some(k) => k as int,
                None => -1,
            },
        ),
        r@ == lift_steps(
            old(tablets)@,
            match keep {
                Some(k) => k as int,
                None => -1,
            },
        ),
{
    let ghost before = tablets@;
    let ghost kept: int = match keep {
        Some(k) => k as int,
        None => -1,
    };
    let mut r: Vec<DeviceStep> = Vec::new();
    let mut i: usize = 0;
    assert(before.take(0) =~= Seq::<Tablet>::empty());
    while i < tablets.len()
        invariant
            i <= tablets@.len(),
            tablets@.len() == before.len(),
            kept == (match keep {
                Some(k) => k as int,
                None => -1,
            }),
            forall|k: int| i <= k < before.len() ==> tablets@[k] == before[k],
            forall|k: int|
                0 <= k < i ==> #[trigger] tablets@[k] == if k == kept {
                    before[k]
                } else {
                    lifted(before[k])
                },
            r@ == lift_steps(before.take(i as int), kept),
        decreases tablets.len() - i,
    {
        let ghost now = before.take(i + 1);
        proof {
            assert(now.drop_last() =~= before.take(i as int));
            assert(now.last() == before[i as int]);
        }
        let keep_this = match keep {
            Some(k) => k == i,
            None => false,
        };
        if !keep_this {
            if tablets[i].lift() {
                r.push(DeviceStep::Lift(i));
            }
        }
        i += 1;
    }
    proof {
        assert(before.take(i as int) =~= before);
        assert(tablets@ =~= lifted_but(before, kept));
    }
    r
}

impl Tablets {
    /// Every tool in proximity is the tool of a device that exists.
    pub open spec fn wf(&self) -> bool {
        forall|i: int| 0 <= i < self.tablets@.len() ==> (#[trigger] self.tablets@[i]).wf()
    }

    /// One tablet per screen. Placing them is a separate step: it reaches out and changes the
    /// running desktop's settings.
    pub fn per_screen(screens: &Vec<Screen>, destroy_on_leave: bool) -> (r: Self)
        ensures
            r.wf(),
            r.active == 0,
            !r.placed,
            r.tablets@.len() == screens@.len(),
            forall|i: int|
                0 <= i < r.tablets@.len() ==> {
                    let t = #[trigger] r.tablets@[i];
                    &&& t.name@ == name_for(Some(screens@[i].name@))
                    &&& t.present
                    &&& !t.in_proximity
                    &&& t.destroy_on_leave == destroy_on_leave
                },
    {
        let mut tablets: Vec<Tablet> = Vec::new();
        let mut i: usize = 0;
        while i < screens.len()
            invariant
                i <= screens.len(),
                tablets@.len() == i,
                forall|k: int|
                    0 <= k < i ==> {
                        let t = #[trigger] tablets@[k];
                        &&& t.name@ == name_for(Some(screens@[k].name@))
                        &&& t.present
                        &&& !t.in_proximity
                        &&& t.destroy_on_leave == destroy_on_leave
                    },
            decreases screens.len() - i,
        {
            tablets.push(Tablet::new(device_name(Some(&screens[i])), destroy_on_leave));
            i += 1;
        }
        Tablets { tablets, active: 0, placed: false }
    }

    /// One desktop-wide tablet, for when the screen layout is unknown.
    pub fn single(destroy_on_leave: bool) -> (r: Self)
        ensures
            r.wf(),
            r.active == 0,
            r.placed,
            r.tablets@.len() == 1,
            r.tablets@[0].name@ == name_for(None),
            r.tablets@[0].present,
            !r.tablets@[0].in_proximity,
            r.tablets@[0].destroy_on_leave == destroy_on_leave,
    {
        let mut tablets: Vec<Tablet> = Vec::new();
        tablets.push(Tablet::new(device_name(None), destroy_on_leave));
        Tablets { tablets, active: 0, placed: true }
    }

    /// Whether there is anything to ask of the compositor. One tablet on one screen is not: that
    /// covering the desktop *is* its correct placement.
    pub fn needs_placing(&self) -> (b: bool)
        ensures
            b == (self.tablets@.len() >= 2),
    {
        self.tablets.len() >= 2
    }

    /// Record what placing came to: `None` where the compositor offers no such setting, else
    /// whether each tablet was placed. Every tablet is attempted, so one that failed costs the
    /// others nothing.
    pub fn place(&mut self, results: Option<&Vec<bool>>)
        ensures
            *final(self) == (Tablets { placed: final(self).placed, ..*old(self) }),
            final(self).placed == is_placed(
                *old(self),
                match results {
                    None => None,
                    Some(each) => Some(each@),
                },
            ),
    {
        if self.tablets.len() < 2 {
            self.placed = true;
            return;
        }
        if let Some(each) = results {
            let mut all = true;
            let mut i: usize = 0;
            while i < each.len()
                invariant
                    i <= each.len(),
                    all == !each@.take(i as int).contains(false),
                decreases each.len() - i,
            {
                proof {
                    let now = each@.take(i + 1);
                    let was = each@.take(i as int);
                    assert(now =~= was.push(each@[i as int]));
                    if was.contains(false) {
                        let k = choose|k: int| 0 <= k < was.len() && was[k] == false;
                        assert(now[k] == false);
                    }
                    assert(now[i as int] == each@[i as int]);
                }
                all = all && each[i];
                i += 1;
            }
            assert(each@.take(i as int) =~= each@);
            self.placed = all;
        }
    }

    pub fn placed(&self) -> (b: bool)
        ensures
            b == self.placed,
    {
        self.placed
    }

    pub fn len(&self) -> (n: usize)
        ensures
            n == self.tablets@.len(),
    {
        self.tablets.len()
    }

    pub fn per_screen_active(&self) -> (b: bool)
        ensures
            b == (self.tablets@.len() > 1),
    {
        self.tablets.len() > 1
    }

    pub fn set_destroy_on_leave(&mut self, destroy: bool)
        ensures
            *final(self) == (Tablets { tablets: final(self).tablets, ..*old(self) }),
            final(self).tablets@.len() == old(self).tablets@.len(),
            forall|i: int|
                0 <= i < old(self).tablets@.len() ==> #[trigger] final(self).tablets@[i] == (
                Tablet { destroy_on_leave: destroy, ..old(self).tablets@[i] }),
    {
        let ghost before = self.tablets@;
        let mut i: usize = 0;
        while i < self.tablets.len()
            invariant
                i <= self.tablets@.len(),
                self.tablets@.len() == before.len(),
                self.active == old(self).active,
                self.placed == old(self).placed,
                before == old(self).tablets@,
                forall|k: int| i <= k < before.len() ==> self.tablets@[k] == before[k],
                forall|k: int|
                    0 <= k < i ==> #[trigger] self.tablets@[k] == (Tablet {
                        destroy_on_leave: destroy,
                        ..before[k]
                    }),
            decreases self.tablets.len() - i,
        {
            self.tablets[i].destroy_on_leave = destroy;
            i += 1;
        }
    }

    /// The tablet that receives the pen.
    pub fn active_index(&self) -> (i: usize)
        ensures
            i == active_of(*self),
    {
        if self.active < self.tablets.len() {
            self.active
        } else if self.tablets.len() > 0 {
            self.tablets.len() - 1
        } else {
            0
        }
    }

    /// The active tablet's name, and whether its device currently exists. With teardown enabled a
    /// tablet is legitimately absent between strokes, and "no such device" would read as a fault.
    pub fn describe_active(&self) -> (r: String)
        ensures
            r@ == if self.tablets@.len() == 0 {
                "none"@
            } else {
                let t = self.tablets@[active_of(*self)];
                if t.present {
                    t.name@
                } else {
                    t.name@ + " (absent until next used)"@
                }
            },
    {
        if self.tablets.len() == 0 {
            return owned("none");
        }
        let t = &self.tablets[self.active_index()];
        if t.present() {
            owned(t.name())
        } else {
            owned(t.name()).concat(" (absent until next used)")
        }
    }

    /// Follow the position to the tablet it is on now, handing over from the one it came from.
    ///
    /// The handover is performed here rather than left to the caller: a tablet that keeps its tool
    /// in proximity while another takes over leaves two tools claiming the pointer.
    pub fn advance(&mut self, active: usize, crossed_from: Option<usize>) -> (r: Vec<DeviceStep>)
        ensures
            is_handover(r@, *old(self), *final(self), active, crossed_from),
    {
        let mut r: Vec<DeviceStep> = Vec::new();
        self.active = active;
        if let Some(from) = crossed_from {
            if from < self.tablets.len() {
                let l = self.tablets[from].leave();
                if l.lift {
                    r.push(DeviceStep::Lift(from));
                }
                if l.destroy {
                    r.push(DeviceStep::Destroy(from));
                }
                assert(r@ =~= leave_steps_of(old(self).tablets@[from as int], from));
            }
        }
        r
    }

    /// The pen is about to report a position on the active tablet, which may have to be created
    /// first.
    pub fn use_active(&mut self) -> (r: Option<DeviceStep>)
        requires
            old(self).tablets@.len() > 0,
        ensures
            is_use(r, *old(self), *final(self)),
    {
        let i: usize = self.active_index();
        let create = self.tablets[i].ensure();
        self.tablets[i].pen();
        assert(self.tablets@ =~= old(self).tablets@.update(
            i as int,
            used(old(self).tablets@[i as int]),
        ));
        if create {
            Some(DeviceStep::Create(i))
        } else {
            None
        }
    }

    /// Whether any tablet still has its tool in proximity.
    pub fn any_in_proximity(&self) -> (b: bool)
        ensures
            b == some_live(self.tablets@),
    {
        let mut i: usize = 0;
        while i < self.tablets.len()
            invariant
                i <= self.tablets.len(),
                forall|k: int| 0 <= k < i ==> !(#[trigger] self.tablets@[k]).in_proximity,
            decreases self.tablets.len() - i,
        {
            if self.tablets[i].in_proximity() {
                assert(self.tablets@[i as int].in_proximity);
                return true;
            }
            i += 1;
        }
        false
    }

    /// Lift every pen that is still down, without destroying anything.
    ///
    /// While output is going to the mouse, no tablet may be in proximity. Checking the state each
    /// time, rather than acting on transitions, is deliberate: missing one transition leaves two
    /// live cursors.
    pub fn lift_all(&mut self) -> (r: Vec<DeviceStep>)
        ensures
            final(self).active == old(self).active,
            final(self).placed == old(self).placed,
            final(self).tablets@ == lifted_but(old(self).tablets@, -1),
            r@ == lift_steps(old(self).tablets@, -1),
    {
        lift_but(&mut self.tablets, None)
    }

    /// Lift every pen except the one currently receiving input.
    pub fn lift_inactive(&mut self) -> (r: Vec<DeviceStep>)
        ensures
            final(self).active == old(self).active,
            final(self).placed == old(self).placed,
            final(self).tablets@ == lifted_but(old(self).tablets@, active_of(*old(self))),
            r@ == lift_steps(old(self).tablets@, active_of(*old(self))),
    {
        let keep: usize = self.active_index();
        lift_but(&mut self.tablets, Some(keep))
    }

    /// Leave every tablet, not just the active one: a crossing that failed partway can leave an
    /// inactive one still in proximity.
    pub fn leave_all(&mut self) -> (r: Vec<DeviceStep>)
        ensures
            final(self).active == old(self).active,
            final(self).placed == old(self).placed,
            final(self).tablets@ == all_left(old(self).tablets@),
            r@ == leave_steps(old(self).tablets@),
    {
        let ghost before = self.tablets@;
        let mut r: Vec<DeviceStep> = Vec::new();
        let mut i: usize = 0;
        assert(before.take(0) =~= Seq::<Tablet>::empty());
        while i < self.tablets.len()
            invariant
                i <= self.tablets@.len(),
                self.tablets@.len() == before.len(),
                self.active == old(self).active,
                self.placed == old(self).placed,
                before == old(self).tablets@,
                forall|k: int| i <= k < before.len() ==> self.tablets@[k] == before[k],
                forall|k: int| 0 <= k < i ==> #[trigger] self.tablets@[k] == left(before[k]),
                r@ == leave_steps(before.take(i as int)),
            decreases self.tablets.len() - i,
        {
            let ghost now = before.take(i + 1);
            let ghost so_far = r@;
            proof {
                assert(now.drop_last() =~= before.take(i as int));
                assert(now.last() == before[i as int]);
            }
            let l = self.tablets[i].leave();
            if l.lift {
                r.push(DeviceStep::Lift(i));
            }
            if l.destroy {
                r.push(DeviceStep::Destroy(i));
            }
            assert(r@ =~= so_far + leave_steps_of(before[i as int], i));
            i += 1;
        }
        proof {
            assert(before.take(i as int) =~= before);
            assert(self.tablets@ =~= all_left(before));
        }
        r
    }
}

/// One tablet per screen when the layout is known, otherwise a single desktop-wide one. A *known*
/// single screen takes the per-screen path too: the position can be tracked there.
pub fn build_tablets(screens: &Vec<Screen>, destroy_on_leave: bool) -> (r: Tablets)
    ensures
        r.wf(),
        r.active == 0,
        r.placed == (screens@.len() == 0),
        r.tablets@.len() == if screens@.len() == 0 {
            1
        } else {
            screens@.len()
        },
        forall|i: int|
            0 <= i < r.tablets@.len() ==> {
                let t = #[trigger] r.tablets@[i];
                &&& t.name@ == name_for(
                    if screens@.len() == 0 {
                        None
                    } else {
                        Some(screens@[i].name@)
                    },
                )
                &&& t.present
                &&& !t.in_proximity
                &&& t.destroy_on_leave == destroy_on_leave
            },
{
    if screens.len() == 0 {
        Tablets::single(destroy_on_leave)
    } else {
        Tablets::per_screen(screens, destroy_on_leave)
    }
}

/// Once the others are lifted, at most one tablet is live: a tool left in proximity on one screen
/// while another drives the cursor elsewhere means that both draw at once.
pub proof fn law_only_one_tablet_is_live(t: Tablets, i: int, j: int)
    requires
        0 <= i < t.tablets@.len(),
        0 <= j < t.tablets@.len(),
        lifted_but(t.tablets@, active_of(t))[i].in_proximity,
        lifted_but(t.tablets@, active_of(t))[j].in_proximity,
    ensures
        i == j,
{
}

/// Once all are lifted, nothing is in proximity, and every device that existed still does.
pub proof fn law_lifting_all_leaves_nothing_live(tablets: Seq<Tablet>)
    ensures
        !some_live(lifted_but(tablets, -1)),
        forall|i: int|
            0 <= i < tablets.len() ==> (#[trigger] lifted_but(tablets, -1)[i]).present
                == tablets[i].present,
{
}

/// Leaving all of them leaves nothing in proximity either, and what survives is what was
/// configured to.
pub proof fn law_leaving_all_leaves_nothing_live(tablets: Seq<Tablet>)
    ensures
        !some_live(all_left(tablets)),
        forall|i: int|
            0 <= i < tablets.len() ==> (#[trigger] all_left(tablets)[i]).present
                == (tablets[i].present && !tablets[i].destroy_on_leave),
{
}

/// The tablet once the pen has reported a position on it.
pub open spec fn used(t: Tablet) -> Tablet {
    Tablet { present: true, in_proximity: true, ..t }
}

/// A crossing ends with the tool of the screen that was left out of proximity, so that using the
/// new one leaves at most that one live.
pub proof fn law_a_crossing_hands_over(tablets: Seq<Tablet>, from: int, to: int, i: int)
    requires
        0 <= from < tablets.len(),
        0 <= to < tablets.len(),
        from != to,
        forall|k: int|
            0 <= k < tablets.len() && (#[trigger] tablets[k]).in_proximity ==> k == from,
        0 <= i < tablets.len(),
    ensures
        tablets.update(from, left(tablets[from])).update(to, used(tablets[to]))[i].in_proximity
            <==> i == to,
{
}

/// How long a compositor is given to adopt a tablet, in microseconds. Adopting one takes some
/// fifty milliseconds. Waiting is paid for once, while giving up too early leaves a tablet that
/// covers the whole desktop.
pub const ADOPTION_TIMEOUT_US: u64 = 2_000_000;

/// The time between two looks for a tablet, in microseconds. Each look is a round trip, so looking
/// much more often would measure the bus rather than the device.
pub const ADOPTION_POLL_US: u64 = 5_000;

/// How often a compositor is asked for a new pointer.
pub const POINTER_LOOKS: u64 = 40;

/// The time between two looks for a pointer, in microseconds.
pub const POINTER_POLL_US: u64 = 50_000;

/// What a look for a new device leads to.
#[derive(Debug, Clone, Copy, PartialEq, Eq, Structural)]
pub enum Adoption {
    /// The compositor knows the device, which can be addressed from now on.
    Known,
    /// It does not, and there is time to look again.
    Wait,
    /// It does not, and it has been given long enough.
    GivenUp,
}

/// What a look for a new device leads to.
pub open spec fn adoption_of(known: bool, spent: int, limit: int) -> Adoption {
    if known {
        Adoption::Known
    } else if spent >= limit {
        Adoption::GivenUp
    } else {
        Adoption::Wait
    }
}

/// What a look for a new device leads to, from how much of what it is given is spent: of a time,
/// or of a number of looks.
pub fn adoption_step(known: bool, spent: u64, limit: u64) -> (r: Adoption)
    ensures
        r == adoption_of(known, spent as int, limit as int),
{
    if known {
        Adoption::Known
    } else if spent >= limit {
        Adoption::GivenUp
    } else {
        Adoption::Wait
    }
}

/// Lifting lifts every tool that is in proximity, but for the one that is kept, and does nothing
/// else: no device comes or goes.
pub proof fn law_exactly_the_live_tools_are_lifted(tablets: Seq<Tablet>, keep: int, i: int)
    requires
        0 <= i < tablets.len() <= usize::MAX,
    ensures
        lift_steps(tablets, keep).contains(DeviceStep::Lift(i as usize)) <==> i != keep
            && tablets[i].in_proximity,
        forall|k: int|
            0 <= k < lift_steps(tablets, keep).len() ==> (#[trigger] lift_steps(tablets, keep)[k])
                is Lift,
        lifted_but(tablets, keep).len() == tablets.len(),
        i == keep ==> lifted_but(tablets, keep)[i] == tablets[i],
        i != keep ==> !lifted_but(tablets, keep)[i].in_proximity,
        lifted_but(tablets, keep)[i].present == tablets[i].present,
        lifted_but(tablets, keep)[i].name == tablets[i].name,
        lifted_but(tablets, keep)[i].destroy_on_leave == tablets[i].destroy_on_leave,
    decreases tablets.len(),
{
    lemma_lift_steps(tablets, keep, i);
}

proof fn lemma_lift_steps(tablets: Seq<Tablet>, keep: int, i: int)
    requires
        tablets.len() <= usize::MAX,
        0 <= i <= usize::MAX,
    ensures
        lift_steps(tablets, keep).contains(DeviceStep::Lift(i as usize)) <==> i < tablets.len() && i
            != keep && tablets[i].in_proximity,
        forall|k: int|
            0 <= k < lift_steps(tablets, keep).len() ==> (#[trigger] lift_steps(tablets, keep)[k])
                is Lift,
    decreases tablets.len(),
{
    if tablets.len() > 0 {
        let shorter = tablets.drop_last();
        lemma_lift_steps(shorter, keep, i);
        let rest = lift_steps(shorter, keep);
        let all = lift_steps(tablets, keep);
        let step = DeviceStep::Lift(i as usize);
        if rest.contains(step) {
            let k = choose|k: int| 0 <= k < rest.len() && rest[k] == step;
            assert(all[k] == step);
        }
        if all.contains(step) {
            let k = choose|k: int| 0 <= k < all.len() && all[k] == step;
            if k < rest.len() {
                assert(rest[k] == step);
            }
        }
        if i == tablets.len() - 1 && i != keep && tablets.last().in_proximity {
            assert(all[rest.len() as int] == step);
        }
        assert forall|k: int| 0 <= k < all.len() implies (#[trigger] all[k]) is Lift by {
            if k < rest.len() {
                assert(all[k] == rest[k]);
            }
        }
    }
}

/// Leaving lifts the tool of every device that is there and destroys those that are to go, each
/// only after its tool was lifted.
pub proof fn law_leaving_lifts_before_it_destroys(t: Tablet, i: usize)
    ensures
        leave_steps_of(t, i).contains(DeviceStep::Lift(i)) <==> t.present,
        leave_steps_of(t, i).contains(DeviceStep::Destroy(i)) <==> t.present && t.destroy_on_leave,
        leave_steps_of(t, i).len() > 0 ==> leave_steps_of(t, i)[0] == DeviceStep::Lift(i),
        left(t).present <==> t.present && !leave_steps_of(t, i).contains(DeviceStep::Destroy(i)),
        left(t).name == t.name,
        left(t).destroy_on_leave == t.destroy_on_leave,
{
    let s = leave_steps_of(t, i);
    if t.present {
        assert(s[0] == DeviceStep::Lift(i));
        if t.destroy_on_leave {
            assert(s[1] == DeviceStep::Destroy(i));
        }
    }
}

/// Leaving all of them is leaving each, in order.
pub proof fn law_leaving_all_leaves_each(tablets: Seq<Tablet>, t: Tablet)
    requires
        tablets.len() < usize::MAX,
    ensures
        leave_steps(tablets.push(t)) == leave_steps(tablets) + leave_steps_of(
            t,
            tablets.len() as usize,
        ),
        leave_steps(Seq::empty()).len() == 0,
        all_left(tablets.push(t)).last() == left(t),
{
    assert(tablets.push(t).drop_last() =~= tablets);
}

/// The pen goes to the tablet that is named active, and where that is gone to the last one.
pub proof fn law_the_pen_is_always_on_a_tablet(t: Tablets)
    requires
        t.tablets@.len() > 0,
    ensures
        0 <= active_of(t) < t.tablets@.len(),
        t.active < t.tablets@.len() ==> active_of(t) == t.active,
        t.active >= t.tablets@.len() ==> active_of(t) == t.tablets@.len() - 1,
{
}

/// Tablets of different screens have different names, and none has the name of the one that covers
/// the desktop.
pub proof fn law_tablets_are_told_apart_by_name(a: Seq<char>, b: Seq<char>)
    ensures
        name_for(Some(a)) == name_for(Some(b)) ==> a == b,
        name_for(Some(a)) != name_for(None),
        name_for(None) == "StabMouse tablet"@,
        name_for(None).is_prefix_of(name_for(Some(a))),
{
    reveal_strlit(" ");
    let stem = "StabMouse tablet"@ + " "@;
    assert(name_for(Some(a)).skip(stem.len() as int) =~= a);
    assert(name_for(Some(b)).skip(stem.len() as int) =~= b);
    assert(name_for(Some(a)).len() > name_for(None).len());
    assert(name_for(Some(a)).take("StabMouse tablet"@.len() as int) =~= "StabMouse tablet"@);
}

/// Using a tablet makes it present and live, and changes nothing else of it.
pub proof fn law_a_used_tablet_is_live(t: Tablet)
    ensures
        used(t).present,
        used(t).in_proximity,
        used(t).name == t.name,
        used(t).destroy_on_leave == t.destroy_on_leave,
        lifted(used(t)).present,
        lifted(t).name == t.name,
{
}

/// Whether the tablets count as placed once placing them gave `results`.
pub open spec fn is_placed(t: Tablets, results: Option<Seq<bool>>) -> bool {
    if t.tablets@.len() < 2 {
        true
    } else {
        match results {
            None => t.placed,
            Some(each) => !each.contains(false),
        }
    }
}

/// Several tablets are placed where each of them is; one that failed is enough for them not to be.
/// A single one is where it belongs.
pub proof fn law_tablets_are_placed_where_each_is(t: Tablets, each: Seq<bool>, i: int)
    ensures
        t.tablets@.len() <= 1 ==> is_placed(t, Some(each)) && is_placed(t, None),
        t.tablets@.len() >= 2 && 0 <= i < each.len() && !each[i] ==> !is_placed(t, Some(each)),
        (forall|k: int| 0 <= k < each.len() ==> #[trigger] each[k]) ==> is_placed(t, Some(each)),
        t.tablets@.len() >= 2 ==> is_placed(t, None) == t.placed,
{
}

/// A device is waited for until it is known or the limit is reached, and one that is known is never
/// given up.
pub proof fn law_a_known_device_is_never_given_up(spent: int, limit: int)
    ensures
        adoption_of(true, spent, limit) == Adoption::Known,
        spent < limit ==> adoption_of(false, spent, limit) == Adoption::Wait,
        spent >= limit ==> adoption_of(false, spent, limit) == Adoption::GivenUp,
{
}

/// Whether `steps` hand the pen over to the tablet that the position is on now.
pub open spec fn is_handover(
    steps: Seq<DeviceStep>,
    before: Tablets,
    after: Tablets,
    active: usize,
    crossed_from: Option<usize>,
) -> bool {
    &&& after.active == active
    &&& after.placed == before.placed
    &&& match crossed_from {
        Some(from) => if from < before.tablets@.len() {
            &&& after.tablets@ == before.tablets@.update(
                from as int,
                left(before.tablets@[from as int]),
            )
            &&& steps == leave_steps_of(before.tablets@[from as int], from)
        } else {
            after.tablets@ == before.tablets@ && steps.len() == 0
        },
        None => after.tablets@ == before.tablets@ && steps.len() == 0,
    }
}

/// Whether `step` is what the active tablet needs before the pen reports a position on it.
pub open spec fn is_use(step: Option<DeviceStep>, before: Tablets, after: Tablets) -> bool {
    &&& after.active == before.active
    &&& after.placed == before.placed
    &&& after.tablets@ == before.tablets@.update(
        active_of(before),
        used(before.tablets@[active_of(before)]),
    )
    &&& step == if before.tablets@[active_of(before)].present {
        None
    } else {
        Some(DeviceStep::Create(active_of(before) as usize))
    }
}

/// The tablet that the position left has its tool lifted, and goes where it is to go; no other is
/// touched, and where nothing was left nothing is done. The position is on the new one from then
/// on.
pub proof fn law_the_tablet_that_was_left_is_lifted(
    steps: Seq<DeviceStep>,
    before: Tablets,
    after: Tablets,
    active: usize,
    from: usize,
    i: int,
)
    requires
        is_handover(steps, before, after, active, Some(from)),
        from < before.tablets@.len(),
        0 <= i < before.tablets@.len(),
    ensures
        after.active == active,
        after.tablets@.len() == before.tablets@.len(),
        !after.tablets@[from as int].in_proximity,
        before.tablets@[from as int].present ==> steps.len() > 0 && steps[0] == DeviceStep::Lift(
            from,
        ),
        steps.contains(DeviceStep::Destroy(from)) <==> before.tablets@[from as int].present
            && before.tablets@[from as int].destroy_on_leave,
        i != from ==> after.tablets@[i] == before.tablets@[i],
        is_handover(Seq::empty(), before, Tablets { active, ..before }, active, None),
{
    law_leaving_lifts_before_it_destroys(before.tablets@[from as int], from);
}

/// The active tablet is there and live once the pen reports on it, was created exactly where it was
/// not there, and no other is touched.
pub proof fn law_the_active_tablet_is_there_when_used(
    step: Option<DeviceStep>,
    before: Tablets,
    after: Tablets,
    i: int,
)
    requires
        is_use(step, before, after),
        0 <= i < before.tablets@.len(),
    ensures
        after.tablets@[active_of(before)].present,
        after.tablets@[active_of(before)].in_proximity,
        step is None <==> before.tablets@[active_of(before)].present,
        step matches Some(s) ==> s == DeviceStep::Create(active_of(before) as usize),
        i != active_of(before) ==> after.tablets@[i] == before.tablets@[i],
        after.active == before.active,
{
}

} // verus!
