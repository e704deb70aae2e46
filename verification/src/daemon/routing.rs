//! Where a filtered report goes, and in what order.
//!
//! The mode is the user's intent; where the result is delivered is a detail of the application
//! in front of them. The order of the steps is part of the design: a tool left in proximity while
//! the pointer is driven gives the user two live cursors.

use crate::config::schema::Output;
use crate::daemon::buttons::{is_withheld, Buttons};
use crate::daemon::focus::{entry_views, freezes, needs_scroll_freeze, supports_tablet, verdict, Under};
use crate::daemon::modes::Mode;
use vstd::prelude::*;

verus! {

/// The horizontal wheel, in notches.
pub const REL_HWHEEL: u16 = 0x06;

/// The wheel, in notches.
pub const REL_WHEEL: u16 = 0x08;

/// The wheel, in 120ths of a notch.
pub const REL_WHEEL_HI_RES: u16 = 0x0b;

/// The horizontal wheel, in 120ths of a notch.
pub const REL_HWHEEL_HI_RES: u16 = 0x0c;

pub const BTN_RIGHT: u16 = 0x111;

pub const BTN_MIDDLE: u16 = 0x112;

/// Shortest interval between scroll events a gesture will emit, in microseconds.
///
/// A gesture can produce a scroll on every sample, and a mouse never does. Pages that do real
/// work per wheel event cannot keep up, so the gesture accumulates and emits fewer, larger
/// events. Nothing is dropped: whatever accrues is carried into the next one.
pub const SCROLL_INTERVAL_US: u64 = 8_000;

/// One complete report of the source device.
#[derive(Debug)]
pub struct Report {
    pub dx: i32,
    pub dy: i32,
    /// Buttons that changed, and whether each was pressed.
    pub keys: Vec<(u16, bool)>,
    /// Every relative axis but the two of the pointer.
    pub other_relative: Vec<(u16, i32)>,
    /// Source timestamp, in microseconds.
    pub t_us: u64,
}

/// The transport of a mode over a window. A tablet mode delivers through the mouse when the
/// application cannot receive a pen, because otherwise its cursor moves and nothing it clicks
/// responds.
pub open spec fn transport(
    mode: Option<Mode>,
    under: Under,
    overrides: Seq<(Seq<char>, bool)>,
) -> Output {
    match mode {
        None => Output::Mouse,
        Some(m) => if m.output == Output::Tablet && !verdict(
            under.class@,
            under.signal,
            overrides,
        ).0 {
            Output::Mouse
        } else {
            m.output
        },
    }
}

pub open spec fn mode_of(mode: Option<&Mode>) -> Option<Mode> {
    match mode {
        Some(m) => Some(*m),
        None => None,
    }
}

/// Where a mode's output should actually go over a window.
pub fn transport_for(
    mode: Option<&Mode>,
    under: &Under,
    overrides: &Vec<(String, bool)>,
) -> (r: Output)
    ensures
        r == transport(mode_of(mode), *under, entry_views(overrides@)),
{
    match mode {
        None => Output::Mouse,
        Some(m) => {
            if m.output != Output::Tablet {
                return m.output;
            }
            if supports_tablet(under, overrides) {
                Output::Tablet
            } else {
                Output::Mouse
            }
        },
    }
}

/// Whether a mode delivers through its second choice.
pub open spec fn is_falling_back(mode: Option<Mode>, transport: Output) -> bool {
    mode matches Some(m) && m.output == Output::Tablet && transport == Output::Mouse
}

/// A tablet mode never delivers raw deltas, and every other mode goes where it says.
pub proof fn law_only_tablet_modes_fall_back(
    mode: Mode,
    under: Under,
    overrides: Seq<(Seq<char>, bool)>,
)
    ensures
        mode.output != Output::Tablet ==> transport(Some(mode), under, overrides) == mode.output,
        mode.output == Output::Tablet ==> transport(Some(mode), under, overrides)
            != Output::Relative,
{
}

/// Whether a transition reaches the application: it is not withheld for a gesture, and it is not
/// the release of a swallowed press.
pub open spec fn passes(b: Buttons, m: Option<Mode>, gone: Seq<u16>, key: (u16, bool)) -> bool {
    &&& !(m matches Some(m) && is_withheld(b, m, key.0))
    &&& !(!key.1 && gone.contains(key.0))
}

/// The transitions that reach the application, in order.
pub open spec fn passed(
    b: Buttons,
    m: Option<Mode>,
    gone: Seq<u16>,
    keys: Seq<(u16, bool)>,
) -> Seq<(u16, bool)>
    decreases keys.len(),
{
    if keys.len() == 0 {
        seq![]
    } else {
        let rest = passed(b, m, gone, keys.drop_last());
        if passes(b, m, gone, keys.last()) {
            rest.push(keys.last())
        } else {
            rest
        }
    }
}

/// The transitions that reach the application.
///
/// **A button bound to a gesture is consumed by it.** Otherwise binding the middle button to
/// autoscroll also pastes, and binding a side button also goes back.
pub fn pass_keys(
    buttons: &Buttons,
    mode: Option<&Mode>,
    gone: &Vec<u16>,
    keys: &Vec<(u16, bool)>,
) -> (r: Vec<(u16, bool)>)
    ensures
        r@ == passed(*buttons, mode_of(mode), gone@, keys@),
{
    let mut r: Vec<(u16, bool)> = Vec::new();
    let mut i: usize = 0;
    assert(keys@.take(0) =~= Seq::<(u16, bool)>::empty());
    while i < keys.len()
        invariant
            i <= keys.len(),
            r@ == passed(*buttons, mode_of(mode), gone@, keys@.take(i as int)),
        decreases keys.len() - i,
    {
        let ghost now = keys@.take(i + 1);
        proof {
            assert(now.drop_last() =~= keys@.take(i as int));
            assert(now.last() == keys@[i as int]);
        }
        let (code, pressed) = keys[i];
        let withheld = match mode {
            Some(m) => buttons.bound_to_gesture(m, code),
            None => false,
        };
        let swallowed = !pressed && crate::daemon::buttons::has_code(gone, code);
        if !withheld && !swallowed {
            r.push((code, pressed));
        }
        i += 1;
    }
    assert(keys@.take(i as int) =~= keys@);
    r
}

pub open spec fn is_wheel(code: u16) -> bool {
    code == REL_WHEEL || code == REL_HWHEEL || code == REL_WHEEL_HI_RES || code
        == REL_HWHEEL_HI_RES
}

/// The axes that are not a wheel, in order.
pub open spec fn not_wheel(axes: Seq<(u16, i32)>) -> Seq<(u16, i32)> {
    axes.filter(|a: (u16, i32)| !is_wheel(a.0))
}

/// What is left of a wheel that a stage took a part of, in 120ths of a notch. `None` stands for
/// an axis that was taken whole.
#[derive(Debug, Clone, Copy, PartialEq, Eq, Structural)]
pub struct WheelLeft {
    pub vertical: Option<i32>,
    pub horizontal: Option<i32>,
}

pub open spec fn left_axes(left: WheelLeft) -> Seq<(u16, i32)> {
    let v = match left.vertical {
        Some(v) => seq![(REL_WHEEL_HI_RES, v)],
        None => Seq::<(u16, i32)>::empty(),
    };
    match left.horizontal {
        Some(h) => v.push((REL_HWHEEL_HI_RES, h)),
        None => v,
    }
}

/// The axes to pass on: all of them verbatim where nothing was taken, else what is left of the
/// wheel and every other axis.
pub open spec fn wheel_axes_left(axes: Seq<(u16, i32)>, taken: Option<WheelLeft>) -> Seq<
    (u16, i32),
> {
    match taken {
        None => axes,
        Some(left) => left_axes(left) + not_wheel(axes),
    }
}

/// What a stage did not take of a report's axes.
///
/// Whatever comes back out is emitted verbatim, so a wheel nothing claims is untouched. Axes that
/// are not the wheel were never candidates and survive regardless.
pub fn passthrough_wheel(axes: &Vec<(u16, i32)>, taken: Option<WheelLeft>) -> (r: Vec<(u16, i32)>)
    ensures
        r@ == wheel_axes_left(axes@, taken),
{
    let mut r: Vec<(u16, i32)> = Vec::new();
    let verbatim = taken.is_none();
    if let Some(left) = taken {
        if let Some(v) = left.vertical {
            r.push((REL_WHEEL_HI_RES, v));
        }
        if let Some(h) = left.horizontal {
            r.push((REL_HWHEEL_HI_RES, h));
        }
        assert(r@ =~= left_axes(left));
    }
    let ghost base = r@;
    let ghost keep = |a: (u16, i32)| verbatim || !is_wheel(a.0);
    let mut i: usize = 0;
    proof {
        reveal(Seq::filter);
        assert(axes@.take(0).filter(keep) =~= Seq::<(u16, i32)>::empty());
        assert(r@ =~= base + axes@.take(0).filter(keep));
    }
    while i < axes.len()
        invariant
            i <= axes.len(),
            keep == (|a: (u16, i32)| verbatim || !is_wheel(a.0)),
            r@ == base + axes@.take(i as int).filter(keep),
        decreases axes.len() - i,
    {
        let (code, value) = axes[i];
        let ghost now = axes@.take(i + 1);
        let ghost before = r@;
        proof {
            reveal(Seq::filter);
            assert(now.drop_last() =~= axes@.take(i as int));
            assert(now.last() == axes@[i as int]);
        }
        if verbatim || !(code == REL_WHEEL || code == REL_HWHEEL || code == REL_WHEEL_HI_RES
            || code == REL_HWHEEL_HI_RES) {
            r.push((code, value));
        }
        assert(r@ =~= base + now.filter(keep));
        i += 1;
    }
    proof {
        assert(axes@.take(i as int) =~= axes@);
        if verbatim {
            lemma_filter_all(axes@, keep);
            assert(r@ =~= axes@);
        } else {
            assert(keep =~= (|a: (u16, i32)| !is_wheel(a.0)));
            assert(r@ =~= wheel_axes_left(axes@, taken));
        }
    }
    r
}

proof fn lemma_filter_all(s: Seq<(u16, i32)>, keep: spec_fn((u16, i32)) -> bool)
    requires
        forall|a: (u16, i32)| #[trigger] keep(a),
    ensures
        s.filter(keep) == s,
    decreases s.len(),
{
    reveal(Seq::filter);
    if s.len() > 0 {
        lemma_filter_all(s.drop_last(), keep);
        assert(s =~= s.drop_last().push(s.last()));
    }
}

/// Axes that are not the wheel reach the application whatever a stage took.
pub proof fn law_other_axes_always_survive(
    axes: Seq<(u16, i32)>,
    taken: Option<WheelLeft>,
    i: int,
)
    requires
        0 <= i < axes.len(),
        !is_wheel(axes[i].0),
    ensures
        wheel_axes_left(axes, taken).contains(axes[i]),
{
    if let Some(left) = taken {
        let keep = |a: (u16, i32)| !is_wheel(a.0);
        axes.filter_lemma(keep);
        assert(not_wheel(axes).contains(axes[i]));
        let k = choose|k: int| 0 <= k < not_wheel(axes).len() && not_wheel(axes)[k] == axes[i];
        assert(wheel_axes_left(axes, taken)[left_axes(left).len() + k] == axes[i]);
    } else {
        assert(wheel_axes_left(axes, taken)[i] == axes[i]);
    }
}

/// Whole-wheel and hi-res values to emit for one report.
#[derive(Debug, Clone, Copy, PartialEq, Eq, Structural)]
pub struct ScrollOut {
    pub notch_x: i32,
    pub notch_y: i32,
    pub hi_x: i32,
    pub hi_y: i32,
}

impl Default for ScrollOut {
    fn default() -> (r: Self)
        ensures
            r == (ScrollOut { notch_x: 0, notch_y: 0, hi_x: 0, hi_y: 0 }),
    {
        ScrollOut { notch_x: 0, notch_y: 0, hi_x: 0, hi_y: 0 }
    }
}

pub open spec fn axis_if(code: u16, value: i32) -> Seq<(u16, i32)> {
    if value != 0 {
        seq![(code, value)]
    } else {
        seq![]
    }
}

/// The axes that carry a gesture's scroll.
pub open spec fn scroll_axes(out: ScrollOut) -> Seq<(u16, i32)> {
    axis_if(REL_WHEEL, out.notch_y) + axis_if(REL_WHEEL_HI_RES, out.hi_y) + axis_if(
        REL_HWHEEL,
        out.notch_x,
    ) + axis_if(REL_HWHEEL_HI_RES, out.hi_x)
}

impl ScrollOut {
    pub fn any(&self) -> (b: bool)
        ensures
            b == (scroll_axes(*self).len() > 0),
    {
        self.notch_x != 0 || self.notch_y != 0 || self.hi_x != 0 || self.hi_y != 0
    }
}

/// The axes that carry a gesture's scroll, for whichever sink is carrying the mode.
pub fn emit_scroll(out: ScrollOut) -> (r: Vec<(u16, i32)>)
    ensures
        r@ == scroll_axes(out),
{
    let mut r: Vec<(u16, i32)> = Vec::new();
    if out.notch_y != 0 {
        r.push((REL_WHEEL, out.notch_y));
    }
    if out.hi_y != 0 {
        r.push((REL_WHEEL_HI_RES, out.hi_y));
    }
    if out.notch_x != 0 {
        r.push((REL_HWHEEL, out.notch_x));
    }
    if out.hi_x != 0 {
        r.push((REL_HWHEEL_HI_RES, out.hi_x));
    }
    assert(r@ =~= scroll_axes(out));
    r
}

/// Whether a gesture may scroll again.
pub open spec fn is_scroll_due(now: u64, last: u64) -> bool {
    now - last >= SCROLL_INTERVAL_US
}

/// Whether enough time has passed for a gesture to scroll again.
pub fn scroll_due(now: u64, last: u64) -> (b: bool)
    ensures
        b == is_scroll_due(now, last),
{
    now >= last && now - last >= SCROLL_INTERVAL_US
}

/// Holding the pen still while scrolling, in the applications that need it.
#[derive(Debug)]
pub struct ScrollFreeze {
    /// Whether to freeze in an application neither named nor on the built-in list.
    pub by_default: bool,
    /// User entries naming applications that do or do not need the freeze.
    pub overrides: Vec<(String, bool)>,
    /// How long the freeze outlasts the last wheel event, in microseconds.
    pub length_us: u64,
    /// When the current freeze ends, if one is running.
    pub until: Option<u64>,
}

/// When the freeze ends after a report: a hovering scroll over an application that needs it
/// starts one, and one that has ended is forgotten.
pub open spec fn freeze_until(
    f: ScrollFreeze,
    class: Seq<char>,
    stroke_active: bool,
    scrolled: bool,
    now: u64,
) -> Option<u64> {
    let started = !stroke_active && scrolled && freezes(
        class,
        entry_views(f.overrides@),
        f.by_default,
    );
    let until = if started {
        Some((now + f.length_us) as u64)
    } else {
        f.until
    };
    if until is Some && now < until->0 {
        until
    } else {
        None
    }
}

impl ScrollFreeze {
    /// Whether the pen is held still for this report.
    ///
    /// The hand's movement during a freeze is **discarded rather than banked**: banking it would
    /// fling the cursor when the freeze lifted.
    pub fn update(&mut self, class: &str, stroke_active: bool, scrolled: bool, now: u64) -> (r: bool)
        requires
            now + old(self).length_us <= u64::MAX,
        ensures
            r == (freeze_until(*old(self), class@, stroke_active, scrolled, now) is Some),
            final(self).until == freeze_until(*old(self), class@, stroke_active, scrolled, now),
            final(self).by_default == old(self).by_default,
            final(self).overrides == old(self).overrides,
            final(self).length_us == old(self).length_us,
    {
        if !stroke_active && scrolled && needs_scroll_freeze(
            class,
            &self.overrides,
            self.by_default,
        ) {
            self.until = Some(now + self.length_us);
        }
        let frozen = match self.until {
            Some(until) => now < until,
            None => false,
        };
        if !frozen {
            self.until = None;
        }
        frozen
    }
}

/// A stroke never starts a freeze, and without a scroll none starts.
pub proof fn law_only_a_hovering_scroll_freezes(
    f: ScrollFreeze,
    class: Seq<char>,
    stroke_active: bool,
    scrolled: bool,
    now: u64,
)
    requires
        stroke_active || !scrolled,
        f.until is None,
    ensures
        freeze_until(f, class, stroke_active, scrolled, now) is None,
{
}

/// A device that carries wheel and buttons.
#[derive(Debug, Clone, Copy, PartialEq, Eq, Structural)]
pub enum Sink {
    /// The absolute pointer, which states the shared position.
    Pointer,
    /// The relative mouse.
    Mouse,
}

/// One thing to do to a device.
#[derive(Debug, Clone, Copy, PartialEq, Eq, Structural)]
pub enum Step {
    /// Lift every pen that is in proximity.
    LiftAll,
    /// Lift every pen but the active tablet's.
    LiftInactive,
    /// Advance the shared position at the tablet's scale, in millimetres.
    TrackMillimetres,
    /// Advance the shared position at the source device's scale, in pixels.
    TrackPixels,
    /// Put the absolute pointer on the shared position. Whether that moved it counts as motion,
    /// unless it only went where the pen already is.
    PlacePointer { counts: bool },
    /// Move the relative mouse by the filtered motion, at the tablet's scale or its own.
    MoveMouse { tablet_scale: bool },
    Relative { sink: Sink, code: u16, value: i32 },
    Key { sink: Sink, code: u16, pressed: bool },
    Flush { sink: Sink },
    /// Advance the pen by the filtered motion, or by nothing while frozen.
    AdvancePen { frozen: bool },
    /// State the pen's position and pressure.
    Pen,
    /// A barrel button, the second or the first.
    Stylus { second: bool, pressed: bool },
    FlushTablet,
}

pub open spec fn relative_steps(sink: Sink, axes: Seq<(u16, i32)>) -> Seq<Step> {
    axes.map_values(|a: (u16, i32)| Step::Relative { sink, code: a.0, value: a.1 })
}

pub open spec fn key_steps(sink: Sink, keys: Seq<(u16, bool)>) -> Seq<Step> {
    keys.map_values(|k: (u16, bool)| Step::Key { sink, code: k.0, pressed: k.1 })
}

/// Wheel, gesture and buttons through one sink, sent off together.
pub open spec fn carried(
    sink: Sink,
    wheel: Seq<(u16, i32)>,
    gesture: ScrollOut,
    keys: Seq<(u16, bool)>,
) -> Seq<Step> {
    relative_steps(sink, wheel) + relative_steps(sink, scroll_axes(gesture)) + key_steps(sink, keys)
        + seq![Step::Flush { sink }]
}

/// The barrel buttons that a list of transitions works: right and middle, for applications that
/// read them as such.
pub open spec fn stylus_steps(keys: Seq<(u16, bool)>) -> Seq<Step>
    decreases keys.len(),
{
    if keys.len() == 0 {
        seq![]
    } else {
        let rest = stylus_steps(keys.drop_last());
        let (code, pressed) = keys.last();
        if code == BTN_RIGHT {
            rest.push(Step::Stylus { second: false, pressed })
        } else if code == BTN_MIDDLE {
            rest.push(Step::Stylus { second: true, pressed })
        } else {
            rest
        }
    }
}

/// What there is to deliver.
#[derive(Debug)]
pub struct Delivery {
    pub output: Output,
    /// Whether a tablet mode is delivering through the mouse.
    pub fallback: bool,
    pub keys: Vec<(u16, bool)>,
    pub wheel: Vec<(u16, i32)>,
    pub gesture: ScrollOut,
    pub stroke_active: bool,
    pub frozen: bool,
    /// In tablet mode, also emit ordinary mouse buttons alongside the pen.
    pub tablet_clicks: bool,
    /// Whether any tablet's tool is in proximity.
    pub in_proximity: bool,
    /// Whether there is an absolute pointer and the shared position is known.
    pub pointer_ready: bool,
}

pub open spec fn lift_steps(d: Delivery) -> Seq<Step> {
    if d.in_proximity {
        seq![Step::LiftAll]
    } else {
        seq![]
    }
}

/// The steps that deliver to the pointer.
pub open spec fn mouse_steps(d: Delivery) -> Seq<Step> {
    lift_steps(d) + seq![
        if d.fallback {
            Step::TrackMillimetres
        } else {
            Step::TrackPixels
        },
    ] + if d.pointer_ready {
        seq![Step::PlacePointer { counts: true }] + carried(
            Sink::Pointer,
            d.wheel@,
            d.gesture,
            d.keys@,
        )
    } else {
        seq![Step::MoveMouse { tablet_scale: d.fallback }] + carried(
            Sink::Mouse,
            d.wheel@,
            d.gesture,
            d.keys@,
        )
    }
}

/// The steps that deliver raw deltas. The shared position is not advanced: the compositor
/// decides where a locked pointer goes.
pub open spec fn relative_mode_steps(d: Delivery) -> Seq<Step> {
    lift_steps(d) + seq![Step::MoveMouse { tablet_scale: false }] + carried(
        Sink::Mouse,
        d.wheel@,
        d.gesture,
        d.keys@,
    )
}

/// The wheel of a pen that hovers. With the pen down the wheel is not passed on.
pub open spec fn hover_wheel(d: Delivery) -> Seq<(u16, i32)> {
    if d.stroke_active {
        seq![]
    } else {
        d.wheel@
    }
}

pub open spec fn pen_clicks(d: Delivery) -> Seq<(u16, bool)> {
    if d.tablet_clicks {
        d.keys@
    } else {
        seq![]
    }
}

/// The steps that deliver to the pen. Neither the wheel nor a button reaches an application
/// through the pen, so both leave by the pointer, placed on the pen's position first.
pub open spec fn tablet_steps(d: Delivery) -> Seq<Step> {
    seq![Step::AdvancePen { frozen: d.frozen }, Step::LiftInactive, Step::Pen] + stylus_steps(
        d.keys@,
    ) + seq![Step::FlushTablet] + if hover_wheel(d).len() > 0 || pen_clicks(d).len() > 0
        || scroll_axes(d.gesture).len() > 0 {
        if d.pointer_ready {
            seq![Step::PlacePointer { counts: false }] + carried(
                Sink::Pointer,
                hover_wheel(d),
                d.gesture,
                pen_clicks(d),
            )
        } else {
            carried(Sink::Mouse, hover_wheel(d), d.gesture, pen_clicks(d))
        }
    } else {
        seq![]
    }
}

/// The steps of a delivery.
pub open spec fn steps_of(d: Delivery) -> Seq<Step> {
    match d.output {
        Output::Mouse => mouse_steps(d),
        Output::Relative => relative_mode_steps(d),
        Output::Tablet => tablet_steps(d),
    }
}

fn push_relative(steps: &mut Vec<Step>, sink: Sink, axes: &Vec<(u16, i32)>)
    ensures
        final(steps)@ == old(steps)@ + relative_steps(sink, axes@),
{
    let ghost base = steps@;
    let mut i: usize = 0;
    while i < axes.len()
        invariant
            i <= axes.len(),
            steps@ =~= base + relative_steps(sink, axes@).take(i as int),
        decreases axes.len() - i,
    {
        let (code, value) = axes[i];
        steps.push(Step::Relative { sink, code, value });
        i += 1;
    }
    assert(steps@ =~= base + relative_steps(sink, axes@));
}

fn push_keys(steps: &mut Vec<Step>, sink: Sink, keys: &Vec<(u16, bool)>)
    ensures
        final(steps)@ == old(steps)@ + key_steps(sink, keys@),
{
    let ghost base = steps@;
    let mut i: usize = 0;
    while i < keys.len()
        invariant
            i <= keys.len(),
            steps@ =~= base + key_steps(sink, keys@).take(i as int),
        decreases keys.len() - i,
    {
        let (code, pressed) = keys[i];
        steps.push(Step::Key { sink, code, pressed });
        i += 1;
    }
    assert(steps@ =~= base + key_steps(sink, keys@));
}

fn push_carried(
    steps: &mut Vec<Step>,
    sink: Sink,
    wheel: &Vec<(u16, i32)>,
    gesture: ScrollOut,
    keys: &Vec<(u16, bool)>,
)
    ensures
        final(steps)@ == old(steps)@ + carried(sink, wheel@, gesture, keys@),
{
    let ghost base = steps@;
    push_relative(steps, sink, wheel);
    let scroll = emit_scroll(gesture);
    push_relative(steps, sink, &scroll);
    push_keys(steps, sink, keys);
    steps.push(Step::Flush { sink });
    assert(steps@ =~= base + carried(sink, wheel@, gesture, keys@));
}

fn push_stylus(steps: &mut Vec<Step>, keys: &Vec<(u16, bool)>)
    ensures
        final(steps)@ == old(steps)@ + stylus_steps(keys@),
{
    let ghost base = steps@;
    let mut i: usize = 0;
    proof {
        assert(keys@.take(0) =~= Seq::<(u16, bool)>::empty());
        assert(steps@ =~= base + stylus_steps(keys@.take(0)));
    }
    while i < keys.len()
        invariant
            i <= keys.len(),
            steps@ == base + stylus_steps(keys@.take(i as int)),
        decreases keys.len() - i,
    {
        let ghost now = keys@.take(i + 1);
        proof {
            assert(now.drop_last() =~= keys@.take(i as int));
            assert(now.last() == keys@[i as int]);
        }
        let (code, pressed) = keys[i];
        if code == BTN_RIGHT {
            steps.push(Step::Stylus { second: false, pressed });
        } else if code == BTN_MIDDLE {
            steps.push(Step::Stylus { second: true, pressed });
        }
        assert(steps@ =~= base + stylus_steps(now));
        i += 1;
    }
    assert(keys@.take(i as int) =~= keys@);
}

/// The steps that deliver a report, in order.
pub fn deliver(d: &Delivery) -> (r: Vec<Step>)
    ensures
        r@ == steps_of(*d),
{
    let mut r: Vec<Step> = Vec::new();
    match d.output {
        Output::Mouse => {
            // Checked every time rather than on the transition into this state.
            if d.in_proximity {
                r.push(Step::LiftAll);
            }
            // One shared position, advanced at this mode's own scale.
            r.push(
                if d.fallback {
                    Step::TrackMillimetres
                } else {
                    Step::TrackPixels
                },
            );
            if d.pointer_ready {
                // State the position outright and the cursor is wherever the shared position
                // says: no divergence between transports means no teleport.
                r.push(Step::PlacePointer { counts: true });
                push_carried(&mut r, Sink::Pointer, &d.wheel, d.gesture, &d.keys);
            } else {
                r.push(Step::MoveMouse { tablet_scale: d.fallback });
                push_carried(&mut r, Sink::Mouse, &d.wheel, d.gesture, &d.keys);
            }
            assert(r@ =~= mouse_steps(*d));
        },
        Output::Relative => {
            if d.in_proximity {
                r.push(Step::LiftAll);
            }
            r.push(Step::MoveMouse { tablet_scale: false });
            push_carried(&mut r, Sink::Mouse, &d.wheel, d.gesture, &d.keys);
            assert(r@ =~= relative_mode_steps(*d));
        },
        Output::Tablet => {
            r.push(Step::AdvancePen { frozen: d.frozen });
            r.push(Step::LiftInactive);
            // Emitted even while frozen: skipping it would take the tool out of proximity.
            r.push(Step::Pen);
            push_stylus(&mut r, &d.keys);
            r.push(Step::FlushTablet);
            let no_wheel: Vec<(u16, i32)> = Vec::new();
            let no_clicks: Vec<(u16, bool)> = Vec::new();
            let wheel = if d.stroke_active {
                &no_wheel
            } else {
                &d.wheel
            };
            let clicks = if d.tablet_clicks {
                &d.keys
            } else {
                &no_clicks
            };
            assert(wheel@ =~= hover_wheel(*d));
            assert(clicks@ =~= pen_clicks(*d));
            if wheel.len() > 0 || clicks.len() > 0 || d.gesture.any() {
                if d.pointer_ready {
                    r.push(Step::PlacePointer { counts: false });
                    push_carried(&mut r, Sink::Pointer, wheel, d.gesture, clicks);
                } else {
                    // The wheel still works: scrolling needs focus, not position.
                    push_carried(&mut r, Sink::Mouse, wheel, d.gesture, clicks);
                }
            }
            assert(r@ =~= tablet_steps(*d));
        },
    }
    r
}

/// While output goes to the mouse, a pen in proximity is lifted before anything else happens, so
/// there are never two live cursors.
pub proof fn law_the_pen_is_lifted_first(d: Delivery)
    requires
        d.output != Output::Tablet,
        d.in_proximity,
    ensures
        steps_of(d)[0] == Step::LiftAll,
{
}

/// Only the tablet that receives input is live while the pen is stated.
pub proof fn law_inactive_pens_are_lifted_before_the_pen_is_stated(d: Delivery)
    requires
        d.output == Output::Tablet,
    ensures
        steps_of(d)[1] == Step::LiftInactive,
        steps_of(d)[2] == Step::Pen,
{
}

/// Raw deltas leave the shared position alone.
pub proof fn law_relative_output_leaves_the_shared_position(d: Delivery, i: int)
    requires
        d.output == Output::Relative,
        0 <= i < steps_of(d).len(),
    ensures
        steps_of(d)[i] != Step::TrackMillimetres,
        steps_of(d)[i] != Step::TrackPixels,
        !(steps_of(d)[i] is PlacePointer),
        !(steps_of(d)[i] is AdvancePen),
{
}

/// With the pen down and no gesture and no mirrored clicks, a report works the tablet alone.
pub proof fn law_the_wheel_is_quiet_during_a_stroke(d: Delivery, i: int)
    requires
        d.output == Output::Tablet,
        d.stroke_active,
        !d.tablet_clicks,
        scroll_axes(d.gesture).len() == 0,
        0 <= i < steps_of(d).len(),
    ensures
        !(steps_of(d)[i] is Relative),
        !(steps_of(d)[i] is Key),
        !(steps_of(d)[i] is Flush),
{
    lemma_stylus(d.keys@);
}

proof fn lemma_stylus(keys: Seq<(u16, bool)>)
    ensures
        forall|i: int|
            0 <= i < stylus_steps(keys).len() ==> (#[trigger] stylus_steps(keys)[i]) is Stylus,
    decreases keys.len(),
{
    if keys.len() > 0 {
        lemma_stylus(keys.drop_last());
    }
}

/// A gesture scrolls the way it moved: under the codes of the vertical wheel stand its vertical
/// amounts, under those of the horizontal wheel its horizontal ones, each once where it is not
/// zero, and nothing else.
pub proof fn law_a_scroll_keeps_its_direction(out: ScrollOut)
    ensures
        forall|v: i32| #[trigger]
            scroll_axes(out).contains((0x08u16, v)) <==> v != 0 && v == out.notch_y,
        forall|v: i32| #[trigger]
            scroll_axes(out).contains((0x0bu16, v)) <==> v != 0 && v == out.hi_y,
        forall|v: i32| #[trigger]
            scroll_axes(out).contains((0x06u16, v)) <==> v != 0 && v == out.notch_x,
        forall|v: i32| #[trigger]
            scroll_axes(out).contains((0x0cu16, v)) <==> v != 0 && v == out.hi_x,
        forall|i: int|
            0 <= i < scroll_axes(out).len() ==> {
                let code = (#[trigger] scroll_axes(out)[i]).0;
                code == 0x08 || code == 0x0b || code == 0x06 || code == 0x0c
            },
        forall|i: int, j: int|
            #![trigger scroll_axes(out)[i], scroll_axes(out)[j]]
            0 <= i < j < scroll_axes(out).len() ==> {
                let (a, b) = (scroll_axes(out)[i].0, scroll_axes(out)[j].0);
                &&& a != b
                &&& b == 0x08 || b == 0x0b ==> a == 0x08 || a == 0x0b
                &&& a != 0x0b || b != 0x08
                &&& a != 0x0c || b != 0x06
            },
{
    let a = scroll_axes(out);
    let (p, q, r) = (
        axis_if(REL_WHEEL, out.notch_y).len(),
        axis_if(REL_WHEEL_HI_RES, out.hi_y).len(),
        axis_if(REL_HWHEEL, out.notch_x).len(),
    );
    if out.notch_y != 0 {
        assert(a[0] == (0x08u16, out.notch_y));
    }
    if out.hi_y != 0 {
        assert(a[p as int] == (0x0bu16, out.hi_y));
    }
    if out.notch_x != 0 {
        assert(a[(p + q) as int] == (0x06u16, out.notch_x));
    }
    if out.hi_x != 0 {
        assert(a[(p + q + r) as int] == (0x0cu16, out.hi_x));
    }
}

/// What reaches the application of a list of transitions, in their order: each one, press or
/// release, that is not withheld in the mode and does not release a swallowed press.
pub proof fn law_what_reaches_the_application(
    b: Buttons,
    m: Option<Mode>,
    gone: Seq<u16>,
    keys: Seq<(u16, bool)>,
)
    ensures
        passed(b, m, gone, keys) == keys.filter(
            |k: (u16, bool)|
                (m is None || !is_withheld(b, m->0, k.0)) && (k.1 || !gone.contains(k.0)),
        ),
    decreases keys.len(),
{
    reveal(Seq::filter);
    if keys.len() > 0 {
        law_what_reaches_the_application(b, m, gone, keys.drop_last());
    }
}

/// Neither the press nor the release of a withheld button reaches the application, and where no
/// mode holds anything back and nothing was swallowed every transition does.
pub proof fn law_a_withheld_button_is_never_seen(
    b: Buttons,
    m: Mode,
    gone: Seq<u16>,
    keys: Seq<(u16, bool)>,
    code: u16,
    pressed: bool,
)
    ensures
        is_withheld(b, m, code) ==> !passed(b, Some(m), gone, keys).contains((code, pressed)),
        !is_withheld(b, m, code) && (pressed || !gone.contains(code)) && keys.contains(
            (code, pressed),
        ) ==> passed(b, Some(m), gone, keys).contains((code, pressed)),
        passed(b, None, seq![], keys) == keys,
    decreases keys.len(),
{
    reveal(Seq::filter);
    let keep = |k: (u16, bool)|
        (Some(m) is None || !is_withheld(b, Some(m)->0, k.0)) && (k.1 || !gone.contains(k.0));
    law_what_reaches_the_application(b, Some(m), gone, keys);
    keys.filter_lemma(keep);
    if keys.len() > 0 {
        law_a_withheld_button_is_never_seen(b, m, gone, keys.drop_last(), code, pressed);
        assert(keys =~= keys.drop_last().push(keys.last()));
    }
}

/// A mode delivers where it says, but for a tablet mode over a window that takes no pen, which
/// delivers through the mouse.
pub proof fn law_a_window_without_a_pen_gets_the_mouse(
    mode: Mode,
    under: Under,
    overrides: Seq<(Seq<char>, bool)>,
)
    ensures
        transport(None, under, overrides) == Output::Mouse,
        mode.output == Output::Mouse ==> transport(Some(mode), under, overrides) == Output::Mouse,
        mode.output == Output::Relative ==> transport(Some(mode), under, overrides)
            == Output::Relative,
        mode.output == Output::Tablet && verdict(under.class@, under.signal, overrides).0
            ==> transport(Some(mode), under, overrides) == Output::Tablet,
        mode.output == Output::Tablet && !verdict(under.class@, under.signal, overrides).0
            ==> transport(Some(mode), under, overrides) == Output::Mouse,
        is_falling_back(Some(mode), transport(Some(mode), under, overrides)) <==> mode.output
            == Output::Tablet && !verdict(under.class@, under.signal, overrides).0,
        !is_falling_back(None, Output::Mouse),
{
}

/// A wheel that no stage took goes on untouched. Of one that a stage took, nothing is passed on in
/// notches, and in 120ths exactly what is left, each axis under its own code.
pub proof fn law_what_is_left_of_the_wheel(axes: Seq<(u16, i32)>, left: WheelLeft, v: i32)
    ensures
        wheel_axes_left(axes, None) == axes,
        !wheel_axes_left(axes, Some(left)).contains((0x08u16, v)),
        !wheel_axes_left(axes, Some(left)).contains((0x06u16, v)),
        wheel_axes_left(axes, Some(left)).contains((0x0bu16, v)) <==> left.vertical == Some(v),
        wheel_axes_left(axes, Some(left)).contains((0x0cu16, v)) <==> left.horizontal == Some(v),
{
    let keep = |a: (u16, i32)| !is_wheel(a.0);
    axes.filter_lemma(keep);
    let all = wheel_axes_left(axes, Some(left));
    let front = left_axes(left);
    assert forall|i: int| 0 <= i < all.len() implies (i < front.len() && all[i] == front[i]) || (i
        >= front.len() && !is_wheel((#[trigger] all[i]).0)) by {
        if i >= front.len() {
            assert(keep(not_wheel(axes)[i - front.len()]));
        }
    }
    if left.vertical is Some {
        assert(all[0] == (0x0bu16, left.vertical->0));
    }
    if left.horizontal is Some {
        assert(all[front.len() - 1] == (0x0cu16, left.horizontal->0));
    }
}

/// The axes that are not a wheel keep their order, and none is added.
pub proof fn law_other_axes_keep_their_order(axes: Seq<(u16, i32)>, taken: Option<WheelLeft>)
    ensures
        wheel_axes_left(axes, taken).filter(
            |a: (u16, i32)| a.0 != 0x08 && a.0 != 0x06 && a.0 != 0x0b && a.0 != 0x0c,
        ) == axes.filter(
            |a: (u16, i32)| a.0 != 0x08 && a.0 != 0x06 && a.0 != 0x0b && a.0 != 0x0c,
        ),
{
    let other = |a: (u16, i32)| a.0 != 0x08 && a.0 != 0x06 && a.0 != 0x0b && a.0 != 0x0c;
    if taken is Some {
        let keep = |a: (u16, i32)| !is_wheel(a.0);
        assert(keep =~= other);
        let front = left_axes(taken->0);
        lemma_none_kept(front, other);
        lemma_filter_join(front, not_wheel(axes), other);
        lemma_filter_twice(axes, other);
        assert(Seq::<(u16, i32)>::empty() + axes.filter(other) =~= axes.filter(other));
    }
}

proof fn lemma_none_kept<A>(s: Seq<A>, keep: spec_fn(A) -> bool)
    requires
        forall|i: int| 0 <= i < s.len() ==> !keep(#[trigger] s[i]),
    ensures
        s.filter(keep) == Seq::<A>::empty(),
    decreases s.len(),
{
    reveal(Seq::filter);
    if s.len() > 0 {
        assert forall|i: int| 0 <= i < s.drop_last().len() implies !keep(
            #[trigger] s.drop_last()[i],
        ) by {
            assert(s.drop_last()[i] == s[i]);
        }
        assert(!keep(s[s.len() - 1]));
        lemma_none_kept(s.drop_last(), keep);
    }
}

proof fn lemma_filter_join<A>(a: Seq<A>, b: Seq<A>, keep: spec_fn(A) -> bool)
    ensures
        (a + b).filter(keep) == a.filter(keep) + b.filter(keep),
    decreases b.len(),
{
    reveal(Seq::filter);
    if b.len() == 0 {
        assert(a + b =~= a);
        assert(a.filter(keep) + b.filter(keep) =~= a.filter(keep));
    } else {
        lemma_filter_join(a, b.drop_last(), keep);
        assert((a + b).drop_last() =~= a + b.drop_last());
        assert((a + b).last() == b.last());
        assert((a + b).filter(keep) =~= a.filter(keep) + b.filter(keep));
    }
}

proof fn lemma_filter_twice<A>(s: Seq<A>, keep: spec_fn(A) -> bool)
    ensures
        s.filter(keep).filter(keep) == s.filter(keep),
    decreases s.len(),
{
    reveal(Seq::filter);
    if s.len() > 0 {
        lemma_filter_twice(s.drop_last(), keep);
        if keep(s.last()) {
            assert(s.filter(keep).drop_last() =~= s.drop_last().filter(keep));
        }
    }
}

/// A hovering scroll over an application that needs it holds the pen for the whole length of the
/// freeze from then on, and no longer; in the meantime it is held whatever happens.
pub proof fn law_a_freeze_lasts_its_length(
    f: ScrollFreeze,
    then: ScrollFreeze,
    class: Seq<char>,
    now: u64,
    other: Seq<char>,
    stroke: bool,
    later: u64,
)
    requires
        now + f.length_us <= u64::MAX,
        freezes(class, entry_views(f.overrides@), f.by_default),
        then.until == freeze_until(f, class, false, true, now),
        now <= later,
    ensures
        freeze_until(f, class, false, true, now) is Some <==> f.length_us > 0,
        freeze_until(then, other, stroke, false, later) is Some <==> later - now < f.length_us,
        later - now < f.length_us ==> freeze_until(then, other, stroke, false, later)
            == then.until,
{
}

/// Over an application that needs no freeze a scroll changes nothing.
pub proof fn law_an_application_that_copes_is_never_frozen(
    f: ScrollFreeze,
    class: Seq<char>,
    stroke: bool,
    now: u64,
)
    requires
        !freezes(class, entry_views(f.overrides@), f.by_default),
    ensures
        freeze_until(f, class, stroke, true, now) == freeze_until(f, class, stroke, false, now),
{
}

/// What the steps of a delivery send as relative axes, by which device, in order.
pub open spec fn axes_sent(steps: Seq<Step>) -> Seq<(Sink, u16, i32)>
    decreases steps.len(),
{
    if steps.len() == 0 {
        seq![]
    } else {
        match steps.last() {
            Step::Relative { sink, code, value } => axes_sent(steps.drop_last()).push(
                (sink, code, value),
            ),
            _ => axes_sent(steps.drop_last()),
        }
    }
}

/// What the steps of a delivery send as buttons, by which device, in order.
pub open spec fn buttons_sent(steps: Seq<Step>) -> Seq<(Sink, u16, bool)>
    decreases steps.len(),
{
    if steps.len() == 0 {
        seq![]
    } else {
        match steps.last() {
            Step::Key { sink, code, pressed } => buttons_sent(steps.drop_last()).push(
                (sink, code, pressed),
            ),
            _ => buttons_sent(steps.drop_last()),
        }
    }
}

/// What the steps of a delivery say of the barrel buttons, in order.
pub open spec fn barrel_sent(steps: Seq<Step>) -> Seq<(bool, bool)>
    decreases steps.len(),
{
    if steps.len() == 0 {
        seq![]
    } else {
        match steps.last() {
            Step::Stylus { second, pressed } => barrel_sent(steps.drop_last()).push(
                (second, pressed),
            ),
            _ => barrel_sent(steps.drop_last()),
        }
    }
}

/// The steps of a delivery that are no axis and no button of any kind.
pub open spec fn frame(steps: Seq<Step>) -> Seq<Step>
    decreases steps.len(),
{
    if steps.len() == 0 {
        seq![]
    } else {
        match steps.last() {
            Step::Relative { .. } | Step::Key { .. } | Step::Stylus { .. } => frame(
                steps.drop_last(),
            ),
            _ => frame(steps.drop_last()).push(steps.last()),
        }
    }
}

proof fn lemma_sent_join(a: Seq<Step>, b: Seq<Step>)
    ensures
        axes_sent(a + b) == axes_sent(a) + axes_sent(b),
        buttons_sent(a + b) == buttons_sent(a) + buttons_sent(b),
        barrel_sent(a + b) == barrel_sent(a) + barrel_sent(b),
        frame(a + b) == frame(a) + frame(b),
    decreases b.len(),
{
    if b.len() == 0 {
        assert(a + b =~= a);
        assert(axes_sent(a) + axes_sent(b) =~= axes_sent(a));
        assert(buttons_sent(a) + buttons_sent(b) =~= buttons_sent(a));
        assert(barrel_sent(a) + barrel_sent(b) =~= barrel_sent(a));
        assert(frame(a) + frame(b) =~= frame(a));
    } else {
        lemma_sent_join(a, b.drop_last());
        assert((a + b).drop_last() =~= a + b.drop_last());
        assert((a + b).last() == b.last());
        assert(axes_sent(a + b) =~= axes_sent(a) + axes_sent(b));
        assert(buttons_sent(a + b) =~= buttons_sent(a) + buttons_sent(b));
        assert(barrel_sent(a + b) =~= barrel_sent(a) + barrel_sent(b));
        assert(frame(a + b) =~= frame(a) + frame(b));
    }
}

/// Axes as one device sends them.
pub open spec fn axes_by(sink: Sink, axes: Seq<(u16, i32)>) -> Seq<(Sink, u16, i32)> {
    Seq::new(axes.len(), |i: int| (sink, axes[i].0, axes[i].1))
}

/// Buttons as one device sends them.
pub open spec fn buttons_by(sink: Sink, keys: Seq<(u16, bool)>) -> Seq<(Sink, u16, bool)> {
    Seq::new(keys.len(), |i: int| (sink, keys[i].0, keys[i].1))
}

proof fn lemma_relative_sent(sink: Sink, axes: Seq<(u16, i32)>)
    ensures
        axes_sent(relative_steps(sink, axes)) == axes_by(sink, axes),
        buttons_sent(relative_steps(sink, axes)).len() == 0,
        barrel_sent(relative_steps(sink, axes)).len() == 0,
        frame(relative_steps(sink, axes)).len() == 0,
    decreases axes.len(),
{
    if axes.len() > 0 {
        lemma_relative_sent(sink, axes.drop_last());
        assert(relative_steps(sink, axes).drop_last() =~= relative_steps(sink, axes.drop_last()));
    }
    assert(axes_sent(relative_steps(sink, axes)) =~= axes_by(sink, axes));
}

proof fn lemma_keys_sent(sink: Sink, keys: Seq<(u16, bool)>)
    ensures
        buttons_sent(key_steps(sink, keys)) == buttons_by(sink, keys),
        axes_sent(key_steps(sink, keys)).len() == 0,
        barrel_sent(key_steps(sink, keys)).len() == 0,
        frame(key_steps(sink, keys)).len() == 0,
    decreases keys.len(),
{
    if keys.len() > 0 {
        lemma_keys_sent(sink, keys.drop_last());
        assert(key_steps(sink, keys).drop_last() =~= key_steps(sink, keys.drop_last()));
    }
    assert(buttons_sent(key_steps(sink, keys)) =~= buttons_by(sink, keys));
}

/// The barrel buttons that a list of transitions works: the first for the right button, the
/// second for the middle one.
pub open spec fn barrel_of(keys: Seq<(u16, bool)>) -> Seq<(bool, bool)> {
    let worked = keys.filter(|k: (u16, bool)| k.0 == 0x111 || k.0 == 0x112);
    Seq::new(worked.len(), |i: int| (worked[i].0 == 0x112, worked[i].1))
}

proof fn lemma_stylus_sent(keys: Seq<(u16, bool)>)
    ensures
        barrel_sent(stylus_steps(keys)) == barrel_of(keys),
        axes_sent(stylus_steps(keys)).len() == 0,
        buttons_sent(stylus_steps(keys)).len() == 0,
        frame(stylus_steps(keys)).len() == 0,
    decreases keys.len(),
{
    reveal(Seq::filter);
    if keys.len() > 0 {
        lemma_stylus_sent(keys.drop_last());
        let (code, pressed) = keys.last();
        if code == BTN_RIGHT || code == BTN_MIDDLE {
            assert(stylus_steps(keys).drop_last() =~= stylus_steps(keys.drop_last()));
        }
    }
    assert(barrel_sent(stylus_steps(keys)) =~= barrel_of(keys));
}

proof fn lemma_carried_sent(
    sink: Sink,
    wheel: Seq<(u16, i32)>,
    gesture: ScrollOut,
    keys: Seq<(u16, bool)>,
)
    ensures
        axes_sent(carried(sink, wheel, gesture, keys)) == axes_by(
            sink,
            wheel + scroll_axes(gesture),
        ),
        buttons_sent(carried(sink, wheel, gesture, keys)) == buttons_by(sink, keys),
        barrel_sent(carried(sink, wheel, gesture, keys)).len() == 0,
        frame(carried(sink, wheel, gesture, keys)) == seq![Step::Flush { sink }],
{
    let a = relative_steps(sink, wheel);
    let b = relative_steps(sink, scroll_axes(gesture));
    let c = key_steps(sink, keys);
    let d = seq![Step::Flush { sink }];
    lemma_relative_sent(sink, wheel);
    lemma_relative_sent(sink, scroll_axes(gesture));
    lemma_keys_sent(sink, keys);
    lemma_one_framed(Step::Flush { sink });
    lemma_sent_join(a, b);
    lemma_sent_join(a + b, c);
    lemma_sent_join(a + b + c, d);
    let all = carried(sink, wheel, gesture, keys);
    assert(axes_sent(all) =~= axes_by(sink, wheel + scroll_axes(gesture)));
    assert(buttons_sent(all) =~= buttons_by(sink, keys));
    assert(barrel_sent(all) =~= Seq::<(bool, bool)>::empty());
    assert(frame(all) =~= d);
}

proof fn lemma_one_framed(s: Step)
    requires
        !(s is Relative) && !(s is Key) && !(s is Stylus),
    ensures
        axes_sent(seq![s]).len() == 0,
        buttons_sent(seq![s]).len() == 0,
        barrel_sent(seq![s]).len() == 0,
        frame(seq![s]) == seq![s],
{
    let one = seq![s];
    assert(one.drop_last() =~= Seq::<Step>::empty());
    assert(axes_sent(one.drop_last()).len() == 0);
    assert(buttons_sent(one.drop_last()).len() == 0);
    assert(barrel_sent(one.drop_last()).len() == 0);
    assert(frame(one.drop_last()).len() == 0);
    assert(frame(one) =~= one);
}

/// Whether every axis is sent before any button.
pub open spec fn axes_come_first(steps: Seq<Step>) -> bool {
    forall|i: int, j: int|
        #![trigger steps[i], steps[j]]
        0 <= i < j < steps.len() && steps[i] is Key ==> !(steps[j] is Relative)
}

proof fn lemma_stylus_len(keys: Seq<(u16, bool)>)
    ensures
        stylus_steps(keys).len() == barrel_of(keys).len(),
    decreases keys.len(),
{
    reveal(Seq::filter);
    if keys.len() > 0 {
        lemma_stylus_len(keys.drop_last());
    }
}

/// Nothing that a report carries is lost or made up on its way to the pointer. The wheel, then
/// what a gesture scrolls, and every button leave in order, by the pointer where it is ready, else
/// by the mouse. Before that a pen in proximity is lifted, the shared position follows at the
/// scale of the mode, and the pointer is put there or the mouse moved.
pub proof fn law_what_the_pointer_is_sent(d: Delivery)
    requires
        d.output == Output::Mouse,
    ensures
        ({
            let sink = if d.pointer_ready {
                Sink::Pointer
            } else {
                Sink::Mouse
            };
            &&& axes_sent(steps_of(d)) == axes_by(sink, d.wheel@ + scroll_axes(d.gesture))
            &&& buttons_sent(steps_of(d)) == buttons_by(sink, d.keys@)
            &&& barrel_sent(steps_of(d)).len() == 0
            &&& steps_of(d).last() == Step::Flush { sink }
        }),
        frame(steps_of(d)) == (if d.in_proximity {
            seq![Step::LiftAll]
        } else {
            seq![]
        }) + (if d.fallback {
            seq![Step::TrackMillimetres]
        } else {
            seq![Step::TrackPixels]
        }) + (if d.pointer_ready {
            seq![Step::PlacePointer { counts: true }, Step::Flush { sink: Sink::Pointer }]
        } else {
            seq![Step::MoveMouse { tablet_scale: d.fallback }, Step::Flush { sink: Sink::Mouse }]
        }),
        frame(steps_of(d)).drop_last().is_prefix_of(steps_of(d)),
        axes_come_first(steps_of(d)),
{
    let track = if d.fallback {
        Step::TrackMillimetres
    } else {
        Step::TrackPixels
    };
    let (sink, place) = if d.pointer_ready {
        (Sink::Pointer, Step::PlacePointer { counts: true })
    } else {
        (Sink::Mouse, Step::MoveMouse { tablet_scale: d.fallback })
    };
    let head = lift_steps(d) + seq![track];
    let rest = carried(sink, d.wheel@, d.gesture, d.keys@);
    let tail = seq![place] + rest;
    assert(steps_of(d) =~= head + tail);
    if d.in_proximity {
        lemma_one_framed(Step::LiftAll);
    }
    lemma_one_framed(track);
    lemma_one_framed(place);
    lemma_carried_sent(sink, d.wheel@, d.gesture, d.keys@);
    lemma_sent_join(lift_steps(d), seq![track]);
    lemma_sent_join(seq![place], rest);
    lemma_sent_join(head, tail);
    assert(axes_sent(head).len() == 0 && buttons_sent(head).len() == 0);
    assert(axes_sent(head + tail) =~= axes_sent(rest));
    assert(buttons_sent(head + tail) =~= buttons_sent(rest));
    assert(frame(tail) =~= seq![place, Step::Flush { sink }]);
    assert(frame(head) =~= lift_steps(d) + seq![track]);
}

/// Raw deltas move the mouse alone: a pen in proximity is lifted, the mouse moves at its own scale,
/// and the wheel, what a gesture scrolls and every button leave by it in order.
pub proof fn law_what_raw_deltas_send(d: Delivery)
    requires
        d.output == Output::Relative,
    ensures
        axes_sent(steps_of(d)) == axes_by(Sink::Mouse, d.wheel@ + scroll_axes(d.gesture)),
        buttons_sent(steps_of(d)) == buttons_by(Sink::Mouse, d.keys@),
        barrel_sent(steps_of(d)).len() == 0,
        steps_of(d).last() == (Step::Flush { sink: Sink::Mouse }),
        frame(steps_of(d)) == (if d.in_proximity {
            seq![Step::LiftAll]
        } else {
            seq![]
        }) + seq![Step::MoveMouse { tablet_scale: false }, Step::Flush { sink: Sink::Mouse }],
        frame(steps_of(d)).drop_last().is_prefix_of(steps_of(d)),
        axes_come_first(steps_of(d)),
{
    let place = Step::MoveMouse { tablet_scale: false };
    let head = lift_steps(d) + seq![place];
    let rest = carried(Sink::Mouse, d.wheel@, d.gesture, d.keys@);
    assert(steps_of(d) =~= head + rest);
    if d.in_proximity {
        lemma_one_framed(Step::LiftAll);
    }
    lemma_one_framed(place);
    lemma_carried_sent(Sink::Mouse, d.wheel@, d.gesture, d.keys@);
    lemma_sent_join(lift_steps(d), seq![place]);
    lemma_sent_join(head, rest);
    assert(axes_sent(head + rest) =~= axes_sent(rest));
    assert(buttons_sent(head + rest) =~= buttons_sent(rest));
    assert(frame(head) =~= lift_steps(d) + seq![place]);
    assert(frame(head + rest) =~= lift_steps(d) + seq![place, Step::Flush { sink: Sink::Mouse }]);
}

/// A pen is advanced, the others are lifted, it is stated, the right and the middle button work
/// its barrel, and it is sent off. The wheel of a pen that hovers, what a gesture scrolls, and the
/// buttons of a pen that is to click all leave in order, by the pointer, put where the pen is, or
/// by the mouse where the pointer is not ready; where there is none of them, neither is used.
pub proof fn law_what_the_pen_is_sent(d: Delivery)
    requires
        d.output == Output::Tablet,
    ensures
        ({
            let sink = if d.pointer_ready {
                Sink::Pointer
            } else {
                Sink::Mouse
            };
            let wheel = if d.stroke_active {
                Seq::<(u16, i32)>::empty()
            } else {
                d.wheel@
            };
            let keys = if d.tablet_clicks {
                d.keys@
            } else {
                Seq::<(u16, bool)>::empty()
            };
            &&& axes_sent(steps_of(d)) == axes_by(sink, wheel + scroll_axes(d.gesture))
            &&& buttons_sent(steps_of(d)) == buttons_by(sink, keys)
            &&& barrel_sent(steps_of(d)) == barrel_of(d.keys@)
            &&& steps_of(d).last() == if wheel.len() + scroll_axes(d.gesture).len() + keys.len()
                > 0 {
                Step::Flush { sink }
            } else {
                Step::FlushTablet
            }
            &&& frame(steps_of(d)) == seq![
                Step::AdvancePen { frozen: d.frozen },
                Step::LiftInactive,
                Step::Pen,
                Step::FlushTablet,
            ] + (if wheel.len() + scroll_axes(d.gesture).len() + keys.len() == 0 {
                seq![]
            } else if d.pointer_ready {
                seq![Step::PlacePointer { counts: false }, Step::Flush { sink: Sink::Pointer }]
            } else {
                seq![Step::Flush { sink: Sink::Mouse }]
            })
        }),
        axes_come_first(steps_of(d)),
        ({
            let sent_off = 3 + barrel_of(d.keys@).len() as int;
            &&& steps_of(d)[sent_off] == Step::FlushTablet
            &&& forall|i: int|
                0 <= i < steps_of(d).len() ==> {
                    &&& (#[trigger] steps_of(d)[i]) is Stylus ==> 3 <= i < sent_off
                    &&& steps_of(d)[i] is Relative || steps_of(d)[i] is Key ==> i > sent_off && (
                    d.pointer_ready ==> steps_of(d)[sent_off + 1] == (Step::PlacePointer {
                        counts: false,
                    }) && i > sent_off + 1)
                }
        }),
{
    lemma_stylus(d.keys@);
    lemma_stylus_len(d.keys@);
    lemma_pen_part(d);
    let pen = pen_part(d);
    let sink = if d.pointer_ready {
        Sink::Pointer
    } else {
        Sink::Mouse
    };
    let (wheel, keys) = (hover_wheel(d), pen_clicks(d));
    let rest = carried(sink, wheel, d.gesture, keys);
    lemma_carried_sent(sink, wheel, d.gesture, keys);
    if wheel.len() > 0 || keys.len() > 0 || scroll_axes(d.gesture).len() > 0 {
        let tail = if d.pointer_ready {
            seq![Step::PlacePointer { counts: false }] + rest
        } else {
            rest
        };
        if d.pointer_ready {
            lemma_one_framed(Step::PlacePointer { counts: false });
            lemma_sent_join(seq![Step::PlacePointer { counts: false }], rest);
            assert(axes_sent(tail) =~= axes_sent(rest));
            assert(buttons_sent(tail) =~= buttons_sent(rest));
            assert(frame(tail) =~= seq![
                Step::PlacePointer { counts: false },
                Step::Flush { sink },
            ]);
        }
        assert(steps_of(d) =~= pen + tail);
        lemma_sent_join(pen, tail);
        assert(axes_sent(pen + tail) =~= axes_sent(rest));
        assert(buttons_sent(pen + tail) =~= buttons_sent(rest));
        assert(barrel_sent(pen + tail) =~= barrel_of(d.keys@));
    } else {
        assert(steps_of(d) =~= pen);
        assert(axes_by(sink, wheel + scroll_axes(d.gesture)) =~= Seq::<(Sink, u16, i32)>::empty());
        assert(buttons_by(sink, keys) =~= Seq::<(Sink, u16, bool)>::empty());
        assert(axes_sent(pen) =~= Seq::<(Sink, u16, i32)>::empty());
        assert(buttons_sent(pen) =~= Seq::<(Sink, u16, bool)>::empty());
    }
}

spec fn pen_part(d: Delivery) -> Seq<Step> {
    seq![Step::AdvancePen { frozen: d.frozen }, Step::LiftInactive, Step::Pen] + stylus_steps(
        d.keys@,
    ) + seq![Step::FlushTablet]
}

proof fn lemma_pen_part(d: Delivery)
    ensures
        axes_sent(pen_part(d)).len() == 0,
        buttons_sent(pen_part(d)).len() == 0,
        barrel_sent(pen_part(d)) == barrel_of(d.keys@),
        frame(pen_part(d)) == seq![
            Step::AdvancePen { frozen: d.frozen },
            Step::LiftInactive,
            Step::Pen,
            Step::FlushTablet,
        ],
{
    let a = seq![Step::AdvancePen { frozen: d.frozen }];
    let b = seq![Step::LiftInactive];
    let c = seq![Step::Pen];
    lemma_one_framed(a[0]);
    lemma_one_framed(b[0]);
    lemma_one_framed(c[0]);
    lemma_one_framed(Step::FlushTablet);
    lemma_sent_join(a, b);
    lemma_sent_join(a + b, c);
    let head = seq![Step::AdvancePen { frozen: d.frozen }, Step::LiftInactive, Step::Pen];
    assert(head =~= a + b + c);
    assert(frame(head) =~= head);
    lemma_stylus_sent(d.keys@);
    lemma_sent_join(head, stylus_steps(d.keys@));
    let most = head + stylus_steps(d.keys@);
    assert(frame(most) =~= head);
    assert(barrel_sent(most) =~= barrel_of(d.keys@));
    lemma_sent_join(most, seq![Step::FlushTablet]);
    assert(barrel_sent(pen_part(d)) =~= barrel_of(d.keys@));
}

/// A gesture scrolls every eight milliseconds at most, and may at any time after that.
pub proof fn law_scrolls_are_spaced(now: u64, last: u64)
    ensures
        is_scroll_due(now, last) <==> now - last >= 8_000,
        !is_scroll_due(now, now),
{
}

/// A gesture scrolls at all exactly where some amount of it is not zero.
pub proof fn law_a_gesture_scrolls_where_it_moved(out: ScrollOut)
    ensures
        scroll_axes(out).len() == 0 <==> out.notch_x == 0 && out.notch_y == 0 && out.hi_x == 0
            && out.hi_y == 0,
{
}

} // verus!
