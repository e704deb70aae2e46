//! What a preset may contain: every stage, every parameter, and what each one accepts.
//!
//! `assemble` reads parameters out of a preset; this describes what is there to read. Without
//! it an editor could only offer what a file already contains.
//!
//! `soft_min` and `soft_max` bound a slider, never a value. Files may hold anything.

use crate::config::assemble::{
    asked_for, field_warnings, fields_of, fields_warnings, is_zero, number_of, plan_of,
    unknown_parameters, Field, Values, Wants,
};
use crate::config::schema::Datum;
use crate::text::{
    decimal, number, occurs, occurs_at, owned, same_text,
};
use vstd::prelude::*;
use vstd::string::*;

verus! {

/// What a parameter accepts, and how an editor should offer it.
///
/// Fractions are held in thousandths.
#[derive(Debug)]
pub enum ParamKind {
    Float {
        default: i64,
        soft_min: i64,
        soft_max: i64,
        /// Digits to display. Resolutions are whole numbers; radii are not.
        decimals: u8,
    },
    Bool { default: bool },
    /// A fixed set of names. The first is not assumed to be the default.
    Choice { default: &'static str, options: Vec<&'static str> },
    /// A key or button name, such as `BTN_SIDE` or `KEY_LEFTSHIFT`, or a list of them, any of
    /// which engages.
    Binding,
}

#[derive(Debug)]
pub struct ParamSpec {
    pub key: &'static str,
    pub label: &'static str,
    pub unit: &'static str,
    pub help: &'static str,
    pub kind: ParamKind,
    /// Parameters only meaningful when another is set a particular way. An editor may fold these
    /// away; nothing depends on it doing so.
    pub depends_on: Option<(&'static str, &'static str)>,
    /// Hidden when the named parameter *does* hold this value.
    pub hidden_when: Option<(&'static str, &'static str)>,
    /// Parameters that only mean anything when the named binding holds a *chord*.
    pub needs_chord: Option<&'static str>,
}

#[derive(Debug)]
pub struct StageSpec {
    pub kind: &'static str,
    pub label: &'static str,
    pub help: &'static str,
    pub params: Vec<ParamSpec>,
    /// `normalize` must be first and `pressure` last; an editor should not offer a reorder that
    /// will be undone.
    pub pinned_first: bool,
    pub pinned_last: bool,
}

/// The view of a [`ParamKind`].
pub enum KindView {
    Float { default: int, soft_min: int, soft_max: int, decimals: int },
    Bool { default: bool },
    Choice { default: Seq<char>, options: Seq<Seq<char>> },
    Binding,
}

/// The view of a [`ParamSpec`], with the wording that the user sees.
pub struct ParamView {
    pub key: Seq<char>,
    pub label: Seq<char>,
    pub unit: Seq<char>,
    pub help: Seq<char>,
    pub kind: KindView,
    pub depends_on: Option<(Seq<char>, Seq<char>)>,
    pub hidden_when: Option<(Seq<char>, Seq<char>)>,
    pub needs_chord: Option<Seq<char>>,
}

/// The view of a [`StageSpec`], with the wording that the user sees.
pub struct StageView {
    pub kind: Seq<char>,
    pub label: Seq<char>,
    pub help: Seq<char>,
    pub params: Seq<ParamView>,
    pub pinned_first: bool,
    pub pinned_last: bool,
}

pub open spec fn str_views(list: Seq<&str>) -> Seq<Seq<char>> {
    list.map_values(|s: &str| s@)
}

pub open spec fn pair_view(p: Option<(&str, &str)>) -> Option<(Seq<char>, Seq<char>)> {
    match p {
        Some((a, b)) => Some((a@, b@)),
        None => None,
    }
}

impl View for ParamKind {
    type V = KindView;

    open spec fn view(&self) -> KindView {
        match *self {
            ParamKind::Float { default, soft_min, soft_max, decimals } => KindView::Float {
                default: default as int,
                soft_min: soft_min as int,
                soft_max: soft_max as int,
                decimals: decimals as int,
            },
            ParamKind::Bool { default } => KindView::Bool { default },
            ParamKind::Choice { default, options } => KindView::Choice {
                default: default@,
                options: str_views(options@),
            },
            ParamKind::Binding => KindView::Binding,
        }
    }
}

impl View for ParamSpec {
    type V = ParamView;

    open spec fn view(&self) -> ParamView {
        ParamView {
            key: self.key@,
            label: self.label@,
            unit: self.unit@,
            help: self.help@,
            kind: self.kind@,
            depends_on: pair_view(self.depends_on),
            hidden_when: pair_view(self.hidden_when),
            needs_chord: match self.needs_chord {
                Some(b) => Some(b@),
                None => None,
            },
        }
    }
}

pub open spec fn param_views(list: Seq<ParamSpec>) -> Seq<ParamView> {
    list.map_values(|p: ParamSpec| p@)
}

impl View for StageSpec {
    type V = StageView;

    open spec fn view(&self) -> StageView {
        StageView {
            kind: self.kind@,
            label: self.label@,
            help: self.help@,
            params: param_views(self.params@),
            pinned_first: self.pinned_first,
            pinned_last: self.pinned_last,
        }
    }
}

pub open spec fn stage_views(list: Seq<StageSpec>) -> Seq<StageView> {
    list.map_values(|s: StageSpec| s@)
}

pub open spec fn plain_view(
    key: Seq<char>,
    label: Seq<char>,
    unit: Seq<char>,
    help: Seq<char>,
    kind: KindView,
) -> ParamView {
    ParamView {
        key,
        label,
        unit,
        help,
        kind,
        depends_on: None,
        hidden_when: None,
        needs_chord: None,
    }
}

pub open spec fn float_view(
    key: Seq<char>,
    label: Seq<char>,
    unit: Seq<char>,
    default: int,
    soft_min: int,
    soft_max: int,
    decimals: int,
    help: Seq<char>,
) -> ParamView {
    plain_view(key, label, unit, help, KindView::Float { default, soft_min, soft_max, decimals })
}

pub open spec fn bool_view(
    key: Seq<char>,
    label: Seq<char>,
    default: bool,
    help: Seq<char>,
) -> ParamView {
    plain_view(key, label, ""@, help, KindView::Bool { default })
}

pub open spec fn choice_view(
    key: Seq<char>,
    label: Seq<char>,
    default: Seq<char>,
    options: Seq<Seq<char>>,
    help: Seq<char>,
) -> ParamView {
    plain_view(key, label, ""@, help, KindView::Choice { default, options })
}

pub open spec fn binding_view(key: Seq<char>, label: Seq<char>, help: Seq<char>) -> ParamView {
    plain_view(key, label, ""@, help, KindView::Binding)
}

pub open spec fn when_view(p: ParamView, param: Seq<char>, value: Seq<char>) -> ParamView {
    ParamView { depends_on: Some((param, value)), ..p }
}

pub open spec fn not_when_view(p: ParamView, param: Seq<char>, value: Seq<char>) -> ParamView {
    ParamView { hidden_when: Some((param, value)), ..p }
}

pub open spec fn when_chord_view(p: ParamView, binding: Seq<char>) -> ParamView {
    ParamView { needs_chord: Some(binding), ..p }
}

fn f(
    key: &'static str,
    label: &'static str,
    unit: &'static str,
    default: i64,
    soft_min: i64,
    soft_max: i64,
    decimals: u8,
    help: &'static str,
) -> (r: ParamSpec)
    ensures
        r@ == float_view(
            key@,
            label@,
            unit@,
            default as int,
            soft_min as int,
            soft_max as int,
            decimals as int,
            help@,
        ),
{
    ParamSpec {
        key,
        label,
        unit,
        help,
        kind: ParamKind::Float { default, soft_min, soft_max, decimals },
        depends_on: None,
        hidden_when: None,
        needs_chord: None,
    }
}

fn when(spec: ParamSpec, param: &'static str, value: &'static str) -> (r: ParamSpec)
    ensures
        r@ == when_view(spec@, param@, value@),
{
    ParamSpec { depends_on: Some((param, value)), ..spec }
}

/// Shown everywhere except when `param` holds `value`.
fn not_when(spec: ParamSpec, param: &'static str, value: &'static str) -> (r: ParamSpec)
    ensures
        r@ == not_when_view(spec@, param@, value@),
{
    ParamSpec { hidden_when: Some((param, value)), ..spec }
}

/// Only meaningful when `binding` holds a chord rather than a single button.
fn when_chord(spec: ParamSpec, binding: &'static str) -> (r: ParamSpec)
    ensures
        r@ == when_chord_view(spec@, binding@),
{
    ParamSpec { needs_chord: Some(binding), ..spec }
}

fn b(key: &'static str, label: &'static str, default: bool, help: &'static str) -> (r: ParamSpec)
    ensures
        r@ == bool_view(key@, label@, default, help@),
{
    ParamSpec {
        key,
        label,
        unit: "",
        help,
        kind: ParamKind::Bool { default },
        depends_on: None,
        hidden_when: None,
        needs_chord: None,
    }
}

fn c(
    key: &'static str,
    label: &'static str,
    default: &'static str,
    options: Vec<&'static str>,
    help: &'static str,
) -> (r: ParamSpec)
    ensures
        r@ == choice_view(key@, label@, default@, str_views(options@), help@),
{
    ParamSpec {
        key,
        label,
        unit: "",
        help,
        kind: ParamKind::Choice { default, options },
        depends_on: None,
        hidden_when: None,
        needs_chord: None,
    }
}

fn bind(key: &'static str, label: &'static str, help: &'static str) -> (r: ParamSpec)
    ensures
        r@ == binding_view(key@, label@, help@),
{
    ParamSpec {
        key,
        label,
        unit: "",
        help,
        kind: ParamKind::Binding,
        depends_on: None,
        hidden_when: None,
        needs_chord: None,
    }
}

fn two(x: &'static str, y: &'static str) -> (r: Vec<&'static str>)
    ensures
        str_views(r@) == seq![x@, y@],
{
    let r = vec![x, y];
    assert(str_views(r@) =~= seq![x@, y@]);
    r
}

fn three(x: &'static str, y: &'static str, z: &'static str) -> (r: Vec<&'static str>)
    ensures
        str_views(r@) == seq![x@, y@, z@],
{
    let r = vec![x, y, z];
    assert(str_views(r@) =~= seq![x@, y@, z@]);
    r
}

pub open spec fn normalize_view() -> StageView {
    StageView {
        kind: "normalize"@,
        label: "Normalize"@,
        help: "Turns raw sensor counts into millimetres. Everything downstream is physical, which is what lets a preset mean the same thing on someone else's mouse."@,
        params: seq![
            float_view("dpi"@, "Sensor resolution"@, "dpi"@, 1600000, 400000, 8000000, 0, "Your mouse's true DPI. A wrong value silently mis-scales every other setting."@),
        ],
        pinned_first: true,
        pinned_last: false,
    }
}

pub open spec fn rotate_view() -> StageView {
    StageView {
        kind: "rotate"@,
        label: "Rotate"@,
        help: "Turns the whole motion vector. An accessibility feature first — for holding the mouse off-square — and a convenience for working at an angle second."@,
        params: seq![
            float_view("angle_deg"@, "Rotation"@, "°"@, 0, -45000, 45000, 1, ""@),
        ],
        pinned_first: false,
        pinned_last: false,
    }
}

pub open spec fn deadzone_view() -> StageView {
    StageView {
        kind: "deadzone"@,
        label: "Deadzone"@,
        help: "Discards movement below a threshold. 0 by default: the sensor essentially never reverses spuriously at ordinary resolutions."@,
        params: seq![
            float_view("threshold_mm"@, "Threshold"@, "mm"@, 0, 0, 1000, 3, "Movement smaller than this never reaches the cursor."@),
        ],
        pinned_first: false,
        pinned_last: false,
    }
}

pub open spec fn smooth_view() -> StageView {
    StageView {
        kind: "smooth"@,
        label: "Smooth (one-euro)"@,
        help: "Adaptive low pass: heavy smoothing when slow, low lag when fast."@,
        params: seq![
            float_view("min_cutoff_hz"@, "Cutoff"@, "Hz"@, 5000, 1000, 20000, 2, "Lower smooths more. Measured: 5 is the general default at 0.30mm of lag, 2 is the tremor setting at 0.44mm."@),
            float_view("beta"@, "Speed response"@, ""@, 50, 0, 300, 3, "How much fast movement loosens the smoothing. Must be 0.05–0.2 in these units, not the ~0.007 seen in one-euro literature."@),
            float_view("d_cutoff_hz"@, "Speed smoothing"@, "Hz"@, 1000, 100, 5000, 2, ""@),
        ],
        pinned_first: false,
        pinned_last: false,
    }
}

pub open spec fn stabilize_view() -> StageView {
    StageView {
        kind: "stabilize"@,
        label: "Stabilize (pulled string)"@,
        help: "The cursor drags an anchor on a leash. This is what produces the confident sweeping arc, and the single most important parameter for drawing feel."@,
        params: seq![
            float_view("radius_mm"@, "Radius"@, "mm"@, 400, 0, 4000, 2, "Hand movement the cursor rests behind by. Measured: 0.2 removes wobble with all detail intact, 1.0 begins rounding corners, 4.0 destroys a drawing."@),
            float_view("catch_up"@, "Catch-up"@, ""@, 350, 50, 1000, 2, "How quickly the anchor closes the gap once it starts moving."@),
        ],
        pinned_first: false,
        pinned_last: false,
    }
}

pub open spec fn average_view() -> StageView {
    StageView {
        kind: "average"@,
        label: "Average (moving window)"@,
        help: "Averages position over a time window. Takes tremor off an otherwise fine line, where stabilize reshapes the line entirely."@,
        params: seq![
            float_view("window_ms"@, "Window"@, "ms"@, 50000, 0, 150000, 0, "Measured: 50ms removes a fifth of path wobble for 0.057mm of lag. Past ~100ms each extra millisecond buys less and costs the same. 0 is off."@),
            choice_view("weighting"@, "Weighting"@, "exponential"@, seq!["exponential"@, "linear"@, "gaussian"@], "Measured: exponential removes the most wobble per millimetre of lag at every window tested. Linear is the most predictable to reason about."@),
        ],
        pinned_first: false,
        pinned_last: false,
    }
}

pub open spec fn sensitivity_view() -> StageView {
    StageView {
        kind: "sensitivity"@,
        label: "Sensitivity"@,
        help: "A flat multiplier, with acceleration curves behind it for those who want them."@,
        params: seq![
            float_view("multiplier"@, "Sensitivity"@, "×"@, 1000, 100, 4000, 2, ""@),
            float_view("y_ratio"@, "Vertical ratio"@, "×"@, 1000, 500, 2000, 2, "Vertical sensitivity relative to horizontal."@),
            choice_view("curve_type"@, "Curve"@, "flat"@, seq!["flat"@, "power"@], "Flat is a constant multiplier. Power accelerates with speed."@),
            when_view(float_view("curve_reference_mm_s"@, "Reference speed"@, "mm/s"@, 50000, 10000, 300000, 0, ""@), "curve_type"@, "power"@),
            when_view(float_view("curve_exponent"@, "Exponent"@, ""@, 1000, 200, 3000, 2, ""@), "curve_type"@, "power"@),
            when_view(float_view("curve_min"@, "Minimum"@, "×"@, 500, 100, 2000, 2, ""@), "curve_type"@, "power"@),
            when_view(float_view("curve_max"@, "Maximum"@, "×"@, 3000, 500, 8000, 2, ""@), "curve_type"@, "power"@),
        ],
        pinned_first: false,
        pinned_last: false,
    }
}

pub open spec fn snap_view() -> StageView {
    StageView {
        kind: "snap"@,
        label: "Snap (constrain)"@,
        help: "Constrains strokes to allowed directions while a button or key is held — shift-constrain, with the modifier of your choosing."@,
        params: seq![
            choice_view("constraint"@, "Constraint"@, "angle"@, seq!["angle"@, "line"@], "Angle snaps to evenly spaced directions. Line holds whichever direction the stroke set off in."@),
            when_view(float_view("divisions"@, "Divisions"@, ""@, 4000, 2000, 16000, 0, "4 locks to the axes, 8 adds the diagonals."@), "constraint"@, "angle"@),
            when_view(float_view("tolerance_deg"@, "Tolerance"@, "°"@, 45000, 1000, 90000, 1, "How near an allowed direction the hand must be. Half a division makes it a lock; narrower makes it a magnet that only bites near an axis."@), "constraint"@, "angle"@),
            float_view("strength"@, "Strength"@, ""@, 1000, 0, 1000, 2, "1 pins to the constraint; below that it leans without taking over."@),
            choice_view("activation"@, "Activation"@, "modifier"@, seq!["modifier"@, "always"@], "Held, the way shift-constrain works everywhere else — or permanently on."@),
            when_view(binding_view("modifier"@, "Modifier"@, "A mouse button costs nothing extra. A keyboard key makes the daemon watch that one key, read-only and never grabbed (D24)."@), "activation"@, "modifier"@),
        ],
        pinned_first: false,
        pinned_last: false,
    }
}

pub open spec fn scroll_view() -> StageView {
    StageView {
        kind: "scroll"@,
        label: "Scroll gesture"@,
        help: "Turns held movement into scrolling: a touchscreen-style swipe, or the middle-click autoscroll Windows and browsers have."@,
        params: seq![
            choice_view("mode"@, "Mode"@, "drag"@, seq!["drag"@, "wheel"@, "joystick"@], "Drag scrolls by how far you move. Wheel routes your own wheel through this stage so it picks up the speed and momentum set here. Joystick sets a speed from how far you hold away from where you pressed, and keeps scrolling while you hold still."@),
            binding_view("button"@, "Button"@, "What engages the gesture. BTN_MIDDLE is the familiar one — and in wheel mode, leaving it unbound means the wheel is always routed through the stage rather than only while something is held."@),
            choice_view("mouse_passthrough"@, "Bound mouse button still"@, "unless_active"@, seq!["always"@, "unless_active"@, "reserved"@], "What a bound *mouse* button still does for the application — keyboard keys are never taken, since this daemon does not emit them. `unless_active` keeps the button working except in the exact combination you bound, so with alt+middle a plain middle click still pastes. `always` never takes it; `reserved` always does."@),
            when_view(float_view("wheel_gain"@, "Wheel multiplier"@, "×"@, 1000, 100, 5000, 2, "Output notches per notch of your wheel."@), "mode"@, "wheel"@),
            when_view(float_view("speed"@, "Scroll speed"@, ""@, 250, 20, 4000, 3, "How far the page moves for a given hand movement. Higher is faster — and with the cursor unfrozen this is what decides whether the page keeps pace with the pointer, which is somewhere near 0.1 on a typical screen."@), "mode"@, "drag"@),
            bool_view("drag_invert"@, "Invert"@, false, ""@),
            when_view(float_view("joystick_deadzone_mm"@, "Deadzone"@, "mm"@, 2000, 0, 10000, 1, "Displacement before scrolling starts, so a resting hand does not creep."@), "mode"@, "joystick"@),
            when_view(float_view("joystick_gain"@, "Speed"@, ""@, 1500, 100, 6000, 2, "Notches per second per millimetre past the deadzone."@), "mode"@, "joystick"@),
            bool_view("latch"@, "Click to latch"@, false, "Click to start and click to stop, rather than holding throughout."@),
            not_when_view(bool_view("freeze_cursor"@, "Hold the cursor still"@, true, "On, a swipe: the cursor stays where it is, as a finger on glass has none to move. Off, a hand tool: the page follows the pointer so the point under it stays under it. Joystick ignores this — it needs the cursor to steer by."@), "mode"@, "wheel"@),
            not_when_view(bool_view("momentum"@, "Momentum"@, false, "Keep scrolling after a flick, decaying — a long page then feels like a surface with weight rather than a crank."@), "mode"@, "joystick"@),
            not_when_view(float_view("momentum_decay_ms"@, "Momentum decay"@, "ms"@, 350000, 100000, 1500000, 0, "How long a flick takes to fade to about a third of its release speed."@), "mode"@, "joystick"@),
            when_chord_view(bool_view("full_release_stops_momentum"@, "Full release stops momentum"@, false, "With a chord, letting go of one part leaves the page coasting and letting go of the rest stops it dead — a brake on the same binding, with no second one to find."@), "button"@),
        ],
        pinned_first: false,
        pinned_last: false,
    }
}

pub open spec fn pressure_view() -> StageView {
    StageView {
        kind: "pressure"@,
        label: "Pressure"@,
        help: "Synthesises pen pressure. Terms multiply, so disabling one leaves the others intact: p = envelope(time) × speed(velocity)."@,
        params: seq![
            bool_view("envelope_enabled"@, "Time envelope"@, true, "Ramps pressure in and out over a stroke. This is most of what reads as a hand-drawn taper."@),
            when_view(float_view("attack_ms"@, "Attack"@, "ms"@, 60000, 0, 300000, 0, "Every real stroke is 93ms or longer, so 60 means they all reach full pressure."@), "envelope_enabled"@, "true"@),
            when_view(float_view("release_ms"@, "Release"@, "ms"@, 60000, 0, 300000, 0, ""@), "envelope_enabled"@, "true"@),
            bool_view("speed_enabled"@, "Speed term"@, true, "Fast strokes thin, slow deliberate ones stay heavy."@),
            when_view(float_view("v_max_mm_s"@, "Speed for minimum pressure"@, "mm/s"@, 50000, 20000, 300000, 0, "Measured: careful drawing peaks at 20–30mm/s, fast gesturing at 73–124. 50 suits careful work, 150 suits gesture."@), "speed_enabled"@, "true"@),
            when_view(float_view("gamma"@, "Speed curve"@, ""@, 2000, 500, 4000, 2, ""@), "speed_enabled"@, "true"@),
            when_view(choice_view("source"@, "Velocity from"@, "cursor"@, seq!["cursor"@, "output"@], "Cursor is the hand's own speed; output is the filtered path's. Measuring the cursor avoids a blob at every direction change."@), "speed_enabled"@, "true"@),
            when_view(float_view("velocity_smoothing_ms"@, "Velocity smoothing"@, "ms"@, 40000, 0, 200000, 0, "Required: raw per-event velocity is quantisation noise and makes pressure gritty. 0 is allowed and has a distinctive look."@), "speed_enabled"@, "true"@),
            choice_view("stall_behaviour"@, "When the hand stops"@, "hold"@, seq!["hold"@, "decay"@], "Hold keeps the last pressure; decay lets it fall away."@),
            float_view("stall_threshold_mm"@, "Stall threshold"@, "mm"@, 50, 0, 1000, 3, "Movement below this counts as stopped."@),
            float_view("stall_timeout_ms"@, "Stall timeout"@, "ms"@, 250000, 0, 2000000, 0, ""@),
            float_view("min_pressure"@, "Minimum pressure"@, ""@, 50, 0, 500, 3, "Floor below which pressure never falls. 0 is permitted; it can make stroke ends vanish entirely."@),
        ],
        pinned_first: false,
        pinned_last: true,
    }
}

/// Every stage, in the order in which an editor lists them.
pub open spec fn catalog() -> Seq<StageView> {
    seq![
        normalize_view(),
        rotate_view(),
        deadzone_view(),
        smooth_view(),
        stabilize_view(),
        average_view(),
        sensitivity_view(),
        snap_view(),
        scroll_view(),
        pressure_view(),
    ]
}

fn normalize_stage() -> (r: StageSpec)
    ensures
        r@ == normalize_view(),
{
    let params = vec![
        f("dpi", "Sensor resolution", "dpi", 1600000, 400000, 8000000, 0, "Your mouse's true DPI. A wrong value silently mis-scales every other setting."),
    ];
    proof {
        assert(param_views(params@) =~= normalize_view().params);
    }
    StageSpec {
        kind: "normalize",
        label: "Normalize",
        help: "Turns raw sensor counts into millimetres. Everything downstream is physical, which is what lets a preset mean the same thing on someone else's mouse.",
        params,
        pinned_first: true,
        pinned_last: false,
    }
}

fn rotate_stage() -> (r: StageSpec)
    ensures
        r@ == rotate_view(),
{
    let params = vec![
        f("angle_deg", "Rotation", "°", 0, -45000, 45000, 1, ""),
    ];
    proof {
        assert(param_views(params@) =~= rotate_view().params);
    }
    StageSpec {
        kind: "rotate",
        label: "Rotate",
        help: "Turns the whole motion vector. An accessibility feature first — for holding the mouse off-square — and a convenience for working at an angle second.",
        params,
        pinned_first: false,
        pinned_last: false,
    }
}

fn deadzone_stage() -> (r: StageSpec)
    ensures
        r@ == deadzone_view(),
{
    let params = vec![
        f("threshold_mm", "Threshold", "mm", 0, 0, 1000, 3, "Movement smaller than this never reaches the cursor."),
    ];
    proof {
        assert(param_views(params@) =~= deadzone_view().params);
    }
    StageSpec {
        kind: "deadzone",
        label: "Deadzone",
        help: "Discards movement below a threshold. 0 by default: the sensor essentially never reverses spuriously at ordinary resolutions.",
        params,
        pinned_first: false,
        pinned_last: false,
    }
}

fn smooth_stage() -> (r: StageSpec)
    ensures
        r@ == smooth_view(),
{
    let params = vec![
        f("min_cutoff_hz", "Cutoff", "Hz", 5000, 1000, 20000, 2, "Lower smooths more. Measured: 5 is the general default at 0.30mm of lag, 2 is the tremor setting at 0.44mm."),
        f("beta", "Speed response", "", 50, 0, 300, 3, "How much fast movement loosens the smoothing. Must be 0.05–0.2 in these units, not the ~0.007 seen in one-euro literature."),
        f("d_cutoff_hz", "Speed smoothing", "Hz", 1000, 100, 5000, 2, ""),
    ];
    proof {
        assert(param_views(params@) =~= smooth_view().params);
    }
    StageSpec {
        kind: "smooth",
        label: "Smooth (one-euro)",
        help: "Adaptive low pass: heavy smoothing when slow, low lag when fast.",
        params,
        pinned_first: false,
        pinned_last: false,
    }
}

fn stabilize_stage() -> (r: StageSpec)
    ensures
        r@ == stabilize_view(),
{
    let params = vec![
        f("radius_mm", "Radius", "mm", 400, 0, 4000, 2, "Hand movement the cursor rests behind by. Measured: 0.2 removes wobble with all detail intact, 1.0 begins rounding corners, 4.0 destroys a drawing."),
        f("catch_up", "Catch-up", "", 350, 50, 1000, 2, "How quickly the anchor closes the gap once it starts moving."),
    ];
    proof {
        assert(param_views(params@) =~= stabilize_view().params);
    }
    StageSpec {
        kind: "stabilize",
        label: "Stabilize (pulled string)",
        help: "The cursor drags an anchor on a leash. This is what produces the confident sweeping arc, and the single most important parameter for drawing feel.",
        params,
        pinned_first: false,
        pinned_last: false,
    }
}

fn average_stage() -> (r: StageSpec)
    ensures
        r@ == average_view(),
{
    let params = vec![
        f("window_ms", "Window", "ms", 50000, 0, 150000, 0, "Measured: 50ms removes a fifth of path wobble for 0.057mm of lag. Past ~100ms each extra millisecond buys less and costs the same. 0 is off."),
        c("weighting", "Weighting", "exponential", three("exponential", "linear", "gaussian"), "Measured: exponential removes the most wobble per millimetre of lag at every window tested. Linear is the most predictable to reason about."),
    ];
    proof {
        assert(param_views(params@) =~= average_view().params);
    }
    StageSpec {
        kind: "average",
        label: "Average (moving window)",
        help: "Averages position over a time window. Takes tremor off an otherwise fine line, where stabilize reshapes the line entirely.",
        params,
        pinned_first: false,
        pinned_last: false,
    }
}

fn sensitivity_stage() -> (r: StageSpec)
    ensures
        r@ == sensitivity_view(),
{
    let params = vec![
        f("multiplier", "Sensitivity", "×", 1000, 100, 4000, 2, ""),
        f("y_ratio", "Vertical ratio", "×", 1000, 500, 2000, 2, "Vertical sensitivity relative to horizontal."),
        c("curve_type", "Curve", "flat", two("flat", "power"), "Flat is a constant multiplier. Power accelerates with speed."),
        when(f("curve_reference_mm_s", "Reference speed", "mm/s", 50000, 10000, 300000, 0, ""), "curve_type", "power"),
        when(f("curve_exponent", "Exponent", "", 1000, 200, 3000, 2, ""), "curve_type", "power"),
        when(f("curve_min", "Minimum", "×", 500, 100, 2000, 2, ""), "curve_type", "power"),
        when(f("curve_max", "Maximum", "×", 3000, 500, 8000, 2, ""), "curve_type", "power"),
    ];
    proof {
        assert(param_views(params@) =~= sensitivity_view().params);
    }
    StageSpec {
        kind: "sensitivity",
        label: "Sensitivity",
        help: "A flat multiplier, with acceleration curves behind it for those who want them.",
        params,
        pinned_first: false,
        pinned_last: false,
    }
}

fn snap_stage() -> (r: StageSpec)
    ensures
        r@ == snap_view(),
{
    let params = vec![
        c("constraint", "Constraint", "angle", two("angle", "line"), "Angle snaps to evenly spaced directions. Line holds whichever direction the stroke set off in."),
        when(f("divisions", "Divisions", "", 4000, 2000, 16000, 0, "4 locks to the axes, 8 adds the diagonals."), "constraint", "angle"),
        when(f("tolerance_deg", "Tolerance", "°", 45000, 1000, 90000, 1, "How near an allowed direction the hand must be. Half a division makes it a lock; narrower makes it a magnet that only bites near an axis."), "constraint", "angle"),
        f("strength", "Strength", "", 1000, 0, 1000, 2, "1 pins to the constraint; below that it leans without taking over."),
        c("activation", "Activation", "modifier", two("modifier", "always"), "Held, the way shift-constrain works everywhere else — or permanently on."),
        when(bind("modifier", "Modifier", "A mouse button costs nothing extra. A keyboard key makes the daemon watch that one key, read-only and never grabbed (D24)."), "activation", "modifier"),
    ];
    proof {
        assert(param_views(params@) =~= snap_view().params);
    }
    StageSpec {
        kind: "snap",
        label: "Snap (constrain)",
        help: "Constrains strokes to allowed directions while a button or key is held — shift-constrain, with the modifier of your choosing.",
        params,
        pinned_first: false,
        pinned_last: false,
    }
}

fn scroll_stage() -> (r: StageSpec)
    ensures
        r@ == scroll_view(),
{
    let params = vec![
        c("mode", "Mode", "drag", three("drag", "wheel", "joystick"), "Drag scrolls by how far you move. Wheel routes your own wheel through this stage so it picks up the speed and momentum set here. Joystick sets a speed from how far you hold away from where you pressed, and keeps scrolling while you hold still."),
        bind("button", "Button", "What engages the gesture. BTN_MIDDLE is the familiar one — and in wheel mode, leaving it unbound means the wheel is always routed through the stage rather than only while something is held."),
        c("mouse_passthrough", "Bound mouse button still", "unless_active", three("always", "unless_active", "reserved"), "What a bound *mouse* button still does for the application — keyboard keys are never taken, since this daemon does not emit them. `unless_active` keeps the button working except in the exact combination you bound, so with alt+middle a plain middle click still pastes. `always` never takes it; `reserved` always does."),
        when(f("wheel_gain", "Wheel multiplier", "×", 1000, 100, 5000, 2, "Output notches per notch of your wheel."), "mode", "wheel"),
        when(f("speed", "Scroll speed", "", 250, 20, 4000, 3, "How far the page moves for a given hand movement. Higher is faster — and with the cursor unfrozen this is what decides whether the page keeps pace with the pointer, which is somewhere near 0.1 on a typical screen."), "mode", "drag"),
        b("drag_invert", "Invert", false, ""),
        when(f("joystick_deadzone_mm", "Deadzone", "mm", 2000, 0, 10000, 1, "Displacement before scrolling starts, so a resting hand does not creep."), "mode", "joystick"),
        when(f("joystick_gain", "Speed", "", 1500, 100, 6000, 2, "Notches per second per millimetre past the deadzone."), "mode", "joystick"),
        b("latch", "Click to latch", false, "Click to start and click to stop, rather than holding throughout."),
        not_when(b("freeze_cursor", "Hold the cursor still", true, "On, a swipe: the cursor stays where it is, as a finger on glass has none to move. Off, a hand tool: the page follows the pointer so the point under it stays under it. Joystick ignores this — it needs the cursor to steer by."), "mode", "wheel"),
        not_when(b("momentum", "Momentum", false, "Keep scrolling after a flick, decaying — a long page then feels like a surface with weight rather than a crank."), "mode", "joystick"),
        not_when(f("momentum_decay_ms", "Momentum decay", "ms", 350000, 100000, 1500000, 0, "How long a flick takes to fade to about a third of its release speed."), "mode", "joystick"),
        when_chord(b("full_release_stops_momentum", "Full release stops momentum", false, "With a chord, letting go of one part leaves the page coasting and letting go of the rest stops it dead — a brake on the same binding, with no second one to find."), "button"),
    ];
    proof {
        assert(param_views(params@) =~= scroll_view().params);
    }
    StageSpec {
        kind: "scroll",
        label: "Scroll gesture",
        help: "Turns held movement into scrolling: a touchscreen-style swipe, or the middle-click autoscroll Windows and browsers have.",
        params,
        pinned_first: false,
        pinned_last: false,
    }
}

fn pressure_stage() -> (r: StageSpec)
    ensures
        r@ == pressure_view(),
{
    let params = vec![
        b("envelope_enabled", "Time envelope", true, "Ramps pressure in and out over a stroke. This is most of what reads as a hand-drawn taper."),
        when(f("attack_ms", "Attack", "ms", 60000, 0, 300000, 0, "Every real stroke is 93ms or longer, so 60 means they all reach full pressure."), "envelope_enabled", "true"),
        when(f("release_ms", "Release", "ms", 60000, 0, 300000, 0, ""), "envelope_enabled", "true"),
        b("speed_enabled", "Speed term", true, "Fast strokes thin, slow deliberate ones stay heavy."),
        when(f("v_max_mm_s", "Speed for minimum pressure", "mm/s", 50000, 20000, 300000, 0, "Measured: careful drawing peaks at 20–30mm/s, fast gesturing at 73–124. 50 suits careful work, 150 suits gesture."), "speed_enabled", "true"),
        when(f("gamma", "Speed curve", "", 2000, 500, 4000, 2, ""), "speed_enabled", "true"),
        when(c("source", "Velocity from", "cursor", two("cursor", "output"), "Cursor is the hand's own speed; output is the filtered path's. Measuring the cursor avoids a blob at every direction change."), "speed_enabled", "true"),
        when(f("velocity_smoothing_ms", "Velocity smoothing", "ms", 40000, 0, 200000, 0, "Required: raw per-event velocity is quantisation noise and makes pressure gritty. 0 is allowed and has a distinctive look."), "speed_enabled", "true"),
        c("stall_behaviour", "When the hand stops", "hold", two("hold", "decay"), "Hold keeps the last pressure; decay lets it fall away."),
        f("stall_threshold_mm", "Stall threshold", "mm", 50, 0, 1000, 3, "Movement below this counts as stopped."),
        f("stall_timeout_ms", "Stall timeout", "ms", 250000, 0, 2000000, 0, ""),
        f("min_pressure", "Minimum pressure", "", 50, 0, 500, 3, "Floor below which pressure never falls. 0 is permitted; it can make stroke ends vanish entirely."),
    ];
    proof {
        assert(param_views(params@) =~= pressure_view().params);
    }
    StageSpec {
        kind: "pressure",
        label: "Pressure",
        help: "Synthesises pen pressure. Terms multiply, so disabling one leaves the others intact: p = envelope(time) × speed(velocity).",
        params,
        pinned_first: false,
        pinned_last: true,
    }
}

/// Every stage a preset may contain.
pub fn stages() -> (r: Vec<StageSpec>)
    ensures
        stage_views(r@) == catalog(),
{
    let r = vec![
        normalize_stage(),
        rotate_stage(),
        deadzone_stage(),
        smooth_stage(),
        stabilize_stage(),
        average_stage(),
        sensitivity_stage(),
        snap_stage(),
        scroll_stage(),
        pressure_stage(),
    ];
    assert(stage_views(r@) =~= catalog());
    r
}

/// The first stage of `kind`.
pub open spec fn find_stage(list: Seq<StageView>, kind: Seq<char>) -> Option<StageView>
    decreases list.len(),
{
    if list.len() == 0 {
        None
    } else if list[0].kind == kind {
        Some(list[0])
    } else {
        find_stage(list.drop_first(), kind)
    }
}

/// The first parameter called `key`.
pub open spec fn find_param(list: Seq<ParamView>, key: Seq<char>) -> Option<ParamView>
    decreases list.len(),
{
    if list.len() == 0 {
        None
    } else if list[0].key == key {
        Some(list[0])
    } else {
        find_param(list.drop_first(), key)
    }
}

pub open spec fn param_of(kind: Seq<char>, key: Seq<char>) -> Option<ParamView> {
    match find_stage(catalog(), kind) {
        Some(s) => find_param(s.params, key),
        None => None,
    }
}

/// The stage of `kind`.
pub fn stage(kind: &str) -> (r: Option<StageSpec>)
    ensures
        r is Some <==> find_stage(catalog(), kind@) is Some,
        r matches Some(s) ==> find_stage(catalog(), kind@) == Some(s@),
{
    let mut all = stages();
    let ghost list = stage_views(all@);
    let mut i: usize = 0;
    assert(list.skip(0) =~= list);
    while i < all.len()
        invariant
            i <= all.len(),
            list == stage_views(all@),
            list == catalog(),
            find_stage(list.skip(i as int), kind@) == find_stage(list, kind@),
        decreases all.len() - i,
    {
        assert(list.skip(i as int)[0] == list[i as int]);
        assert(list.skip(i as int).drop_first() =~= list.skip(i + 1));
        if same_text(all[i].kind, kind) {
            return Some(all.swap_remove(i));
        }
        i += 1;
    }
    None
}

/// The parameter `key` of the stage of `kind`.
pub fn param(kind: &str, key: &str) -> (r: Option<ParamSpec>)
    ensures
        r is Some <==> param_of(kind@, key@) is Some,
        r matches Some(p) ==> param_of(kind@, key@) == Some(p@),
{
    let mut params = match stage(kind) {
        Some(s) => s.params,
        None => {
            return None;
        },
    };
    let ghost list = param_views(params@);
    let mut i: usize = 0;
    assert(list.skip(0) =~= list);
    while i < params.len()
        invariant
            i <= params.len(),
            list == param_views(params@),
            param_of(kind@, key@) == find_param(list, key@),
            find_param(list.skip(i as int), key@) == find_param(list, key@),
        decreases params.len() - i,
    {
        assert(list.skip(i as int)[0] == list[i as int]);
        assert(list.skip(i as int).drop_first() =~= list.skip(i + 1));
        if same_text(params[i].key, key) {
            return Some(params.swap_remove(i));
        }
        i += 1;
    }
    None
}

pub open spec fn magnitude(t: int) -> nat {
    if t < 0 {
        (-t) as nat
    } else {
        t as nat
    }
}

pub open spec fn sign_text(t: int) -> Seq<char> {
    if t < 0 {
        "-"@
    } else {
        ""@
    }
}

/// The fraction of a number of thousandths, without trailing zeros.
pub open spec fn fraction_text(r: nat) -> Seq<char> {
    if r == 0 {
        ""@
    } else if r % 100 == 0 {
        "."@ + decimal(r / 100)
    } else if r % 10 == 0 {
        if r < 100 {
            ".0"@ + decimal(r / 10)
        } else {
            "."@ + decimal(r / 10)
        }
    } else if r < 10 {
        ".00"@ + decimal(r)
    } else if r < 100 {
        ".0"@ + decimal(r)
    } else {
        "."@ + decimal(r)
    }
}

/// A number of thousandths, written as shortly as it can be.
pub open spec fn thousandths_text(t: int) -> Seq<char> {
    sign_text(t) + decimal(magnitude(t) / 1000) + fraction_text(magnitude(t) % 1000)
}

/// A number of thousandths to the nearest whole number, halves away from zero.
pub open spec fn rounded_text(t: int) -> Seq<char> {
    if (magnitude(t) + 500) / 1000 == 0 {
        "0"@
    } else {
        sign_text(t) + decimal((magnitude(t) + 500) / 1000)
    }
}

/// The line that states a parameter's default.
pub open spec fn param_line(p: ParamView) -> Seq<char> {
    match p.kind {
        KindView::Float { default, soft_min, soft_max, decimals } => if decimals == 0 {
            p.key + " = "@ + rounded_text(default) + "\n"@
        } else {
            p.key + " = "@ + thousandths_text(default) + "\n"@
        },
        KindView::Bool { default } => if default {
            p.key + " = true\n"@
        } else {
            p.key + " = false\n"@
        },
        KindView::Choice { default, options } => p.key + " = \""@ + default + "\"\n"@,
        KindView::Binding => "# "@ + p.key + " = \"BTN_SIDE\"\n"@,
    }
}

/// The lines of a list of parameters after `lead`.
pub open spec fn param_lines(lead: Seq<char>, params: Seq<ParamView>) -> Seq<char>
    decreases params.len(),
{
    if params.len() == 0 {
        lead
    } else {
        param_lines(lead, params.drop_last()) + param_line(params.last())
    }
}

/// A stage block with its defaults.
pub open spec fn stage_text(s: StageView) -> Seq<char> {
    param_lines("\n[[stage]]\ntype = \""@ + s.kind + "\"\n"@, s.params)
}

fn fraction(r: u64) -> (s: String)
    requires
        r < 1000,
    ensures
        s@ == fraction_text(r as nat),
{
    if r == 0 {
        owned("")
    } else if r % 100 == 0 {
        owned(".").concat(number(r / 100).as_str())
    } else if r % 10 == 0 {
        if r < 100 {
            owned(".0").concat(number(r / 10).as_str())
        } else {
            owned(".").concat(number(r / 10).as_str())
        }
    } else if r < 10 {
        owned(".00").concat(number(r).as_str())
    } else if r < 100 {
        owned(".0").concat(number(r).as_str())
    } else {
        owned(".").concat(number(r).as_str())
    }
}

fn absolute(t: i64) -> (r: u64)
    ensures
        r == magnitude(t as int),
{
    if t == i64::MIN {
        0x8000_0000_0000_0000u64
    } else if t < 0 {
        (-t) as u64
    } else {
        t as u64
    }
}

fn sign(t: i64) -> (s: String)
    ensures
        s@ == sign_text(t as int),
{
    if t < 0 {
        owned("-")
    } else {
        owned("")
    }
}

fn thousandths(t: i64) -> (s: String)
    ensures
        s@ == thousandths_text(t as int),
{
    let m = absolute(t);
    sign(t).concat(number(m / 1000).as_str()).concat(fraction(m % 1000).as_str())
}

fn rounded(t: i64) -> (s: String)
    ensures
        s@ == rounded_text(t as int),
{
    let m = (absolute(t) + 500) / 1000;
    if m == 0 {
        owned("0")
    } else {
        sign(t).concat(number(m).as_str())
    }
}

fn line_of(p: &ParamSpec) -> (s: String)
    ensures
        s@ == param_line(p@),
{
    match &p.kind {
        ParamKind::Float { default, decimals, .. } => if *decimals == 0 {
            owned(p.key).concat(" = ").concat(rounded(*default).as_str()).concat("\n")
        } else {
            owned(p.key).concat(" = ").concat(thousandths(*default).as_str()).concat("\n")
        },
        ParamKind::Bool { default } => if *default {
            owned(p.key).concat(" = true\n")
        } else {
            owned(p.key).concat(" = false\n")
        },
        ParamKind::Choice { default, .. } => owned(p.key).concat(" = \"").concat(default).concat(
            "\"\n",
        ),
        // No sensible default: a binding nobody chose would engage something at random.
        ParamKind::Binding => owned("# ").concat(p.key).concat(" = \"BTN_SIDE\"\n"),
    }
}

/// A new stage block carrying its defaults, ready to append to a preset file.
///
/// Written with every parameter present, so the file the user ends up with says what it does.
pub fn new_stage_toml(kind: &str) -> (r: Option<String>)
    ensures
        r is Some <==> find_stage(catalog(), kind@) is Some,
        r matches Some(text) ==> text@ == stage_text(find_stage(catalog(), kind@)->0),
{
    let spec = match stage(kind) {
        Some(s) => s,
        None => {
            return None;
        },
    };
    let mut out = owned("\n[[stage]]\ntype = \"").concat(spec.kind).concat("\"\n");
    let ghost lead = out@;
    let ghost params = spec@.params;
    let mut i: usize = 0;
    assert(params.take(0) =~= Seq::<ParamView>::empty());
    while i < spec.params.len()
        invariant
            i <= spec.params.len(),
            params == param_views(spec.params@),
            out@ == param_lines(lead, params.take(i as int)),
        decreases spec.params.len() - i,
    {
        let ghost now = params.take(i + 1);
        proof {
            assert(now.drop_last() =~= params.take(i as int));
            assert(now.last() == params[i as int]);
        }
        out.append(line_of(&spec.params[i]).as_str());
        i += 1;
    }
    assert(params.take(i as int) =~= params);
    Some(out)
}

/// Whether a stage has a parameter called `key`.
pub open spec fn has_param(s: StageView, key: Seq<char>) -> bool {
    exists|k: int| 0 <= k < s.params.len() && (#[trigger] s.params[k]).key == key
}

/// Whether a stage has a binding called `key`.
pub open spec fn has_binding(s: StageView, key: Seq<char>) -> bool {
    exists|k: int|
        0 <= k < s.params.len() && (#[trigger] s.params[k]).key == key && s.params[k].kind is Binding
}

/// What holds of every parameter `p` of a stage `s`.
pub open spec fn well_formed_param(s: StageView, p: ParamView) -> bool {
    &&& p.kind matches KindView::Choice { default, options } ==> options.contains(default)
    &&& p.depends_on matches Some((on, _)) ==> has_param(s, on)
    &&& p.hidden_when matches Some((on, _)) ==> has_param(s, on)
    &&& p.needs_chord matches Some(on) ==> has_binding(s, on)
}

/// The kinds are told apart by their first letters or lengths.
proof fn reveal_kinds()
    ensures
        "normalize"@.len() == 9 && "normalize"@[0] == 'n',
        "rotate"@.len() == 6 && "rotate"@[0] == 'r',
        "deadzone"@.len() == 8 && "deadzone"@[0] == 'd',
        "smooth"@.len() == 6 && "smooth"@[0] == 's' && "smooth"@[1] == 'm',
        "stabilize"@.len() == 9 && "stabilize"@[0] == 's',
        "average"@.len() == 7,
        "sensitivity"@.len() == 11,
        "snap"@.len() == 4,
        "scroll"@.len() == 6 && "scroll"@[0] == 's' && "scroll"@[1] == 'c',
        "pressure"@.len() == 8 && "pressure"@[0] == 'p',
{
    reveal_strlit("normalize");
    reveal_strlit("rotate");
    reveal_strlit("deadzone");
    reveal_strlit("smooth");
    reveal_strlit("stabilize");
    reveal_strlit("average");
    reveal_strlit("sensitivity");
    reveal_strlit("snap");
    reveal_strlit("scroll");
    reveal_strlit("pressure");
}

/// Only `normalize` is pinned first and only `pressure` is pinned last.
pub proof fn law_only_two_stages_are_pinned(i: int)
    requires
        0 <= i < catalog().len(),
    ensures
        catalog()[i].pinned_first <==> catalog()[i].kind == "normalize"@,
        catalog()[i].pinned_last <==> catalog()[i].kind == "pressure"@,
{
    reveal_kinds();
}

/// No kind is listed twice.
pub proof fn law_kinds_are_distinct(i: int, j: int)
    requires
        0 <= i < j < catalog().len(),
    ensures
        catalog()[i].kind != catalog()[j].kind,
{
    reveal_kinds();
    let (a, b) = (catalog()[i].kind, catalog()[j].kind);
    assert(a.len() != b.len() || a[0] != b[0] || a[1] != b[1]);
}

proof fn lemma_sensitivity_params(j: int)
    requires
        0 <= j < sensitivity_view().params.len(),
    ensures
        well_formed_param(sensitivity_view(), sensitivity_view().params[j]),
{
    let s = sensitivity_view();
    assert(s.params[2].key == "curve_type"@);
    assert(seq!["flat"@, "power"@][0] == "flat"@);
}

proof fn lemma_snap_params(j: int)
    requires
        0 <= j < snap_view().params.len(),
    ensures
        well_formed_param(snap_view(), snap_view().params[j]),
{
    let s = snap_view();
    assert(s.params[0].key == "constraint"@);
    assert(s.params[4].key == "activation"@);
    assert(seq!["angle"@, "line"@][0] == "angle"@);
    assert(seq!["modifier"@, "always"@][0] == "modifier"@);
}

proof fn lemma_scroll_params(j: int)
    requires
        0 <= j < scroll_view().params.len(),
    ensures
        well_formed_param(scroll_view(), scroll_view().params[j]),
{
    let s = scroll_view();
    assert(s.params[0].key == "mode"@);
    assert(s.params[1].key == "button"@);
    assert(seq!["drag"@, "wheel"@, "joystick"@][0] == "drag"@);
    assert(seq!["always"@, "unless_active"@, "reserved"@][1] == "unless_active"@);
}

proof fn lemma_pressure_params(j: int)
    requires
        0 <= j < pressure_view().params.len(),
    ensures
        well_formed_param(pressure_view(), pressure_view().params[j]),
{
    let s = pressure_view();
    assert(s.params[0].key == "envelope_enabled"@);
    assert(s.params[3].key == "speed_enabled"@);
    assert(seq!["cursor"@, "output"@][0] == "cursor"@);
    assert(seq!["hold"@, "decay"@][0] == "hold"@);
}

/// Every choice defaults to one of its own options, and every dependency names a parameter of
/// the same stage: a binding, where it is about a chord.
pub proof fn law_every_parameter_is_well_formed(i: int, j: int)
    requires
        0 <= i < catalog().len(),
        0 <= j < catalog()[i].params.len(),
    ensures
        well_formed_param(catalog()[i], catalog()[i].params[j]),
{
    assert(seq!["exponential"@, "linear"@, "gaussian"@][0] == "exponential"@);
    if i == 6 {
        lemma_sensitivity_params(j);
    } else if i == 7 {
        lemma_snap_params(j);
    } else if i == 8 {
        lemma_scroll_params(j);
    } else if i == 9 {
        lemma_pressure_params(j);
    }
}

proof fn lemma_pressure_fields(j: int)
    requires
        0 <= j < pressure_view().params.len(),
    ensures
        asked_for(fields_of("pressure"@), pressure_view().params[j].key),
{
    reveal_kinds();
    let f = fields_of("pressure"@);
    let at: int = if j == 0 {
        2
    } else if j <= 2 {
        j - 1
    } else if j <= 5 {
        j
    } else if j == 6 {
        7
    } else if j == 7 {
        6
    } else if j == 8 {
        10
    } else if j <= 10 {
        j - 1
    } else {
        11
    };
    assert(f[at].key == pressure_view().params[j].key);
}

proof fn lemma_sensitivity_fields(j: int)
    requires
        0 <= j < sensitivity_view().params.len(),
    ensures
        asked_for(fields_of("sensitivity"@), sensitivity_view().params[j].key),
{
    reveal_kinds();
    let f = fields_of("sensitivity"@);
    let at: int = if j < 2 {
        j
    } else {
        j + 1
    };
    assert(f[at].key == sensitivity_view().params[j].key);
}

/// Every listed parameter of a stage that can be built is one that its builder reads, so a file
/// made from the catalog draws no complaint about an unknown parameter. Of the catalog only `snap`
/// cannot be built yet.
pub proof fn law_every_listed_parameter_is_read(i: int, j: int)
    requires
        0 <= i < catalog().len(),
        0 <= j < catalog()[i].params.len(),
        catalog()[i].kind != "snap"@,
    ensures
        asked_for(fields_of(catalog()[i].kind), catalog()[i].params[j].key),
{
    reveal_kinds();
    if i == 6 {
        lemma_sensitivity_fields(j);
    } else if i == 9 {
        lemma_pressure_fields(j);
    } else {
        let f = fields_of(catalog()[i].kind);
        assert(f[j].key == catalog()[i].params[j].key);
    }
}

/// Whether a value is of the kind that a parameter takes.
pub open spec fn takes(kind: KindView, v: Datum) -> bool {
    match kind {
        KindView::Float { .. } => v is Integer || v is Float,
        KindView::Bool { .. } => v is Boolean,
        KindView::Choice { options, .. } => v matches Datum::String(s) && options.contains(s@),
        KindView::Binding => true,
    }
}

/// Whether the values are what the catalog lists for a stage: no other keys, each value of the
/// kind its parameter takes, and no pressure of zero, about which there is a warning of its own.
pub open spec fn is_listed(s: StageView, values: Values) -> bool {
    &&& forall|key: Seq<char>| #[trigger] values.contains_key(key) ==> has_param(s, key)
    &&& forall|j: int|
        0 <= j < s.params.len() && values.contains_key((#[trigger] s.params[j]).key) ==> takes(
            s.params[j].kind,
            values[s.params[j].key],
        )
    &&& number_of(values, "min_pressure"@) matches Some(n) ==> !is_zero(n)
}

/// Whether whatever a parameter takes is what a builder wants.
spec fn suits(p: ParamView, f: Field) -> bool {
    &&& p.key == f.key
    &&& match f.wants {
        Wants::Number => p.kind is Float,
        Wants::Pressure => p.kind is Float && f.key == "min_pressure"@,
        Wants::Boolean => p.kind is Bool,
        Wants::Choice(_, names, default) => {
            &&& names.contains(default)
            &&& p.kind matches KindView::Choice { options, .. }
            &&& forall|o: Seq<char>| #[trigger] options.contains(o) ==> names.contains(o)
        },
        Wants::OptionalNumber | Wants::Binding => true,
    }
}

proof fn lemma_suits(s: StageView, values: Values, j: int, f: Field)
    requires
        is_listed(s, values),
        0 <= j < s.params.len(),
        suits(s.params[j], f),
    ensures
        field_warnings(values, f) == Seq::<Seq<char>>::empty(),
{
}

/// Where the parameter stands that the `a`th field of a stage reads.
spec fn place_of(i: int, a: int) -> int {
    if i == 6 {
        if a < 2 {
            a
        } else {
            a - 1
        }
    } else if i == 9 {
        if a < 2 {
            a + 1
        } else if a == 2 {
            0
        } else if a <= 5 {
            a
        } else if a == 6 {
            7
        } else if a == 7 {
            6
        } else if a <= 9 {
            a + 1
        } else if a == 10 {
            8
        } else {
            11
        }
    } else {
        a
    }
}

proof fn lemma_other_way_round(x: Seq<Seq<char>>, y: Seq<Seq<char>>)
    requires
        x.len() == 2,
        y.len() == 2,
        x[0] == y[1],
        x[1] == y[0],
    ensures
        forall|o: Seq<char>| #[trigger] x.contains(o) ==> y.contains(o),
{
    assert forall|o: Seq<char>| #[trigger] x.contains(o) implies y.contains(o) by {
        assert(y.contains(y[0]) && y.contains(y[1]));
    }
}

proof fn lemma_defaults_are_options()
    ensures
        seq!["output"@, "cursor"@].contains("cursor"@),
        seq!["decay"@, "hold"@].contains("hold"@),
        seq!["flat"@, "power"@].contains("flat"@),
        seq!["exponential"@, "linear"@, "gaussian"@].contains("exponential"@),
        seq!["drag"@, "wheel"@, "joystick"@].contains("drag"@),
        seq!["always"@, "unless_active"@, "reserved"@].contains("unless_active"@),
{
    assert(seq!["output"@, "cursor"@][1] == "cursor"@);
    assert(seq!["decay"@, "hold"@][1] == "hold"@);
    assert(seq!["flat"@, "power"@][0] == "flat"@);
    assert(seq!["exponential"@, "linear"@, "gaussian"@][0] == "exponential"@);
    assert(seq!["drag"@, "wheel"@, "joystick"@][0] == "drag"@);
    assert(seq!["always"@, "unless_active"@, "reserved"@][1] == "unless_active"@);
}

proof fn lemma_every_field_suits(i: int, a: int)
    requires
        0 <= i < catalog().len(),
        catalog()[i].kind != "snap"@,
        0 <= a < fields_of(catalog()[i].kind).len(),
        !(fields_of(catalog()[i].kind)[a].wants is OptionalNumber),
    ensures
        0 <= place_of(i, a) < catalog()[i].params.len(),
        suits(catalog()[i].params[place_of(i, a)], fields_of(catalog()[i].kind)[a]),
{
    reveal_kinds();
    lemma_defaults_are_options();
    lemma_other_way_round(seq!["cursor"@, "output"@], seq!["output"@, "cursor"@]);
    lemma_other_way_round(seq!["hold"@, "decay"@], seq!["decay"@, "hold"@]);
}

proof fn lemma_no_field_complains(i: int, values: Values, fields: Seq<Field>)
    requires
        0 <= i < catalog().len(),
        catalog()[i].kind != "snap"@,
        is_listed(catalog()[i], values),
        fields.is_prefix_of(fields_of(catalog()[i].kind)),
    ensures
        fields_warnings(values, fields) == Seq::<Seq<char>>::empty(),
    decreases fields.len(),
{
    if fields.len() > 0 {
        let a = fields.len() - 1;
        let f = fields_of(catalog()[i].kind)[a];
        assert(fields.last() == f);
        assert(fields.drop_last().is_prefix_of(fields_of(catalog()[i].kind)));
        lemma_no_field_complains(i, values, fields.drop_last());
        if !(f.wants is OptionalNumber) {
            lemma_every_field_suits(i, a);
            lemma_suits(catalog()[i], values, place_of(i, a), f);
        }
        assert(fields_warnings(values, fields) =~= Seq::<Seq<char>>::empty());
    }
}

proof fn lemma_no_key_is_unknown(i: int, values: Values, keys: Seq<Seq<char>>)
    requires
        0 <= i < catalog().len(),
        catalog()[i].kind != "snap"@,
        is_listed(catalog()[i], values),
        forall|k: int| 0 <= k < keys.len() ==> values.contains_key(#[trigger] keys[k]),
    ensures
        unknown_parameters(keys, fields_of(catalog()[i].kind)) == Seq::<Seq<char>>::empty(),
    decreases keys.len(),
{
    if keys.len() > 0 {
        lemma_no_key_is_unknown(i, values, keys.drop_last());
        let key = keys.last();
        assert(values.contains_key(keys[keys.len() - 1]));
        let j = choose|j: int|
            0 <= j < catalog()[i].params.len() && (#[trigger] catalog()[i].params[j]).key == key;
        law_every_listed_parameter_is_read(i, j);
    }
}

/// A stage of the catalog, with values of the kinds that the catalog lists, is built and draws no
/// complaint, whichever of its keys are given. Of the catalog only `snap` cannot be built yet.
pub proof fn law_a_catalogued_stage_draws_no_complaint(
    i: int,
    values: Values,
    keys: Seq<Seq<char>>,
)
    requires
        0 <= i < catalog().len(),
        catalog()[i].kind != "snap"@,
        is_listed(catalog()[i], values),
        forall|k: int| 0 <= k < keys.len() ==> values.contains_key(#[trigger] keys[k]),
    ensures
        plan_of(catalog()[i].kind, values) is Some,
        fields_warnings(values, fields_of(catalog()[i].kind)) == Seq::<Seq<char>>::empty(),
        unknown_parameters(keys, fields_of(catalog()[i].kind)) == Seq::<Seq<char>>::empty(),
{
    reveal_kinds();
    lemma_no_field_complains(i, values, fields_of(catalog()[i].kind));
    lemma_no_key_is_unknown(i, values, keys);
}

/// A stage is found by its kind, and a parameter by its key: the first of that name counts.
pub proof fn law_the_first_of_a_name_is_found(
    list: Seq<StageView>,
    params: Seq<ParamView>,
    i: int,
    name: Seq<char>,
)
    ensures
        0 <= i < list.len() && list[i].kind == name && (forall|j: int|
            0 <= j < i ==> (#[trigger] list[j]).kind != name) ==> find_stage(list, name) == Some(
            list[i],
        ),
        (forall|j: int| 0 <= j < list.len() ==> (#[trigger] list[j]).kind != name) ==> find_stage(
            list,
            name,
        ) is None,
        0 <= i < params.len() && params[i].key == name && (forall|j: int|
            0 <= j < i ==> (#[trigger] params[j]).key != name) ==> find_param(params, name) == Some(
            params[i],
        ),
        (forall|j: int| 0 <= j < params.len() ==> (#[trigger] params[j]).key != name) ==> find_param(
            params,
            name,
        ) is None,
    decreases list.len() + params.len(),
{
    if list.len() > 0 || params.len() > 0 {
        let l = if list.len() > 0 {
            list.drop_first()
        } else {
            list
        };
        let p = if params.len() > 0 {
            params.drop_first()
        } else {
            params
        };
        law_the_first_of_a_name_is_found(l, p, i - 1, name);
        assert(forall|j: int| 0 <= j < l.len() ==> #[trigger] l[j] == list[j + 1]);
        assert(forall|j: int| 0 <= j < p.len() ==> #[trigger] p[j] == params[j + 1]);
        if list.len() > 0 {
            assert(list[0] == list[0]);
        }
        if params.len() > 0 {
            assert(params[0] == params[0]);
        }
        assert forall|j: int| 0 <= j < l.len() implies (#[trigger] l[j]).kind == list[j + 1].kind by {}
        assert forall|j: int| 0 <= j < p.len() implies (#[trigger] p[j]).key == params[j + 1].key by {}
        if 0 < i < list.len() && (forall|j: int| 0 <= j < i ==> (#[trigger] list[j]).kind != name) {
            assert(forall|j: int| 0 <= j < i - 1 ==> (#[trigger] l[j]).kind != name);
        }
        if 0 < i < params.len() && (forall|j: int| 0 <= j < i ==> (#[trigger] params[j]).key != name) {
            assert(forall|j: int| 0 <= j < i - 1 ==> (#[trigger] p[j]).key != name);
        }
    }
}

/// A new stage block begins with its kind and states every parameter of the stage, in order.
pub proof fn law_a_new_stage_states_every_parameter(s: StageView, j: int)
    requires
        0 <= j < s.params.len(),
    ensures
        ("\n[[stage]]\ntype = \""@ + s.kind + "\"\n"@).is_prefix_of(stage_text(s)),
        occurs(param_line(s.params[j]), stage_text(s)),
        stage_text(StageView { params: s.params.take(j + 1), ..s }) == stage_text(
            StageView { params: s.params.take(j), ..s },
        ) + param_line(s.params[j]),
        stage_text(StageView { params: s.params, ..s }) == stage_text(s),
{
    let lead = "\n[[stage]]\ntype = \""@ + s.kind + "\"\n"@;
    lemma_lines_occur(lead, s.params, j);
    assert(s.params.take(j + 1).drop_last() =~= s.params.take(j));
    assert(s.params.take(j + 1).last() == s.params[j]);
}

proof fn lemma_lines_occur(lead: Seq<char>, params: Seq<ParamView>, j: int)
    ensures
        lead.is_prefix_of(param_lines(lead, params)),
        0 <= j < params.len() ==> occurs(param_line(params[j]), param_lines(lead, params)),
    decreases params.len(),
{
    let all = param_lines(lead, params);
    if params.len() > 0 {
        let rest = param_lines(lead, params.drop_last());
        lemma_lines_occur(lead, params.drop_last(), j);
        let line = param_line(params.last());
        assert(all =~= rest + line);
        assert(all.take(lead.len() as int) =~= lead);
        if j == params.len() - 1 {
            assert(all.subrange(rest.len() as int, (rest.len() + line.len()) as int) =~= line);
            assert(occurs_at(line, all, rest.len() as int));
        } else if 0 <= j < params.len() {
            let own = param_line(params[j]);
            assert(params.drop_last()[j] == params[j]);
            let at = choose|at: int| occurs_at(own, rest, at);
            assert(all.subrange(at, at + own.len()) =~= rest.subrange(at, at + own.len()));
            assert(occurs_at(own, all, at));
        }
    } else {
        assert(all.take(lead.len() as int) =~= lead);
    }
}

/// A default is written as it is: a switch as true or false, a choice in quotes, a whole number
/// plainly and a fraction behind a point without trailing zeros. A binding is left out.
pub proof fn law_a_default_is_written_as_it_is(p: ParamView, n: nat, d: nat)
    requires
        1 <= d < 10,
    ensures
        p.kind == (KindView::Bool { default: true }) ==> param_line(p) == p.key + " = true\n"@,
        p.kind == (KindView::Bool { default: false }) ==> param_line(p) == p.key + " = false\n"@,
        p.kind matches KindView::Choice { default, .. } ==> param_line(p) == p.key + " = \""@
            + default + "\"\n"@,
        p.kind is Binding ==> param_line(p)[0] == '#',
        thousandths_text(1000 * n as int) == decimal(n),
        thousandths_text((1000 * n + 100 * d) as int) == decimal(n).push('.') + decimal(d),
        thousandths_text((1000 * n + 10 * d) as int) == decimal(n) + seq!['.', '0'] + decimal(d),
        thousandths_text((1000 * n + d) as int) == decimal(n) + seq!['.', '0', '0'] + decimal(d),
        n > 0 ==> thousandths_text(-(1000 * n)) == seq!['-'] + decimal(n),
        n > 0 ==> rounded_text(1000 * n as int) == decimal(n),
        n > 0 ==> rounded_text((1000 * n + 499) as int) == decimal(n),
        n > 0 ==> rounded_text(1000 * n - 500) == decimal(n),
{
    reveal_strlit("");
    reveal_strlit("-");
    reveal_strlit(".");
    reveal_strlit(".0");
    reveal_strlit(".00");
    reveal_strlit("# ");
    assert((1000 * n + 100 * d) / 1000 == n && (1000 * n + 100 * d) % 1000 == 100 * d);
    assert((1000 * n + 10 * d) / 1000 == n && (1000 * n + 10 * d) % 1000 == 10 * d);
    assert((1000 * n + d) / 1000 == n && (1000 * n + d) % 1000 == d);
    assert((100 * d) % 100 == 0 && (100 * d) / 100 == d);
    assert((10 * d) % 100 != 0 && (10 * d) % 10 == 0 && (10 * d) / 10 == d);
    assert(thousandths_text(1000 * n as int) =~= decimal(n));
    assert(thousandths_text((1000 * n + 100 * d) as int) =~= decimal(n).push('.') + decimal(d));
    assert(thousandths_text((1000 * n + 10 * d) as int) =~= decimal(n) + seq!['.', '0'] + decimal(d));
    assert(thousandths_text((1000 * n + d) as int) =~= decimal(n) + seq!['.', '0', '0'] + decimal(d));
    if n > 0 {
        assert(magnitude(-(1000 * n)) == 1000 * n);
        assert(thousandths_text(-(1000 * n)) =~= seq!['-'] + decimal(n));
        assert(rounded_text(1000 * n as int) =~= decimal(n));
        assert((1000 * n + 499 + 500) / 1000 == n);
        assert(rounded_text((1000 * n + 499) as int) =~= decimal(n));
        assert((1000 * n - 500 + 500) / 1000 == n);
        assert(rounded_text(1000 * n - 500) =~= decimal(n));
    }
}

/// Every number of the catalog defaults to something within the range that it is offered in.
pub proof fn law_defaults_lie_in_their_range(i: int, j: int)
    requires
        0 <= i < catalog().len(),
        0 <= j < catalog()[i].params.len(),
    ensures
        catalog()[i].params[j].kind matches KindView::Float {
            default,
            soft_min,
            soft_max,
            decimals,
        } ==> soft_min <= default <= soft_max && soft_min < soft_max && 0 <= decimals <= 3,
{
}

/// A choice that a preset leaves out is the one that the catalog gives for its default: stating
/// that default changes nothing about the stage.
pub proof fn law_a_choice_left_out_is_the_default(i: int, j: int, values: Values, s: String)
    requires
        0 <= i < catalog().len(),
        catalog()[i].kind != "snap"@,
        0 <= j < catalog()[i].params.len(),
        catalog()[i].params[j].kind is Choice,
        catalog()[i].params[j].kind->Choice_default == s@,
        !values.contains_key(catalog()[i].params[j].key),
    ensures
        plan_of(catalog()[i].kind, values) == plan_of(
            catalog()[i].kind,
            values.insert(catalog()[i].params[j].key, Datum::String(s)),
        ),
{
    reveal_kinds();
    let key = catalog()[i].params[j].key;
    let stated = values.insert(key, Datum::String(s));
    assert forall|k: Seq<char>| k != key implies number_of(stated, k) == number_of(values, k) by {}
    reveal_strlit("weighting");
    reveal_strlit("window_ms");
    reveal_strlit("curve_type");
    reveal_strlit("multiplier");
    reveal_strlit("y_ratio");
    reveal_strlit("max_multiplier");
    reveal_strlit("curve_reference_mm_s");
    reveal_strlit("curve_exponent");
    reveal_strlit("curve_min");
    reveal_strlit("curve_max");
    reveal_strlit("mode");
    reveal_strlit("mouse_passthrough");
    reveal_strlit("source");
    reveal_strlit("stall_behaviour");
    lemma_choice_keys();
}

proof fn lemma_choice_keys()
    ensures
        "weighting"@ != "window_ms"@,
        "curve_type"@ != "multiplier"@,
        "curve_type"@ != "y_ratio"@,
        "curve_type"@ != "max_multiplier"@,
        "curve_type"@ != "curve_reference_mm_s"@,
        "curve_type"@ != "curve_exponent"@,
        "curve_type"@ != "curve_min"@,
        "curve_type"@ != "curve_max"@,
        "mode"@ != "mouse_passthrough"@,
        "source"@ != "stall_behaviour"@,
        forall|k: Seq<char>|
            #![trigger k.len()]
            k.len() != 4 ==> k != "mode"@,
        forall|k: Seq<char>|
            #![trigger k.len()]
            k.len() != 17 ==> k != "mouse_passthrough"@,
        forall|k: Seq<char>|
            #![trigger k.len()]
            k.len() != 6 ==> k != "source"@,
        forall|k: Seq<char>|
            #![trigger k.len()]
            k.len() != 15 ==> k != "stall_behaviour"@,
{
    reveal_strlit("weighting");
    reveal_strlit("window_ms");
    reveal_strlit("curve_type");
    reveal_strlit("multiplier");
    reveal_strlit("y_ratio");
    reveal_strlit("max_multiplier");
    reveal_strlit("curve_reference_mm_s");
    reveal_strlit("curve_exponent");
    reveal_strlit("curve_min");
    reveal_strlit("curve_max");
    reveal_strlit("mode");
    reveal_strlit("mouse_passthrough");
    reveal_strlit("source");
    reveal_strlit("stall_behaviour");
    assert("weighting"@[1] == 'e' && "window_ms"@[1] == 'i');
    assert("curve_type"@[0] == 'c' && "multiplier"@[0] == 'm' && "curve_type"@.len() == 10);
    assert("curve_reference_mm_s"@.len() == 20 && "curve_exponent"@.len() == 14);
    assert("curve_min"@.len() == 9 && "curve_max"@.len() == 9 && "max_multiplier"@.len() == 14);
    assert("y_ratio"@.len() == 7 && "mode"@.len() == 4 && "mouse_passthrough"@.len() == 17);
    assert("source"@.len() == 6 && "stall_behaviour"@.len() == 15);
}

} // verus!
