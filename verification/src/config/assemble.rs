//! Turning a preset on disk into a plan for a pipeline.
//!
//! The one place that knows every stage's parameters, and therefore the one place that can
//! report an unknown stage or a misspelled parameter.
//!
//! **Nothing here is fatal.** A typo in one parameter must not cost the user their mouse, so
//! unknown stages and unknown keys become warnings and the rest of the pipeline is built.

use crate::config::cascade::{resolved, DeviceView};
use crate::config::schema::{Datum, Passthrough, Preset, StageEntry};
use crate::dict::{in_key_order, key_at, keys_of, Dict};
use crate::filter::average::Weighting;
use crate::filter::pressure::{SpeedSource, StallBehaviour};
use crate::filter::scroll::{Mode as ScrollMode, Settings};
use crate::text::{begins_with, chars_of, owned, same_text, slice_of, string_of, views};
use vstd::prelude::*;
use vstd::string::*;

verus! {

/// A number as a file gives it: an integer, or the bits of an IEEE 754 double.
#[derive(Debug, Clone, Copy, PartialEq, Eq, Structural)]
pub enum Number {
    Integer(i64),
    Float(u64),
}

/// How the multiplier of `sensitivity` varies with speed. `None` stands for the built-in value.
#[derive(Debug, Clone, Copy, PartialEq, Eq, Structural)]
pub enum CurvePlan {
    Flat,
    Power {
        reference_mm_s: Option<Number>,
        exponent: Option<Number>,
        min: Option<Number>,
        max: Option<Number>,
    },
}

/// A stage and its parameters. `None` stands for the stage's own default.
#[derive(Debug, Clone, Copy, PartialEq, Eq, Structural)]
pub enum StagePlan {
    Normalize { dpi: Option<Number> },
    Rotate { angle_deg: Option<Number> },
    Deadzone { threshold_mm: Option<Number> },
    Sensitivity {
        multiplier: Option<Number>,
        y_ratio: Option<Number>,
        max_multiplier: Option<Number>,
        curve: CurvePlan,
    },
    Smooth { min_cutoff_hz: Option<Number>, beta: Option<Number>, d_cutoff_hz: Option<Number> },
    Stabilize { radius_mm: Option<Number>, catch_up: Option<Number> },
    Average { window_ms: Option<Number>, weighting: Weighting },
    Scroll {
        mode: ScrollMode,
        mouse_passthrough: Passthrough,
        wheel_gain: Option<Number>,
        speed: Option<Number>,
        drag_invert: Option<bool>,
        joystick_deadzone_mm: Option<Number>,
        joystick_gain: Option<Number>,
        latch: Option<bool>,
        freeze_cursor: Option<bool>,
        momentum: Option<bool>,
        momentum_decay_ms: Option<Number>,
        full_release_stops_momentum: Option<bool>,
    },
    Pressure {
        attack_ms: Option<Number>,
        release_ms: Option<Number>,
        envelope_enabled: Option<bool>,
        speed_enabled: Option<bool>,
        v_max_mm_s: Option<Number>,
        gamma: Option<Number>,
        velocity_smoothing_ms: Option<Number>,
        source: SpeedSource,
        stall_threshold_mm: Option<Number>,
        stall_timeout_ms: Option<Number>,
        stall_behaviour: StallBehaviour,
        min_pressure: Option<Number>,
    },
}

/// A stage in its place. A disabled stage stays in the pipeline and does nothing.
#[derive(Debug, Clone, Copy, PartialEq, Eq, Structural)]
pub struct PlannedStage {
    pub plan: StagePlan,
    pub enabled: bool,
}

/// A pipeline to build, and what was wrong with the preset.
#[derive(Debug)]
pub struct Assembly {
    pub stages: Vec<PlannedStage>,
    pub warnings: Vec<String>,
}

/// The kind that a plan was made from.
pub open spec fn plan_kind(plan: StagePlan) -> Seq<char> {
    match plan {
        StagePlan::Normalize { .. } => "normalize"@,
        StagePlan::Rotate { .. } => "rotate"@,
        StagePlan::Deadzone { .. } => "deadzone"@,
        StagePlan::Sensitivity { .. } => "sensitivity"@,
        StagePlan::Smooth { .. } => "smooth"@,
        StagePlan::Stabilize { .. } => "stabilize"@,
        StagePlan::Average { .. } => "average"@,
        StagePlan::Scroll { .. } => "scroll"@,
        StagePlan::Pressure { .. } => "pressure"@,
    }
}

impl StagePlan {
    /// The stage's name.
    pub fn name(&self) -> (s: &'static str)
        ensures
            s@ == plan_kind(*self),
    {
        match self {
            StagePlan::Normalize { .. } => "normalize",
            StagePlan::Rotate { .. } => "rotate",
            StagePlan::Deadzone { .. } => "deadzone",
            StagePlan::Sensitivity { .. } => "sensitivity",
            StagePlan::Smooth { .. } => "smooth",
            StagePlan::Stabilize { .. } => "stabilize",
            StagePlan::Average { .. } => "average",
            StagePlan::Scroll { .. } => "scroll",
            StagePlan::Pressure { .. } => "pressure",
        }
    }
}

/// What an absent choice of `scroll` counts as.
pub open spec fn chosen(b: Option<bool>, default: bool) -> bool {
    match b {
        Some(b) => b,
        None => default,
    }
}

/// The gesture that a planned `scroll` stage makes. It acts with nothing held only where it is
/// told to, and no parameter tells it to: the wheel is an input the user already had.
pub open spec fn gesture_of(plan: StagePlan) -> Option<Settings> {
    match plan {
        StagePlan::Scroll {
            mode,
            latch,
            freeze_cursor,
            momentum,
            full_release_stops_momentum,
            ..
        } => Some(
            Settings {
                mode,
                latch: chosen(latch, false),
                freeze_cursor: chosen(freeze_cursor, true),
                momentum: chosen(momentum, false),
                always_active: false,
                full_release_stops_momentum: chosen(full_release_stops_momentum, false),
            },
        ),
        _ => None,
    }
}

fn or_default(b: Option<bool>, default: bool) -> (r: bool)
    ensures
        r == chosen(b, default),
{
    match b {
        Some(b) => b,
        None => default,
    }
}

impl StagePlan {
    /// The gesture of a `scroll` stage, with the built-in choice wherever a preset makes none.
    pub fn gesture(&self) -> (r: Option<Settings>)
        ensures
            r == gesture_of(*self),
    {
        match self {
            StagePlan::Scroll {
                mode,
                latch,
                freeze_cursor,
                momentum,
                full_release_stops_momentum,
                ..
            } => Some(
                Settings {
                    mode: *mode,
                    latch: or_default(*latch, false),
                    freeze_cursor: or_default(*freeze_cursor, true),
                    momentum: or_default(*momentum, false),
                    always_active: false,
                    full_release_stops_momentum: or_default(*full_release_stops_momentum, false),
                },
            ),
            _ => None,
        }
    }
}

/// The name of a value's type.
pub open spec fn kind_name(v: Datum) -> Seq<char> {
    match v {
        Datum::String(_) => "string"@,
        Datum::Integer(_) => "integer"@,
        Datum::Float(_) => "float"@,
        Datum::Boolean(_) => "boolean"@,
        Datum::Datetime(_) => "datetime"@,
        Datum::Array(_) => "array"@,
        Datum::Table(_) => "table"@,
    }
}

fn type_str(v: &Datum) -> (s: &'static str)
    ensures
        s@ == kind_name(*v),
{
    match v {
        Datum::String(_) => "string",
        Datum::Integer(_) => "integer",
        Datum::Float(_) => "float",
        Datum::Boolean(_) => "boolean",
        Datum::Datetime(_) => "datetime",
        Datum::Array(_) => "array",
        Datum::Table(_) => "table",
    }
}

pub type Values = Map<Seq<char>, Datum>;

/// The number under `key`. Integers are accepted where a float is wanted.
pub open spec fn number_of(values: Values, key: Seq<char>) -> Option<Number> {
    if values.contains_key(key) {
        match values[key] {
            Datum::Integer(i) => Some(Number::Integer(i)),
            Datum::Float(f) => Some(Number::Float(f)),
            _ => None,
        }
    } else {
        None
    }
}

pub open spec fn bool_of(values: Values, key: Seq<char>) -> Option<bool> {
    if values.contains_key(key) {
        match values[key] {
            Datum::Boolean(b) => Some(b),
            _ => None,
        }
    } else {
        None
    }
}

/// The text under `key`, or `default`.
pub open spec fn text_of(values: Values, key: Seq<char>, default: Seq<char>) -> Seq<char> {
    if values.contains_key(key) {
        match values[key] {
            Datum::String(s) => s@,
            _ => default,
        }
    } else {
        default
    }
}

/// Whether a number is zero, of either sign.
pub open spec fn is_zero(n: Number) -> bool {
    match n {
        Number::Integer(i) => i == 0,
        Number::Float(bits) => bits == 0 || bits == 0x8000_0000_0000_0000,
    }
}

/// What a stage reads from its parameters.
pub enum Wants {
    Number,
    /// A number without which the stage does without; a value of another type is passed over.
    OptionalNumber,
    /// A number about which zero is worth a warning.
    Pressure,
    Boolean,
    /// Keys or buttons. The daemon makes codes of them, and says what is wrong with a name.
    Binding,
    /// One of a few names: what they name, the names, and the default.
    Choice(Seq<char>, Seq<Seq<char>>, Seq<char>),
}

pub struct Field {
    pub key: Seq<char>,
    pub wants: Wants,
}

pub open spec fn mistyped(key: Seq<char>, noun: Seq<char>, v: Datum) -> Seq<char> {
    "'"@ + key + "' should be "@ + noun + ", found "@ + kind_name(v) + "; using default"@
}

pub open spec fn zero_pressure_text() -> Seq<char> {
    "min_pressure is 0: many applications treat zero pressure as pen-up, which will break a stroke in two"@
}

pub open spec fn unknown_choice(what: Seq<char>, other: Seq<char>, default: Seq<char>) -> Seq<char> {
    "unknown "@ + what + " '"@ + other + "'; using "@ + default
}

/// What is wrong with one parameter.
pub open spec fn field_warnings(values: Values, f: Field) -> Seq<Seq<char>> {
    let present = values.contains_key(f.key);
    let v = values[f.key];
    match f.wants {
        Wants::Number => if present && number_of(values, f.key) is None {
            seq![mistyped(f.key, "a number"@, v)]
        } else {
            seq![]
        },
        Wants::OptionalNumber => seq![],
        Wants::Binding => seq![],
        Wants::Pressure => if present && number_of(values, f.key) is None {
            seq![mistyped(f.key, "a number"@, v)]
        } else if number_of(values, f.key) is Some && is_zero(number_of(values, f.key)->0) {
            seq![zero_pressure_text()]
        } else {
            seq![]
        },
        Wants::Boolean => if present && bool_of(values, f.key) is None {
            seq![mistyped(f.key, "a boolean"@, v)]
        } else {
            seq![]
        },
        Wants::Choice(what, options, default) => if present && !(v is String) {
            seq![mistyped(f.key, "a string"@, v)]
        } else if !options.contains(text_of(values, f.key, default)) {
            seq![unknown_choice(what, text_of(values, f.key, default), default)]
        } else {
            seq![]
        },
    }
}

pub open spec fn fields_warnings(values: Values, fields: Seq<Field>) -> Seq<Seq<char>>
    decreases fields.len(),
{
    if fields.len() == 0 {
        seq![]
    } else {
        fields_warnings(values, fields.drop_last()) + field_warnings(values, fields.last())
    }
}

pub open spec fn number_field(key: Seq<char>) -> Field {
    Field { key, wants: Wants::Number }
}

pub open spec fn bool_field(key: Seq<char>) -> Field {
    Field { key, wants: Wants::Boolean }
}

pub open spec fn weighting_field() -> Field {
    Field {
        key: "weighting"@,
        wants: Wants::Choice(
            "weighting"@,
            seq!["exponential"@, "linear"@, "gaussian"@],
            "exponential"@,
        ),
    }
}

pub open spec fn curve_field() -> Field {
    Field {
        key: "curve_type"@,
        wants: Wants::Choice("curve type"@, seq!["flat"@, "power"@], "flat"@),
    }
}

pub open spec fn source_field() -> Field {
    Field {
        key: "source"@,
        wants: Wants::Choice("pressure source"@, seq!["output"@, "cursor"@], "cursor"@),
    }
}

pub open spec fn stall_field() -> Field {
    Field {
        key: "stall_behaviour"@,
        wants: Wants::Choice("stall behaviour"@, seq!["decay"@, "hold"@], "hold"@),
    }
}

pub open spec fn scroll_mode_field() -> Field {
    Field {
        key: "mode"@,
        wants: Wants::Choice("scroll mode"@, seq!["drag"@, "wheel"@, "joystick"@], "drag"@),
    }
}

pub open spec fn passthrough_field() -> Field {
    Field {
        key: "mouse_passthrough"@,
        wants: Wants::Choice(
            "mouse passthrough"@,
            seq!["always"@, "unless_active"@, "reserved"@],
            "unless_active"@,
        ),
    }
}

/// What each kind of stage reads, in the order in which it reports about it.
pub open spec fn fields_of(kind: Seq<char>) -> Seq<Field> {
    if kind == "normalize"@ {
        seq![number_field("dpi"@)]
    } else if kind == "rotate"@ {
        seq![number_field("angle_deg"@)]
    } else if kind == "deadzone"@ {
        seq![number_field("threshold_mm"@)]
    } else if kind == "sensitivity"@ {
        seq![
            number_field("multiplier"@),
            number_field("y_ratio"@),
            Field { key: "max_multiplier"@, wants: Wants::OptionalNumber },
            curve_field(),
            number_field("curve_reference_mm_s"@),
            number_field("curve_exponent"@),
            number_field("curve_min"@),
            number_field("curve_max"@),
        ]
    } else if kind == "smooth"@ {
        seq![number_field("min_cutoff_hz"@), number_field("beta"@), number_field("d_cutoff_hz"@)]
    } else if kind == "stabilize"@ {
        seq![number_field("radius_mm"@), number_field("catch_up"@)]
    } else if kind == "average"@ {
        seq![number_field("window_ms"@), weighting_field()]
    } else if kind == "scroll"@ {
        seq![
            scroll_mode_field(),
            Field { key: "button"@, wants: Wants::Binding },
            passthrough_field(),
            number_field("wheel_gain"@),
            number_field("speed"@),
            bool_field("drag_invert"@),
            number_field("joystick_deadzone_mm"@),
            number_field("joystick_gain"@),
            bool_field("latch"@),
            bool_field("freeze_cursor"@),
            bool_field("momentum"@),
            number_field("momentum_decay_ms"@),
            bool_field("full_release_stops_momentum"@),
        ]
    } else if kind == "pressure"@ {
        seq![
            number_field("attack_ms"@),
            number_field("release_ms"@),
            bool_field("envelope_enabled"@),
            bool_field("speed_enabled"@),
            number_field("v_max_mm_s"@),
            number_field("gamma"@),
            number_field("velocity_smoothing_ms"@),
            source_field(),
            number_field("stall_threshold_mm"@),
            number_field("stall_timeout_ms"@),
            stall_field(),
            Field { key: "min_pressure"@, wants: Wants::Pressure },
        ]
    } else {
        seq![]
    }
}

pub open spec fn weighting_of(name: Seq<char>) -> Weighting {
    if name == "linear"@ {
        Weighting::Linear
    } else if name == "gaussian"@ {
        Weighting::Gaussian
    } else {
        Weighting::Exponential
    }
}

pub open spec fn scroll_mode_of(name: Seq<char>) -> ScrollMode {
    if name == "wheel"@ {
        ScrollMode::Wheel
    } else if name == "joystick"@ {
        ScrollMode::Joystick
    } else {
        ScrollMode::Drag
    }
}

pub open spec fn passthrough_of(name: Seq<char>) -> Passthrough {
    if name == "always"@ {
        Passthrough::Always
    } else if name == "reserved"@ {
        Passthrough::Reserved
    } else {
        Passthrough::UnlessActive
    }
}

/// The stage that a kind and its parameters describe.
pub open spec fn plan_of(kind: Seq<char>, values: Values) -> Option<StagePlan> {
    if kind == "normalize"@ {
        Some(StagePlan::Normalize { dpi: number_of(values, "dpi"@) })
    } else if kind == "rotate"@ {
        Some(StagePlan::Rotate { angle_deg: number_of(values, "angle_deg"@) })
    } else if kind == "deadzone"@ {
        Some(StagePlan::Deadzone { threshold_mm: number_of(values, "threshold_mm"@) })
    } else if kind == "sensitivity"@ {
        Some(
            StagePlan::Sensitivity {
                multiplier: number_of(values, "multiplier"@),
                y_ratio: number_of(values, "y_ratio"@),
                max_multiplier: number_of(values, "max_multiplier"@),
                curve: if text_of(values, "curve_type"@, "flat"@) == "power"@ {
                    CurvePlan::Power {
                        reference_mm_s: number_of(values, "curve_reference_mm_s"@),
                        exponent: number_of(values, "curve_exponent"@),
                        min: number_of(values, "curve_min"@),
                        max: number_of(values, "curve_max"@),
                    }
                } else {
                    CurvePlan::Flat
                },
            },
        )
    } else if kind == "smooth"@ {
        Some(
            StagePlan::Smooth {
                min_cutoff_hz: number_of(values, "min_cutoff_hz"@),
                beta: number_of(values, "beta"@),
                d_cutoff_hz: number_of(values, "d_cutoff_hz"@),
            },
        )
    } else if kind == "stabilize"@ {
        Some(
            StagePlan::Stabilize {
                radius_mm: number_of(values, "radius_mm"@),
                catch_up: number_of(values, "catch_up"@),
            },
        )
    } else if kind == "average"@ {
        Some(
            StagePlan::Average {
                window_ms: number_of(values, "window_ms"@),
                weighting: weighting_of(text_of(values, "weighting"@, "exponential"@)),
            },
        )
    } else if kind == "scroll"@ {
        Some(
            StagePlan::Scroll {
                mode: scroll_mode_of(text_of(values, "mode"@, "drag"@)),
                mouse_passthrough: passthrough_of(
                    text_of(values, "mouse_passthrough"@, "unless_active"@),
                ),
                wheel_gain: number_of(values, "wheel_gain"@),
                speed: number_of(values, "speed"@),
                drag_invert: bool_of(values, "drag_invert"@),
                joystick_deadzone_mm: number_of(values, "joystick_deadzone_mm"@),
                joystick_gain: number_of(values, "joystick_gain"@),
                latch: bool_of(values, "latch"@),
                freeze_cursor: bool_of(values, "freeze_cursor"@),
                momentum: bool_of(values, "momentum"@),
                momentum_decay_ms: number_of(values, "momentum_decay_ms"@),
                full_release_stops_momentum: bool_of(values, "full_release_stops_momentum"@),
            },
        )
    } else if kind == "pressure"@ {
        Some(
            StagePlan::Pressure {
                attack_ms: number_of(values, "attack_ms"@),
                release_ms: number_of(values, "release_ms"@),
                envelope_enabled: bool_of(values, "envelope_enabled"@),
                speed_enabled: bool_of(values, "speed_enabled"@),
                v_max_mm_s: number_of(values, "v_max_mm_s"@),
                gamma: number_of(values, "gamma"@),
                velocity_smoothing_ms: number_of(values, "velocity_smoothing_ms"@),
                source: if text_of(values, "source"@, "cursor"@) == "output"@ {
                    SpeedSource::Output
                } else {
                    SpeedSource::Cursor
                },
                stall_threshold_mm: number_of(values, "stall_threshold_mm"@),
                stall_timeout_ms: number_of(values, "stall_timeout_ms"@),
                stall_behaviour: if text_of(values, "stall_behaviour"@, "hold"@) == "decay"@ {
                    StallBehaviour::Decay
                } else {
                    StallBehaviour::Hold
                },
                min_pressure: number_of(values, "min_pressure"@),
            },
        )
    } else {
        None
    }
}

/// The warnings for parameters that a stage never asked for, in key order.
pub open spec fn unknown_parameters(keys: Seq<Seq<char>>, fields: Seq<Field>) -> Seq<Seq<char>>
    decreases keys.len(),
{
    if keys.len() == 0 {
        seq![]
    } else {
        let rest = unknown_parameters(keys.drop_last(), fields);
        if asked_for(fields, keys.last()) {
            rest
        } else {
            rest.push("unknown parameter '"@ + keys.last() + "'"@)
        }
    }
}

/// Whether a stage reads `key`.
pub open spec fn asked_for(fields: Seq<Field>, key: Seq<char>) -> bool {
    exists|i: int| 0 <= i < fields.len() && (#[trigger] fields[i]).key == key
}

/// Every message led in by where it belongs.
pub open spec fn in_context(context: Seq<char>, messages: Seq<Seq<char>>) -> Seq<Seq<char>> {
    messages.map_values(|m: Seq<char>| context + ": "@ + m)
}

pub open spec fn context_of(slug: Seq<char>, stage_key: Seq<char>) -> Seq<char> {
    "preset '"@ + slug + "' stage '"@ + stage_key + "'"@
}

/// The instance id when present, so that two stages of one kind can be told apart.
pub open spec fn stage_key_of(e: StageEntry) -> Seq<char> {
    match e.id {
        Some(id) => id@,
        None => e.kind@,
    }
}

/// The override for `key`, if there is a device to ask about.
pub open spec fn override_for(view: Option<&DeviceView>, key: Seq<char>) -> Option<Datum> {
    match view {
        Some(v) => match resolved(*v, key) {
            Some(r) => Some(r.0),
            None => None,
        },
        None => None,
    }
}

/// A stage's parameters with device overrides on top. An override may introduce a parameter
/// that the preset never mentions.
pub open spec fn merged(own: Values, view: Option<&DeviceView>, prefix: Seq<char>) -> Values {
    Map::new(
        |name: Seq<char>| own.contains_key(name) || override_for(view, prefix + name) is Some,
        |name: Seq<char>|
            match override_for(view, prefix + name) {
                Some(v) => v,
                None => own[name],
            },
    )
}

/// The parameters that count for an entry.
pub open spec fn values_of(e: StageEntry, slug: Seq<char>, view: Option<&DeviceView>) -> Values {
    merged(e.params.map(), view, slug + "."@ + stage_key_of(e) + "."@)
}

/// What is wrong with one entry.
pub open spec fn entry_warnings(
    e: StageEntry,
    slug: Seq<char>,
    view: Option<&DeviceView>,
) -> Seq<Seq<char>> {
    let values = values_of(e, slug, view);
    let fields = fields_of(e.kind@);
    let kind_warnings = if plan_of(e.kind@, values) is Some {
        seq![]
    } else if e.kind@ == "snap"@ {
        seq![
            "preset '"@ + slug + "': stage '"@ + e.kind@
                + "' is specified but not implemented yet; skipped"@,
        ]
    } else {
        seq!["preset '"@ + slug + "': unknown stage '"@ + e.kind@ + "'; skipped"@]
    };
    kind_warnings + in_context(
        context_of(slug, stage_key_of(e)),
        fields_warnings(values, fields) + unknown_parameters(in_key_order(values.dom()), fields),
    )
}

/// The stage that one entry describes.
pub open spec fn entry_stage(
    e: StageEntry,
    slug: Seq<char>,
    view: Option<&DeviceView>,
) -> Seq<PlannedStage> {
    match plan_of(e.kind@, values_of(e, slug, view)) {
        Some(plan) => seq![PlannedStage { plan, enabled: e.enabled }],
        None => seq![],
    }
}

/// Where a kind belongs: `normalize` first, `pressure` last, everything else between.
pub open spec fn rank(kind: Seq<char>) -> int {
    if kind == "normalize"@ {
        0
    } else if kind == "pressure"@ {
        2
    } else {
        1
    }
}

/// The positions of the entries of one rank, in file order.
pub open spec fn of_rank(stages: Seq<StageEntry>, r: int) -> Seq<int>
    decreases stages.len(),
{
    if stages.len() == 0 {
        seq![]
    } else if rank(stages.last().kind@) == r {
        of_rank(stages.drop_last(), r).push(stages.len() - 1)
    } else {
        of_rank(stages.drop_last(), r)
    }
}

/// The positions of the entries in pipeline order.
pub open spec fn pipeline_order(stages: Seq<StageEntry>) -> Seq<int> {
    of_rank(stages, 0) + of_rank(stages, 1) + of_rank(stages, 2)
}

/// Whether the pipeline order differs from the file's, by kind.
pub open spec fn reordered(stages: Seq<StageEntry>) -> bool {
    exists|i: int|
        #![trigger pipeline_order(stages)[i]]
        0 <= i < pipeline_order(stages).len() && stages[pipeline_order(stages)[i]].kind@
            != stages[i].kind@
}

pub open spec fn reorder_text(slug: Seq<char>) -> Seq<char> {
    "preset '"@ + slug
        + "': reordered stages to honour the pinned positions (normalize first, pressure last)"@
}

pub open spec fn stages_of(
    stages: Seq<StageEntry>,
    order: Seq<int>,
    slug: Seq<char>,
    view: Option<&DeviceView>,
) -> Seq<PlannedStage>
    decreases order.len(),
{
    if order.len() == 0 {
        seq![]
    } else {
        stages_of(stages, order.drop_last(), slug, view) + entry_stage(
            stages[order.last()],
            slug,
            view,
        )
    }
}

pub open spec fn warnings_of(
    stages: Seq<StageEntry>,
    order: Seq<int>,
    slug: Seq<char>,
    view: Option<&DeviceView>,
) -> Seq<Seq<char>>
    decreases order.len(),
{
    if order.len() == 0 {
        if reordered(stages) {
            seq![reorder_text(slug)]
        } else {
            seq![]
        }
    } else {
        warnings_of(stages, order.drop_last(), slug, view) + entry_warnings(
            stages[order.last()],
            slug,
            view,
        )
    }
}

/// The values behind a map of references.
pub open spec fn plain(m: Map<Seq<char>, &Datum>) -> Values {
    m.map_values(|v: &Datum| *v)
}

/// Reads parameters, tracking which were asked for so the leftovers can be reported.
struct Reader<'a> {
    values: &'a Dict<&'a Datum>,
    used: Vec<String>,
    warnings: Vec<String>,
    context: String,
    read: Ghost<Seq<Field>>,
}

spec fn reads(values: Values, used: Seq<String>, warnings: Seq<String>, context: Seq<char>, read: Seq<Field>) -> bool {
    &&& views(warnings) == in_context(context, fields_warnings(values, read))
    &&& used.len() == read.len()
    &&& forall|i: int| 0 <= i < used.len() ==> (#[trigger] used[i])@ == read[i].key
}

proof fn lemma_one_more(values: Values, read: Seq<Field>, f: Field)
    ensures
        fields_warnings(values, read.push(f)) == fields_warnings(values, read) + field_warnings(
            values,
            f,
        ),
{
    assert(read.push(f).drop_last() =~= read);
}

proof fn lemma_in_context(context: Seq<char>, a: Seq<Seq<char>>, b: Seq<Seq<char>>)
    ensures
        in_context(context, a + b) == in_context(context, a) + in_context(context, b),
{
    assert(in_context(context, a + b) =~= in_context(context, a) + in_context(context, b));
}

proof fn lemma_views_push(list: Seq<String>, s: String)
    ensures
        views(list.push(s)) == views(list).push(s@),
{
    assert(views(list.push(s)) =~= views(list).push(s@));
}

impl<'a> Reader<'a> {
    spec fn wf(&self) -> bool {
        reads(self.map(), self.used@, self.warnings@, self.context@, self.read@)
    }

    spec fn map(&self) -> Values {
        plain(self.values.map())
    }

    /// Whether nothing but what was read changed, and `f` was read last.
    spec fn has_read(&self, before: Self, f: Field) -> bool {
        &&& self.wf()
        &&& self.values == before.values
        &&& self.context == before.context
        &&& self.read@ == before.read@.push(f)
    }

    fn new(values: &'a Dict<&'a Datum>, slug: &str, stage: &str) -> (r: Self)
        ensures
            r.wf(),
            r.values == values,
            r.context@ == context_of(slug@, stage@),
            r.read@ == Seq::<Field>::empty(),
    {
        let r = Reader {
            values,
            used: Vec::new(),
            warnings: Vec::new(),
            context: owned("preset '").concat(slug).concat("' stage '").concat(stage).concat("'"),
            read: Ghost(Seq::empty()),
        };
        proof {
            assert(fields_warnings(r.map(), r.read@) =~= Seq::<Seq<char>>::empty());
            assert(views(r.warnings@) =~= in_context(
                r.context@,
                fields_warnings(r.map(), r.read@),
            ));
        }
        r
    }

    /// Close the reading of `f`, whose only complaint is `message`, if any.
    fn note(&mut self, key: &str, message: Option<String>, f: Ghost<Field>)
        requires
            old(self).wf(),
            f@.key == key@,
            field_warnings(old(self).map(), f@) == (match message {
                Some(m) => seq![m@],
                None => Seq::<Seq<char>>::empty(),
            }),
        ensures
            final(self).has_read(*old(self), f@),
    {
        let ghost before = *self;
        self.used.push(owned(key));
        proof {
            lemma_one_more(self.map(), self.read@, f@);
            lemma_in_context(
                self.context@,
                fields_warnings(self.map(), self.read@),
                field_warnings(self.map(), f@),
            );
        }
        match message {
            Some(m) => {
                let line = owned(self.context.as_str()).concat(": ").concat(m.as_str());
                self.warnings.push(line);
                proof {
                    lemma_views_push(before.warnings@, line);
                    assert(in_context(self.context@, seq![m@]) =~= seq![line@]);
                    assert(views(self.warnings@) =~= views(before.warnings@) + seq![line@]);
                }
            },
            None => {
                proof {
                    assert(in_context(self.context@, Seq::<Seq<char>>::empty()) =~= Seq::<
                        Seq<char>,
                    >::empty());
                    assert(views(self.warnings@) =~= views(before.warnings@) + Seq::<
                        Seq<char>,
                    >::empty());
                }
            },
        }
        self.read = Ghost(self.read@.push(f@));
    }

    fn number(&mut self, key: &str) -> (r: Option<Number>)
        requires
            old(self).wf(),
        ensures
            r == number_of(old(self).map(), key@),
            final(self).has_read(*old(self), number_field(key@)),
    {
        let (r, message) = match self.values.get(key) {
            None => (None, None),
            Some(v) => match *v {
                Datum::Integer(i) => (Some(Number::Integer(*i)), None),
                Datum::Float(f) => (Some(Number::Float(*f)), None),
                other => (None, Some(mistyped_message(key, "a number", other))),
            },
        };
        self.note(key, message, Ghost(number_field(key@)));
        r
    }

    fn optional_number(&mut self, key: &str) -> (r: Option<Number>)
        requires
            old(self).wf(),
        ensures
            r == number_of(old(self).map(), key@),
            final(self).has_read(*old(self), Field { key: key@, wants: Wants::OptionalNumber }),
    {
        let r = match self.values.get(key) {
            None => None,
            Some(v) => match *v {
                Datum::Integer(i) => Some(Number::Integer(*i)),
                Datum::Float(f) => Some(Number::Float(*f)),
                _ => None,
            },
        };
        self.note(key, None, Ghost(Field { key: key@, wants: Wants::OptionalNumber }));
        r
    }

    /// Note that a binding was asked for. What it binds is not the assembler's to say.
    fn binding(&mut self, key: &str)
        requires
            old(self).wf(),
        ensures
            final(self).has_read(*old(self), Field { key: key@, wants: Wants::Binding }),
    {
        self.note(key, None, Ghost(Field { key: key@, wants: Wants::Binding }));
    }

    /// Zero is permitted but warned about, never clamped: many applications read zero pressure
    /// as pen-up and split one stroke into two. Someone may want that.
    fn pressure(&mut self, key: &str) -> (r: Option<Number>)
        requires
            old(self).wf(),
        ensures
            r == number_of(old(self).map(), key@),
            final(self).has_read(*old(self), Field { key: key@, wants: Wants::Pressure }),
    {
        let (r, message) = match self.values.get(key) {
            None => (None, None),
            Some(v) => match *v {
                Datum::Integer(i) => (
                    Some(Number::Integer(*i)),
                    if *i == 0 {
                        Some(zero_pressure_message())
                    } else {
                        None
                    },
                ),
                Datum::Float(f) => (
                    Some(Number::Float(*f)),
                    if *f == 0 || *f == 0x8000_0000_0000_0000u64 {
                        Some(zero_pressure_message())
                    } else {
                        None
                    },
                ),
                other => (None, Some(mistyped_message(key, "a number", other))),
            },
        };
        self.note(key, message, Ghost(Field { key: key@, wants: Wants::Pressure }));
        r
    }

    fn boolean(&mut self, key: &str) -> (r: Option<bool>)
        requires
            old(self).wf(),
        ensures
            r == bool_of(old(self).map(), key@),
            final(self).has_read(*old(self), bool_field(key@)),
    {
        let (r, message) = match self.values.get(key) {
            None => (None, None),
            Some(v) => match *v {
                Datum::Boolean(b) => (Some(*b), None),
                other => (None, Some(mistyped_message(key, "a boolean", other))),
            },
        };
        self.note(key, message, Ghost(bool_field(key@)));
        r
    }

    /// The position of the text under `key` among `options`, which hold the default.
    fn choice(&mut self, key: &str, what: &str, options: &Vec<&str>, default: &str) -> (r: String)
        requires
            old(self).wf(),
            str_views(options@).contains(default@),
        ensures
            r@ == text_of(old(self).map(), key@, default@),
            final(self).has_read(
                *old(self),
                Field { key: key@, wants: Wants::Choice(what@, str_views(options@), default@) },
            ),
    {
        let ghost f = Field {
            key: key@,
            wants: Wants::Choice(what@, str_views(options@), default@),
        };
        let (r, message) = match self.values.get(key) {
            None => (owned(default), None),
            Some(v) => match *v {
                Datum::String(s) => {
                    let text = owned(s.as_str());
                    let message = if is_option(options, s.as_str()) {
                        None
                    } else {
                        Some(
                            owned("unknown ").concat(what).concat(" '").concat(s.as_str()).concat(
                                "'; using ",
                            ).concat(default),
                        )
                    };
                    (text, message)
                },
                other => (owned(default), Some(mistyped_message(key, "a string", other))),
            },
        };
        self.note(key, message, Ghost(f));
        r
    }
}

spec fn str_views(list: Seq<&str>) -> Seq<Seq<char>> {
    list.map_values(|s: &str| s@)
}

fn is_option(options: &Vec<&str>, text: &str) -> (b: bool)
    ensures
        b == str_views(options@).contains(text@),
{
    let mut i: usize = 0;
    while i < options.len()
        invariant
            i <= options.len(),
            forall|j: int| 0 <= j < i ==> str_views(options@)[j] != text@,
        decreases options.len() - i,
    {
        if same_text(options[i], text) {
            assert(str_views(options@)[i as int] == text@);
            return true;
        }
        i += 1;
    }
    false
}

fn mistyped_message(key: &str, noun: &str, v: &Datum) -> (s: String)
    ensures
        s@ == mistyped(key@, noun@, *v),
{
    owned("'").concat(key).concat("' should be ").concat(noun).concat(", found ").concat(
        type_str(v),
    ).concat("; using default")
}

fn zero_pressure_message() -> (s: String)
    ensures
        s@ == zero_pressure_text(),
{
    owned(
        "min_pressure is 0: many applications treat zero pressure as pen-up, which will break a stroke in two",
    )
}

impl<'a> Reader<'a> {
    fn is_used(&self, key: &str) -> (b: bool)
        requires
            self.wf(),
        ensures
            b == asked_for(self.read@, key@),
    {
        let mut i: usize = 0;
        while i < self.used.len()
            invariant
                i <= self.used.len(),
                self.wf(),
                forall|j: int| 0 <= j < i ==> (#[trigger] self.read@[j]).key != key@,
            decreases self.used.len() - i,
        {
            if same_text(self.used[i].as_str(), key) {
                assert(self.read@[i as int].key == key@);
                return true;
            }
            i += 1;
        }
        false
    }

    /// What was wrong, and every parameter the stage never asked for: almost always a typo.
    fn finish(self) -> (r: Vec<String>)
        requires
            self.wf(),
        ensures
            views(r@) == in_context(
                self.context@,
                fields_warnings(self.map(), self.read@) + unknown_parameters(
                    in_key_order(self.map().dom()),
                    self.read@,
                ),
            ),
    {
        let ghost base = fields_warnings(self.map(), self.read@);
        self.values.in_order();
        let ghost keys = keys_of(self.values.listed());
        let mut extra: Vec<String> = Vec::new();
        let mut i: usize = 0;
        proof {
            assert(self.map().dom() =~= self.values.map().dom());
            assert(keys.take(0) =~= Seq::<Seq<char>>::empty());
            assert(in_context(self.context@, unknown_parameters(keys.take(0), self.read@))
                =~= Seq::<Seq<char>>::empty());
            assert(views(extra@) =~= Seq::<Seq<char>>::empty());
        }
        while i < self.values.len()
            invariant
                i <= self.values.listed().len(),
                self.wf(),
                keys == keys_of(self.values.listed()),
                views(extra@) == in_context(
                    self.context@,
                    unknown_parameters(keys.take(i as int), self.read@),
                ),
            decreases self.values.listed().len() - i,
        {
            let key = self.values.key(i);
            let ghost seen = keys.take(i as int);
            let ghost now = keys.take(i + 1);
            proof {
                assert(now.drop_last() =~= seen);
                assert(now.last() == key@);
            }
            if !self.is_used(key) {
                let line = owned(self.context.as_str()).concat(": ").concat(
                    owned("unknown parameter '").concat(key).concat("'").as_str(),
                );
                let ghost before = extra@;
                extra.push(line);
                proof {
                    lemma_views_push(before, line);
                    let message = "unknown parameter '"@ + key@ + "'"@;
                    assert(unknown_parameters(now, self.read@) == unknown_parameters(
                        seen,
                        self.read@,
                    ).push(message));
                    assert(in_context(
                        self.context@,
                        unknown_parameters(seen, self.read@).push(message),
                    ) =~= in_context(self.context@, unknown_parameters(seen, self.read@)).push(
                        line@,
                    ));
                }
            }
            i += 1;
        }
        proof {
            assert(keys.take(i as int) =~= keys);
            lemma_in_context(self.context@, base, unknown_parameters(keys, self.read@));
        }
        let mut r = self.warnings;
        let ghost first = r@;
        let ghost second = extra@;
        r.append(&mut extra);
        proof {
            assert(views(first + second) =~= views(first) + views(second));
        }
        r
    }
}

/// A stage's parameters with device overrides applied on top.
fn preset_params<'a>(
    entry: &'a StageEntry,
    slug: &str,
    stage_key: &str,
    view: Option<&DeviceView<'a>>,
) -> (r: Dict<&'a Datum>)
    ensures
        plain(r.map()) == merged(entry.params.map(), view, slug@ + "."@ + stage_key@ + "."@),
{
    let mut params: Dict<&'a Datum> = Dict::new();
    copy_params(&entry.params, &mut params);
    let prefix = owned(slug).concat(".").concat(stage_key).concat(".");
    match view {
        Some(v) => {
            overlay(&mut params, v, prefix.as_str());
        },
        None => {
            assert(plain(params.map()) =~= merged(entry.params.map(), view, prefix@));
        },
    }
    assert(plain(params.map()) =~= merged(entry.params.map(), view, prefix@));
    params
}

fn copy_params<'a>(from: &'a Dict<Datum>, to: &mut Dict<&'a Datum>)
    requires
        old(to).map() == Map::<Seq<char>, &Datum>::empty(),
    ensures
        plain(final(to).map()) == from.map(),
{
    from.in_order();
    let mut i: usize = 0;
    while i < from.len()
        invariant
            i <= from.listed().len(),
            forall|key: Seq<char>, j: int| #[trigger]
                key_at(from.listed(), key, j) ==> from.map().contains_key(key) && from.map()[key]
                    == from.listed()[j].1,
            forall|key: Seq<char>| #[trigger]
                to.map().contains_key(key) <==> exists|j: int|
                    j < i && key_at(from.listed(), key, j),
            forall|key: Seq<char>| #[trigger]
                to.map().contains_key(key) ==> *to.map()[key] == from.map()[key],
        decreases from.listed().len() - i,
    {
        let key = owned(from.key(i));
        let value = from.value(i);
        let ghost before = to.map();
        let ghost k = key@;
        assert(key_at(from.listed(), k, i as int));
        to.insert(key, value);
        proof {
            assert forall|key: Seq<char>| #[trigger] to.map().contains_key(key) <==> exists|j: int|
                j < i + 1 && key_at(from.listed(), key, j) by {
                assert(before.contains_key(key) <==> exists|j: int|
                    j < i && key_at(from.listed(), key, j));
                if exists|j: int| j < i + 1 && key_at(from.listed(), key, j) {
                    let j = choose|j: int| j < i + 1 && key_at(from.listed(), key, j);
                    if j == i {
                        assert(key == k);
                    }
                }
            }
        }
        i += 1;
    }
    proof {
        assert forall|key: Seq<char>| #[trigger] from.map().contains_key(key) implies plain(
            to.map(),
        ).contains_key(key) by {
            let j = choose|j: int| key_at(from.listed(), key, j);
            assert(j < i && key_at(from.listed(), key, j));
            assert(to.map().contains_key(key));
        }
        assert forall|key: Seq<char>| #[trigger] plain(to.map()).contains_key(key) implies from.map().contains_key(key) && plain(to.map())[key] == from.map()[key] by {
            assert(to.map().contains_key(key));
            let j = choose|j: int| j < i && key_at(from.listed(), key, j);
            assert(key_at(from.listed(), key, j));
        }
        assert(plain(to.map()) =~= from.map());
    }
}

/// Lay the overrides whose key begins with `prefix` over `params`, under the rest of their key.
fn overlay<'a>(params: &mut Dict<&'a Datum>, view: &DeviceView<'a>, prefix: &str)
    ensures
        plain(final(params).map()) == merged(plain(old(params).map()), Some(view), prefix@),
{
    let all = view.effective_overrides();
    all.in_order();
    let ghost own = plain(params.map());
    let mut i: usize = 0;
    while i < all.len()
        invariant
            i <= all.listed().len(),
            own == plain(old(params).map()),
            forall|key: Seq<char>|
                {
                    &&& #[trigger] all.map().contains_key(key) <==> resolved(*view, key) is Some
                    &&& all.map().contains_key(key) ==> resolved(*view, key) == Some(
                        (*all.map()[key].value, all.map()[key].origin@),
                    )
                },
            forall|key: Seq<char>, j: int| #[trigger]
                key_at(all.listed(), key, j) ==> all.map().contains_key(key) && all.map()[key]
                    == all.listed()[j].1,
            forall|name: Seq<char>| #[trigger]
                params.map().contains_key(name) <==> (own.contains_key(name) || exists|j: int|
                    j < i && #[trigger] key_at(all.listed(), prefix@ + name, j)),
            forall|name: Seq<char>| #[trigger]
                params.map().contains_key(name) ==> *params.map()[name] == (if exists|j: int|
                    j < i && #[trigger] key_at(all.listed(), prefix@ + name, j) {
                    *all.map()[prefix@ + name].value
                } else {
                    own[name]
                }),
        decreases all.listed().len() - i,
    {
        let key = chars_of(all.key(i));
        let value = all.value(i).value;
        let ghost before = params.map();
        assert(key_at(all.listed(), key@, i as int));
        if begins_with(&key, prefix) {
            let rest = slice_of(&key, prefix.unicode_len(), key.len());
            let ghost n = rest@;
            proof {
                assert(prefix@ + n =~= key@);
            }
            params.insert(string_of(&rest), value);
            proof {
                assert forall|name: Seq<char>| #[trigger] params.map().contains_key(name) <==> (
                own.contains_key(name) || exists|j: int|
                    j < i + 1 && #[trigger] key_at(all.listed(), prefix@ + name, j)) by {
                    assert(before.contains_key(name) <==> (own.contains_key(name) || exists|j: int|
                        j < i && #[trigger] key_at(all.listed(), prefix@ + name, j)));
                    if key_at(all.listed(), prefix@ + name, i as int) {
                        lemma_same_rest(prefix@, name, n);
                    }
                    if name == n {
                        assert(key_at(all.listed(), prefix@ + name, i as int));
                    }
                }
                assert forall|name: Seq<char>| #[trigger]
                    params.map().contains_key(name) implies *params.map()[name] == (if exists|
                    j: int,
                | j < i + 1 && #[trigger] key_at(all.listed(), prefix@ + name, j) {
                    *all.map()[prefix@ + name].value
                } else {
                    own[name]
                }) by {
                    if name == n {
                        assert(key_at(all.listed(), prefix@ + name, i as int));
                    } else {
                        assert(before.contains_key(name));
                        if key_at(all.listed(), prefix@ + name, i as int) {
                            lemma_same_rest(prefix@, name, n);
                        }
                    }
                }
            }
        } else {
            proof {
                assert forall|name: Seq<char>| !#[trigger] key_at(
                    all.listed(),
                    prefix@ + name,
                    i as int,
                ) by {
                    if key_at(all.listed(), prefix@ + name, i as int) {
                        assert(key@ == prefix@ + name);
                        assert(prefix@ =~= key@.take(prefix@.len() as int));
                        assert(prefix@.is_prefix_of(key@));
                    }
                }
            }
        }
        i += 1;
    }
    proof {
        let want = merged(own, Some(view), prefix@);
        assert forall|name: Seq<char>| resolved(*view, prefix@ + name) is Some <==> (exists|j: int|
            j < i && #[trigger] key_at(all.listed(), prefix@ + name, j)) by {
            let key = prefix@ + name;
            if resolved(*view, key) is Some {
                assert(all.map().contains_key(key));
                let j = choose|j: int| key_at(all.listed(), key, j);
                assert(j < i && key_at(all.listed(), key, j));
            }
            if exists|j: int| j < i && #[trigger] key_at(all.listed(), prefix@ + name, j) {
                assert(all.map().contains_key(key));
            }
        }
        assert forall|name: Seq<char>| #[trigger] want.contains_key(name) implies plain(
            params.map(),
        ).contains_key(name) by {
            assert(params.map().contains_key(name));
        }
        assert forall|name: Seq<char>| #[trigger] plain(params.map()).contains_key(
            name,
        ) implies want.contains_key(name) && plain(params.map())[name] == want[name] by {
            assert(params.map().contains_key(name));
        }
        assert(plain(params.map()) =~= want);
    }
}

proof fn lemma_same_rest(prefix: Seq<char>, a: Seq<char>, b: Seq<char>)
    requires
        prefix + a == prefix + b,
    ensures
        a == b,
{
    assert(a =~= (prefix + a).skip(prefix.len() as int));
    assert(b =~= (prefix + b).skip(prefix.len() as int));
}

impl<'a> Reader<'a> {
    /// Whether exactly `fields` have been read since `before`, which had read nothing.
    spec fn has_read_all(&self, before: Self, fields: Seq<Field>) -> bool {
        &&& self.wf()
        &&& self.values == before.values
        &&& self.context == before.context
        &&& self.read@ == fields
    }
}

fn build_sensitivity(p: &mut Reader) -> (r: StagePlan)
    requires
        old(p).wf(),
        old(p).read@ == Seq::<Field>::empty(),
    ensures
        Some(r) == plan_of("sensitivity"@, old(p).map()),
        final(p).has_read_all(*old(p), fields_of("sensitivity"@)),
{
    proof {
        reveal_kinds();
    }
    let multiplier = p.number("multiplier");
    let y_ratio = p.number("y_ratio");
    let max_multiplier = p.optional_number("max_multiplier");
    // The curve is nested under this stage rather than being its own: a flat multiplier is the
    // common case and gets the plain name. Its parameters are read whichever curve is chosen, so
    // that a file may keep the tuning of a curve it has switched off.
    let options: Vec<&str> = vec!["flat", "power"];
    proof {
        assert(str_views(options@) =~= seq!["flat"@, "power"@]);
        assert(str_views(options@)[0] == "flat"@);
    }
    let curve_type = p.choice("curve_type", "curve type", &options, "flat");
    let reference_mm_s = p.number("curve_reference_mm_s");
    let exponent = p.number("curve_exponent");
    let min = p.number("curve_min");
    let max = p.number("curve_max");
    let curve = if same_text(curve_type.as_str(), "power") {
        CurvePlan::Power { reference_mm_s, exponent, min, max }
    } else {
        CurvePlan::Flat
    };
    assert(p.read@ =~= fields_of("sensitivity"@));
    StagePlan::Sensitivity { multiplier, y_ratio, max_multiplier, curve }
}

fn build_average(p: &mut Reader) -> (r: StagePlan)
    requires
        old(p).wf(),
        old(p).read@ == Seq::<Field>::empty(),
    ensures
        Some(r) == plan_of("average"@, old(p).map()),
        final(p).has_read_all(*old(p), fields_of("average"@)),
{
    proof {
        reveal_kinds();
    }
    let window_ms = p.number("window_ms");
    let options: Vec<&str> = vec!["exponential", "linear", "gaussian"];
    proof {
        assert(str_views(options@) =~= seq!["exponential"@, "linear"@, "gaussian"@]);
        assert(str_views(options@)[0] == "exponential"@);
    }
    let name = p.choice("weighting", "weighting", &options, "exponential");
    let weighting = if same_text(name.as_str(), "linear") {
        Weighting::Linear
    } else if same_text(name.as_str(), "gaussian") {
        Weighting::Gaussian
    } else {
        Weighting::Exponential
    };
    assert(p.read@ =~= fields_of("average"@));
    StagePlan::Average { window_ms, weighting }
}

fn build_scroll(p: &mut Reader) -> (r: StagePlan)
    requires
        old(p).wf(),
        old(p).read@ == Seq::<Field>::empty(),
    ensures
        Some(r) == plan_of("scroll"@, old(p).map()),
        final(p).has_read_all(*old(p), fields_of("scroll"@)),
{
    proof {
        reveal_kinds();
    }
    let modes: Vec<&str> = vec!["drag", "wheel", "joystick"];
    proof {
        assert(str_views(modes@) =~= seq!["drag"@, "wheel"@, "joystick"@]);
        assert(str_views(modes@)[0] == "drag"@);
    }
    let mode_name = p.choice("mode", "scroll mode", &modes, "drag");
    let mode = if same_text(mode_name.as_str(), "wheel") {
        ScrollMode::Wheel
    } else if same_text(mode_name.as_str(), "joystick") {
        ScrollMode::Joystick
    } else {
        ScrollMode::Drag
    };
    p.binding("button");
    let rules: Vec<&str> = vec!["always", "unless_active", "reserved"];
    proof {
        assert(str_views(rules@) =~= seq!["always"@, "unless_active"@, "reserved"@]);
        assert(str_views(rules@)[1] == "unless_active"@);
    }
    let rule = p.choice("mouse_passthrough", "mouse passthrough", &rules, "unless_active");
    let mouse_passthrough = if same_text(rule.as_str(), "always") {
        Passthrough::Always
    } else if same_text(rule.as_str(), "reserved") {
        Passthrough::Reserved
    } else {
        Passthrough::UnlessActive
    };
    let wheel_gain = p.number("wheel_gain");
    let speed = p.number("speed");
    let drag_invert = p.boolean("drag_invert");
    let joystick_deadzone_mm = p.number("joystick_deadzone_mm");
    let joystick_gain = p.number("joystick_gain");
    let latch = p.boolean("latch");
    let freeze_cursor = p.boolean("freeze_cursor");
    let momentum = p.boolean("momentum");
    let momentum_decay_ms = p.number("momentum_decay_ms");
    let full_release_stops_momentum = p.boolean("full_release_stops_momentum");
    assert(p.read@ =~= fields_of("scroll"@));
    StagePlan::Scroll {
        mode,
        mouse_passthrough,
        wheel_gain,
        speed,
        drag_invert,
        joystick_deadzone_mm,
        joystick_gain,
        latch,
        freeze_cursor,
        momentum,
        momentum_decay_ms,
        full_release_stops_momentum,
    }
}

fn build_pressure(p: &mut Reader) -> (r: StagePlan)
    requires
        old(p).wf(),
        old(p).read@ == Seq::<Field>::empty(),
    ensures
        Some(r) == plan_of("pressure"@, old(p).map()),
        final(p).has_read_all(*old(p), fields_of("pressure"@)),
{
    proof {
        reveal_kinds();
    }
    let attack_ms = p.number("attack_ms");
    let release_ms = p.number("release_ms");
    let envelope_enabled = p.boolean("envelope_enabled");
    let speed_enabled = p.boolean("speed_enabled");
    let v_max_mm_s = p.number("v_max_mm_s");
    let gamma = p.number("gamma");
    let velocity_smoothing_ms = p.number("velocity_smoothing_ms");
    let sources: Vec<&str> = vec!["output", "cursor"];
    proof {
        assert(str_views(sources@) =~= seq!["output"@, "cursor"@]);
        assert(str_views(sources@)[1] == "cursor"@);
    }
    let source_name = p.choice("source", "pressure source", &sources, "cursor");
    let source = if same_text(source_name.as_str(), "output") {
        SpeedSource::Output
    } else {
        SpeedSource::Cursor
    };
    let stall_threshold_mm = p.number("stall_threshold_mm");
    let stall_timeout_ms = p.number("stall_timeout_ms");
    let stalls: Vec<&str> = vec!["decay", "hold"];
    proof {
        assert(str_views(stalls@) =~= seq!["decay"@, "hold"@]);
        assert(str_views(stalls@)[1] == "hold"@);
    }
    let stall_name = p.choice("stall_behaviour", "stall behaviour", &stalls, "hold");
    let stall_behaviour = if same_text(stall_name.as_str(), "decay") {
        StallBehaviour::Decay
    } else {
        StallBehaviour::Hold
    };
    let min_pressure = p.pressure("min_pressure");
    assert(p.read@ =~= fields_of("pressure"@));
    StagePlan::Pressure {
        attack_ms,
        release_ms,
        envelope_enabled,
        speed_enabled,
        v_max_mm_s,
        gamma,
        velocity_smoothing_ms,
        source,
        stall_threshold_mm,
        stall_timeout_ms,
        stall_behaviour,
        min_pressure,
    }
}

/// The names of the kinds are distinct.
proof fn reveal_kinds()
    ensures
        "rotate"@ != "normalize"@,
        "deadzone"@ != "normalize"@,
        "deadzone"@ != "rotate"@,
        "smooth"@ != "normalize"@,
        "smooth"@ != "rotate"@,
        "smooth"@ != "deadzone"@,
        "smooth"@ != "sensitivity"@,
        "stabilize"@ != "normalize"@,
        "stabilize"@ != "rotate"@,
        "stabilize"@ != "deadzone"@,
        "stabilize"@ != "sensitivity"@,
        "stabilize"@ != "smooth"@,
        "sensitivity"@ != "normalize"@,
        "sensitivity"@ != "rotate"@,
        "sensitivity"@ != "deadzone"@,
        "average"@ != "normalize"@,
        "average"@ != "rotate"@,
        "average"@ != "deadzone"@,
        "average"@ != "sensitivity"@,
        "average"@ != "smooth"@,
        "average"@ != "stabilize"@,
        "pressure"@ != "normalize"@,
        "pressure"@ != "rotate"@,
        "pressure"@ != "deadzone"@,
        "pressure"@ != "sensitivity"@,
        "pressure"@ != "smooth"@,
        "pressure"@ != "stabilize"@,
        "pressure"@ != "average"@,
        "scroll"@ != "normalize"@,
        "scroll"@ != "rotate"@,
        "scroll"@ != "deadzone"@,
        "scroll"@ != "sensitivity"@,
        "scroll"@ != "smooth"@,
        "scroll"@ != "stabilize"@,
        "scroll"@ != "average"@,
        "scroll"@ != "pressure"@,
{
    reveal_strlit("normalize");
    reveal_strlit("rotate");
    reveal_strlit("deadzone");
    reveal_strlit("sensitivity");
    reveal_strlit("smooth");
    reveal_strlit("stabilize");
    reveal_strlit("average");
    reveal_strlit("pressure");
    reveal_strlit("scroll");
    assert("scroll"@.len() == 6 && "scroll"@[1] == 'c');
    assert("rotate"@[1] == 'o' && "smooth"@[1] == 'm');
    assert("stabilize"@[0] == 's' && "normalize"@[0] == 'n');
    assert("sensitivity"@.len() == 11 && "normalize"@.len() == 9 && "stabilize"@.len() == 9);
    assert("rotate"@.len() == 6 && "smooth"@.len() == 6 && "average"@.len() == 7);
    assert("pressure"@.len() == 8 && "deadzone"@.len() == 8);
    assert("pressure"@[0] == 'p' && "deadzone"@[0] == 'd');
}

/// The stage of one kind, read from its parameters.
fn build(kind: &str, p: &mut Reader) -> (r: Option<StagePlan>)
    requires
        old(p).wf(),
        old(p).read@ == Seq::<Field>::empty(),
    ensures
        r == plan_of(kind@, old(p).map()),
        final(p).has_read_all(*old(p), fields_of(kind@)),
{
    if same_text(kind, "normalize") {
        let dpi = p.number("dpi");
        assert(p.read@ =~= fields_of(kind@));
        Some(StagePlan::Normalize { dpi })
    } else if same_text(kind, "rotate") {
        let angle_deg = p.number("angle_deg");
        assert(p.read@ =~= fields_of(kind@));
        Some(StagePlan::Rotate { angle_deg })
    } else if same_text(kind, "deadzone") {
        let threshold_mm = p.number("threshold_mm");
        assert(p.read@ =~= fields_of(kind@));
        Some(StagePlan::Deadzone { threshold_mm })
    } else if same_text(kind, "sensitivity") {
        Some(build_sensitivity(p))
    } else if same_text(kind, "smooth") {
        let min_cutoff_hz = p.number("min_cutoff_hz");
        let beta = p.number("beta");
        let d_cutoff_hz = p.number("d_cutoff_hz");
        assert(p.read@ =~= fields_of(kind@));
        Some(StagePlan::Smooth { min_cutoff_hz, beta, d_cutoff_hz })
    } else if same_text(kind, "stabilize") {
        let radius_mm = p.number("radius_mm");
        let catch_up = p.number("catch_up");
        assert(p.read@ =~= fields_of(kind@));
        Some(StagePlan::Stabilize { radius_mm, catch_up })
    } else if same_text(kind, "average") {
        Some(build_average(p))
    } else if same_text(kind, "scroll") {
        Some(build_scroll(p))
    } else if same_text(kind, "pressure") {
        Some(build_pressure(p))
    } else {
        assert(p.read@ =~= fields_of(kind@));
        None
    }
}

/// Add one entry's stage and warnings.
fn add_entry<'a>(
    entry: &'a StageEntry,
    slug: &str,
    view: Option<&DeviceView<'a>>,
    out: &mut Assembly,
)
    ensures
        final(out).stages@ == old(out).stages@ + entry_stage(*entry, slug@, view),
        views(final(out).warnings@) == views(old(out).warnings@) + entry_warnings(
            *entry,
            slug@,
            view,
        ),
{
    let ghost base = views(out.warnings@);
    // Overrides use the instance id when present, so two instances of one stage kind can be
    // targeted separately.
    let stage_key: &str = match &entry.id {
        Some(id) => id.as_str(),
        None => entry.kind.as_str(),
    };
    let values = preset_params(entry, slug, stage_key, view);
    let mut p = Reader::new(&values, slug, stage_key);
    let ghost map = p.map();
    assert(map == values_of(*entry, slug@, view));
    let built = build(entry.kind.as_str(), &mut p);
    let ghost own: Seq<Seq<char>> = seq![];
    match built {
        Some(plan) => {
            out.stages.push(PlannedStage { plan, enabled: entry.enabled });
            assert(out.stages@ =~= old(out).stages@ + entry_stage(*entry, slug@, view));
            assert(base + Seq::<Seq<char>>::empty() =~= base);
        },
        None => {
            let line = if same_text(entry.kind.as_str(), "snap") {
                owned("preset '").concat(slug).concat("': stage '").concat(
                    entry.kind.as_str(),
                ).concat("' is specified but not implemented yet; skipped")
            } else {
                owned("preset '").concat(slug).concat("': unknown stage '").concat(
                    entry.kind.as_str(),
                ).concat("'; skipped")
            };
            let ghost before = out.warnings@;
            out.warnings.push(line);
            proof {
                own = seq![line@];
                lemma_views_push(before, line);
                assert(base.push(line@) =~= base + own);
                assert(out.stages@ =~= old(out).stages@ + entry_stage(*entry, slug@, view));
            }
        },
    }
    let mut more = p.finish();
    let ghost first = out.warnings@;
    let ghost second = more@;
    out.warnings.append(&mut more);
    proof {
        assert(views(first + second) =~= views(first) + views(second));
        assert(entry_warnings(*entry, slug@, view) =~= own + views(second));
        assert(views(out.warnings@) =~= base + entry_warnings(*entry, slug@, view));
    }
}

/// The positions of the entries of one rank.
fn entries_of_rank(stages: &Vec<StageEntry>, r: u8, order: &mut Vec<usize>)
    ensures
        positions(final(order)@) == positions(old(order)@) + of_rank(stages@, r as int),
        final(order)@.len() >= old(order)@.len(),
{
    let ghost base = positions(order@);
    let mut i: usize = 0;
    assert(stages@.take(0) =~= Seq::<StageEntry>::empty());
    assert(positions(order@) =~= base + of_rank(stages@.take(0), r as int));
    while i < stages.len()
        invariant
            i <= stages.len(),
            base == positions(old(order)@),
            positions(order@) == base + of_rank(stages@.take(i as int), r as int),
            order@.len() >= old(order)@.len(),
        decreases stages.len() - i,
    {
        let ghost now = stages@.take(i + 1);
        assert(now.drop_last() =~= stages@.take(i as int));
        let kind = stages[i].kind.as_str();
        let k: u8 = if same_text(kind, "normalize") {
            0
        } else if same_text(kind, "pressure") {
            2
        } else {
            1
        };
        if k == r {
            let ghost before = order@;
            order.push(i);
            assert(positions(order@) =~= positions(before).push(i as int));
            assert(positions(order@) =~= base + of_rank(now, r as int));
        }
        i += 1;
    }
    assert(stages@.take(i as int) =~= stages@);
}

/// Positions as integers.
spec fn positions(list: Seq<usize>) -> Seq<int> {
    list.map_values(|i: usize| i as int)
}

/// Build a plan from a preset, applying any device overrides.
///
/// `slug` is the preset's own slug, needed because override keys are
/// `<preset>.<stage>.<param>`. The two pins are enforced rather than trusted to file order: a
/// `normalize` that is not first leaves every downstream unit wrong, and a `pressure` that is
/// not last reads unsettled velocity.
pub fn assemble<'a>(preset: &'a Preset, slug: &str, view: Option<&DeviceView<'a>>) -> (r: Assembly)
    ensures
        r.stages@ == stages_of(preset.stages@, pipeline_order(preset.stages@), slug@, view),
        views(r.warnings@) == warnings_of(
            preset.stages@,
            pipeline_order(preset.stages@),
            slug@,
            view,
        ),
{
    let stages = &preset.stages;
    let mut order: Vec<usize> = Vec::new();
    entries_of_rank(stages, 0, &mut order);
    entries_of_rank(stages, 1, &mut order);
    entries_of_rank(stages, 2, &mut order);
    let ghost wanted = pipeline_order(stages@);
    proof {
        assert(positions(Seq::<usize>::empty()) =~= Seq::<int>::empty());
        assert(positions(order@) =~= wanted);
        law_the_pipeline_order_is_a_permutation(stages@);
    }
    assert(order@.len() == positions(order@).len());
    assert(forall|k: int| 0 <= k < order@.len() ==> #[trigger] order@[k] == positions(order@)[k]);
    let mut moved = false;
    let mut i: usize = 0;
    while i < order.len()
        invariant
            i <= order.len(),
            positions(order@) == wanted,
            wanted == pipeline_order(stages@),
            order@.len() == stages@.len(),
            wanted.len() == order@.len(),
            forall|k: int| 0 <= k < order@.len() ==> #[trigger] order@[k] == wanted[k],
            forall|k: int| 0 <= k < wanted.len() ==> 0 <= #[trigger] wanted[k] < stages@.len(),
            moved == exists|k: int|
                #![trigger wanted[k]]
                0 <= k < i && stages@[wanted[k]].kind@ != stages@[k].kind@,
        decreases order.len() - i,
    {
        assert(wanted[i as int] == order@[i as int]);
        if !same_text(stages[order[i]].kind.as_str(), stages[i].kind.as_str()) {
            moved = true;
        }
        i += 1;
    }
    let mut out = Assembly { stages: Vec::new(), warnings: Vec::new() };
    assert(views(out.warnings@) =~= Seq::<Seq<char>>::empty());
    if moved {
        let line = owned("preset '").concat(slug).concat(
            "': reordered stages to honour the pinned positions (normalize first, pressure last)",
        );
        out.warnings.push(line);
        assert(views(out.warnings@) =~= seq![reorder_text(slug@)]);
    }
    let mut n: usize = 0;
    proof {
        assert(wanted.take(0) =~= Seq::<int>::empty());
        assert(moved == reordered(stages@));
        assert(out.stages@ =~= stages_of(stages@, wanted.take(0), slug@, view));
        assert(views(out.warnings@) =~= warnings_of(stages@, wanted.take(0), slug@, view));
    }
    while n < order.len()
        invariant
            n <= order.len(),
            *stages == preset.stages,
            wanted.len() == order@.len(),
            forall|k: int| 0 <= k < order@.len() ==> #[trigger] order@[k] == wanted[k],
            forall|k: int| 0 <= k < wanted.len() ==> 0 <= #[trigger] wanted[k] < stages@.len(),
            out.stages@ == stages_of(stages@, wanted.take(n as int), slug@, view),
            views(out.warnings@) == warnings_of(stages@, wanted.take(n as int), slug@, view),
        decreases order.len() - n,
    {
        let ghost now = wanted.take(n + 1);
        proof {
            assert(now.drop_last() =~= wanted.take(n as int));
            assert(now.last() == wanted[n as int]);
            assert(wanted[n as int] == order@[n as int]);
        }
        add_entry(&preset.stages[order[n]], slug, view, &mut out);
        n += 1;
    }
    assert(wanted.take(n as int) =~= wanted);
    out
}

proof fn lemma_of_rank(stages: Seq<StageEntry>, r: int)
    ensures
        forall|k: int| 0 <= k < of_rank(stages, r).len() ==> {
            let p = #[trigger] of_rank(stages, r)[k];
            0 <= p < stages.len() && rank(stages[p].kind@) == r
        },
        forall|i: int, j: int|
            #![trigger of_rank(stages, r)[i], of_rank(stages, r)[j]]
            0 <= i < j < of_rank(stages, r).len() ==> of_rank(stages, r)[i] < of_rank(stages, r)[j],
        forall|p: int|
            #![trigger stages[p]]
            0 <= p < stages.len() && rank(stages[p].kind@) == r ==> of_rank(stages, r).contains(p),
    decreases stages.len(),
{
    if stages.len() > 0 {
        let shorter = stages.drop_last();
        lemma_of_rank(shorter, r);
        let s = of_rank(stages, r);
        let t = of_rank(shorter, r);
        assert forall|k: int| 0 <= k < s.len() implies {
            let p = #[trigger] s[k];
            0 <= p < stages.len() && rank(stages[p].kind@) == r
        } by {
            if k < t.len() {
                assert(s[k] == t[k]);
                assert(shorter[t[k]] == stages[t[k]]);
            }
        }
        assert forall|i: int, j: int|
            #![trigger s[i], s[j]]
            0 <= i < j < s.len() implies s[i] < s[j] by {
            assert(s[i] == t[i]);
            if j < t.len() {
                assert(s[j] == t[j]);
            }
        }
        assert forall|p: int|
            #![trigger stages[p]]
            0 <= p < stages.len() && rank(stages[p].kind@) == r implies s.contains(p) by {
            if p < shorter.len() {
                assert(shorter[p] == stages[p]);
                assert(t.contains(p));
                let k = choose|k: int| 0 <= k < t.len() && t[k] == p;
                assert(s[k] == p);
            } else {
                assert(s[s.len() - 1] == p);
            }
        }
    }
}

proof fn lemma_of_rank_len(stages: Seq<StageEntry>)
    ensures
        of_rank(stages, 0).len() + of_rank(stages, 1).len() + of_rank(stages, 2).len()
            == stages.len(),
    decreases stages.len(),
{
    if stages.len() > 0 {
        lemma_of_rank_len(stages.drop_last());
    }
}

/// Every entry of a preset stands in its pipeline exactly once, `normalize` before everything
/// else and `pressure` after it; entries of one rank keep their file order.
pub proof fn law_the_pipeline_order_is_a_permutation(stages: Seq<StageEntry>)
    ensures
        pipeline_order(stages).len() == stages.len(),
        forall|k: int|
            0 <= k < pipeline_order(stages).len() ==> 0 <= #[trigger] pipeline_order(stages)[k]
                < stages.len(),
        forall|p: int| 0 <= p < stages.len() ==> #[trigger] pipeline_order(stages).contains(p),
        forall|i: int, j: int|
            #![trigger pipeline_order(stages)[i], pipeline_order(stages)[j]]
            0 <= i < j < stages.len() ==> {
                let (p, q) = (pipeline_order(stages)[i], pipeline_order(stages)[j]);
                rank(stages[p].kind@) < rank(stages[q].kind@) || (rank(stages[p].kind@) == rank(
                    stages[q].kind@,
                ) && p < q)
            },
{
    lemma_of_rank(stages, 0);
    lemma_of_rank(stages, 1);
    lemma_of_rank(stages, 2);
    lemma_of_rank_len(stages);
    let a = of_rank(stages, 0);
    let b = of_rank(stages, 1);
    let c = of_rank(stages, 2);
    let o = pipeline_order(stages);
    assert forall|p: int| 0 <= p < stages.len() implies #[trigger] o.contains(p) by {
        let r = rank(stages[p].kind@);
        if r == 0 {
            let k = choose|k: int| 0 <= k < a.len() && a[k] == p;
            assert(o[k] == p);
        } else if r == 1 {
            let k = choose|k: int| 0 <= k < b.len() && b[k] == p;
            assert(o[a.len() + k] == p);
        } else {
            let k = choose|k: int| 0 <= k < c.len() && c[k] == p;
            assert(o[a.len() + b.len() + k] == p);
        }
    }
}

/// A device override decides a stage's parameter, whether or not the preset mentions it; every
/// other parameter keeps the preset's value.
pub proof fn law_overrides_decide(
    e: StageEntry,
    slug: Seq<char>,
    view: Option<&DeviceView>,
    name: Seq<char>,
)
    ensures
        ({
            let key = slug + "."@ + stage_key_of(e) + "."@ + name;
            let values = values_of(e, slug, view);
            match override_for(view, key) {
                Some(v) => values.contains_key(name) && values[name] == v,
                None => values.contains_key(name) == e.params.map().contains_key(name) && (
                values.contains_key(name) ==> values[name] == e.params.map()[name]),
            }
        }),
{
}

/// Without a device, a preset's parameters are its own.
pub proof fn law_without_a_device_nothing_is_overridden(e: StageEntry, slug: Seq<char>)
    ensures
        values_of(e, slug, None) == e.params.map(),
{
    assert(values_of(e, slug, None) =~= e.params.map());
}

/// Whether `got` is the number that stands under `key`, kept as the file has it, or nothing where
/// no number stands there.
pub open spec fn is_number_under(values: Values, key: Seq<char>, got: Option<Number>) -> bool {
    match got {
        Some(Number::Integer(i)) => values.contains_pair(key, Datum::Integer(i)),
        Some(Number::Float(f)) => values.contains_pair(key, Datum::Float(f)),
        None => values.contains_key(key) ==> !(values[key] is Integer) && !(values[key] is Float),
    }
}

/// Whether `got` is the boolean that stands under `key`, or nothing where none stands there.
pub open spec fn is_boolean_under(values: Values, key: Seq<char>, got: Option<bool>) -> bool {
    match got {
        Some(b) => values.contains_pair(key, Datum::Boolean(b)),
        None => values.contains_key(key) ==> !(values[key] is Boolean),
    }
}

/// Whether the text under `key` is `name`.
pub open spec fn says(values: Values, key: Seq<char>, name: Seq<char>) -> bool {
    values.contains_key(key) && (values[key] matches Datum::String(s) && s@ == name)
}

/// Each parameter of a simple stage is the number that the preset has under that parameter's own
/// name.
pub proof fn law_each_number_goes_where_it_is_named(values: Values)
    ensures
        plan_of("normalize"@, values) matches Some(StagePlan::Normalize { dpi })
            && is_number_under(values, "dpi"@, dpi),
        plan_of("rotate"@, values) matches Some(StagePlan::Rotate { angle_deg })
            && is_number_under(values, "angle_deg"@, angle_deg),
        plan_of("deadzone"@, values) matches Some(StagePlan::Deadzone { threshold_mm })
            && is_number_under(values, "threshold_mm"@, threshold_mm),
        plan_of("smooth"@, values) matches Some(
            StagePlan::Smooth { min_cutoff_hz, beta, d_cutoff_hz },
        ) && is_number_under(values, "min_cutoff_hz"@, min_cutoff_hz) && is_number_under(
            values,
            "beta"@,
            beta,
        ) && is_number_under(values, "d_cutoff_hz"@, d_cutoff_hz),
        plan_of("stabilize"@, values) matches Some(StagePlan::Stabilize { radius_mm, catch_up })
            && is_number_under(values, "radius_mm"@, radius_mm) && is_number_under(
            values,
            "catch_up"@,
            catch_up,
        ),
        plan_of("average"@, values) matches Some(StagePlan::Average { window_ms, weighting })
            && is_number_under(values, "window_ms"@, window_ms) && (weighting == Weighting::Linear
            <==> says(values, "weighting"@, "linear"@)) && (weighting == Weighting::Gaussian
            <==> says(values, "weighting"@, "gaussian"@)),
{
    reveal_kinds();
    reveal_choices();
}

proof fn reveal_choices()
    ensures
        "linear"@ != "gaussian"@,
        "linear"@ != "exponential"@,
        "gaussian"@ != "exponential"@,
        "power"@ != "flat"@,
        "wheel"@ != "joystick"@,
        "wheel"@ != "drag"@,
        "joystick"@ != "drag"@,
        "always"@ != "reserved"@,
        "always"@ != "unless_active"@,
        "reserved"@ != "unless_active"@,
        "output"@ != "cursor"@,
        "decay"@ != "hold"@,
{
    reveal_strlit("linear");
    reveal_strlit("gaussian");
    reveal_strlit("exponential");
    reveal_strlit("power");
    reveal_strlit("flat");
    reveal_strlit("wheel");
    reveal_strlit("joystick");
    reveal_strlit("drag");
    reveal_strlit("always");
    reveal_strlit("reserved");
    reveal_strlit("unless_active");
    reveal_strlit("output");
    reveal_strlit("cursor");
    reveal_strlit("decay");
    reveal_strlit("hold");
    assert("output"@[0] == 'o' && "cursor"@[0] == 'c');
    assert("linear"@.len() == 6 && "gaussian"@.len() == 8 && "exponential"@.len() == 11);
    assert("power"@.len() == 5 && "flat"@.len() == 4 && "decay"@.len() == 5 && "hold"@.len() == 4);
    assert("wheel"@.len() == 5 && "joystick"@.len() == 8 && "drag"@.len() == 4);
    assert("always"@.len() == 6 && "reserved"@.len() == 8 && "unless_active"@.len() == 13);
}

/// `sensitivity` keeps each number under its own name, and has a curve, with the numbers of the
/// curve, exactly where the preset asks for the power curve.
pub proof fn law_sensitivity_keeps_its_parameters(values: Values)
    ensures
        plan_of("sensitivity"@, values) matches Some(
            StagePlan::Sensitivity { multiplier, y_ratio, max_multiplier, curve },
        ) && is_number_under(values, "multiplier"@, multiplier) && is_number_under(
            values,
            "y_ratio"@,
            y_ratio,
        ) && is_number_under(values, "max_multiplier"@, max_multiplier) && (curve is Power
            <==> says(values, "curve_type"@, "power"@)) && (curve matches CurvePlan::Power {
            reference_mm_s,
            exponent,
            min,
            max,
        } ==> is_number_under(values, "curve_reference_mm_s"@, reference_mm_s) && is_number_under(
            values,
            "curve_exponent"@,
            exponent,
        ) && is_number_under(values, "curve_min"@, min) && is_number_under(
            values,
            "curve_max"@,
            max,
        )),
{
    reveal_kinds();
    reveal_choices();
}

/// `scroll` keeps each number and each switch under its own name, and goes by the mode and the
/// rule for bound buttons that the preset names.
pub proof fn law_scroll_keeps_its_parameters(values: Values)
    ensures
        plan_of("scroll"@, values) matches Some(
            StagePlan::Scroll {
                mode,
                mouse_passthrough,
                wheel_gain,
                speed,
                drag_invert,
                joystick_deadzone_mm,
                joystick_gain,
                latch,
                freeze_cursor,
                momentum,
                momentum_decay_ms,
                full_release_stops_momentum,
            },
        ) && (mode == ScrollMode::Wheel <==> says(values, "mode"@, "wheel"@)) && (mode
            == ScrollMode::Joystick <==> says(values, "mode"@, "joystick"@)) && (mouse_passthrough
            == Passthrough::Always <==> says(values, "mouse_passthrough"@, "always"@)) && (
        mouse_passthrough == Passthrough::Reserved <==> says(
            values,
            "mouse_passthrough"@,
            "reserved"@,
        )) && is_number_under(values, "wheel_gain"@, wheel_gain) && is_number_under(
            values,
            "speed"@,
            speed,
        ) && is_boolean_under(values, "drag_invert"@, drag_invert) && is_number_under(
            values,
            "joystick_deadzone_mm"@,
            joystick_deadzone_mm,
        ) && is_number_under(values, "joystick_gain"@, joystick_gain) && is_boolean_under(
            values,
            "latch"@,
            latch,
        ) && is_boolean_under(values, "freeze_cursor"@, freeze_cursor) && is_boolean_under(
            values,
            "momentum"@,
            momentum,
        ) && is_number_under(values, "momentum_decay_ms"@, momentum_decay_ms) && is_boolean_under(
            values,
            "full_release_stops_momentum"@,
            full_release_stops_momentum,
        ),
{
    reveal_kinds();
    reveal_choices();
}

/// `pressure` keeps each number and each switch under its own name, and goes by the source and
/// the stall behaviour that the preset names.
pub proof fn law_pressure_keeps_its_parameters(values: Values)
    ensures
        plan_of("pressure"@, values) matches Some(
            StagePlan::Pressure {
                attack_ms,
                release_ms,
                envelope_enabled,
                speed_enabled,
                v_max_mm_s,
                gamma,
                velocity_smoothing_ms,
                source,
                stall_threshold_mm,
                stall_timeout_ms,
                stall_behaviour,
                min_pressure,
            },
        ) && is_number_under(values, "attack_ms"@, attack_ms) && is_number_under(
            values,
            "release_ms"@,
            release_ms,
        ) && is_boolean_under(values, "envelope_enabled"@, envelope_enabled) && is_boolean_under(
            values,
            "speed_enabled"@,
            speed_enabled,
        ) && is_number_under(values, "v_max_mm_s"@, v_max_mm_s) && is_number_under(
            values,
            "gamma"@,
            gamma,
        ) && is_number_under(values, "velocity_smoothing_ms"@, velocity_smoothing_ms) && (source
            == SpeedSource::Output <==> says(values, "source"@, "output"@)) && is_number_under(
            values,
            "stall_threshold_mm"@,
            stall_threshold_mm,
        ) && is_number_under(values, "stall_timeout_ms"@, stall_timeout_ms) && (stall_behaviour
            == StallBehaviour::Decay <==> says(values, "stall_behaviour"@, "decay"@))
            && is_number_under(values, "min_pressure"@, min_pressure),
{
    reveal_kinds();
    reveal_choices();
}

/// A stage is built of its own kind or not at all, and nothing but the nine kinds is built.
pub proof fn law_a_stage_is_of_its_kind(kind: Seq<char>, values: Values)
    ensures
        plan_of(kind, values) matches Some(plan) ==> plan_kind(plan) == kind,
        plan_of(kind, values) is None <==> kind != "normalize"@ && kind != "rotate"@ && kind
            != "deadzone"@ && kind != "sensitivity"@ && kind != "smooth"@ && kind != "stabilize"@
            && kind != "average"@ && kind != "scroll"@ && kind != "pressure"@,
{
}

/// What a stage is built as depends on the parameters that its kind reads and on nothing else: a
/// parameter that it does not read can be given, changed or left out.
#[verifier::rlimit(40)]
pub proof fn law_only_what_is_read_matters(kind: Seq<char>, a: Values, b: Values)
    requires
        forall|i: int|
            0 <= i < fields_of(kind).len() ==> {
                let key = (#[trigger] fields_of(kind)[i]).key;
                &&& a.contains_key(key) == b.contains_key(key)
                &&& a.contains_key(key) ==> a[key] == b[key]
            },
    ensures
        plan_of(kind, a) == plan_of(kind, b),
{
    reveal_kinds();
    let f = fields_of(kind);
    assert forall|i: int| 0 <= i < f.len() implies reads_alike(a, b, (#[trigger] f[i]).key) by {
        lemma_read_alike(a, b, f[i].key);
    }
    if f.len() > 0 {
        assert(reads_alike(a, b, f[0].key));
    }
    if f.len() > 1 {
        assert(reads_alike(a, b, f[1].key));
    }
    if f.len() > 2 {
        assert(reads_alike(a, b, f[2].key));
    }
    if f.len() > 3 {
        assert(reads_alike(a, b, f[3].key) && reads_alike(a, b, f[4].key));
        assert(reads_alike(a, b, f[5].key) && reads_alike(a, b, f[6].key));
        assert(reads_alike(a, b, f[7].key));
    }
    if f.len() > 8 {
        assert(reads_alike(a, b, f[8].key) && reads_alike(a, b, f[9].key));
        assert(reads_alike(a, b, f[10].key) && reads_alike(a, b, f[11].key));
    }
    if f.len() > 12 {
        assert(reads_alike(a, b, f[12].key));
    }
}

/// Whether two sets of parameters say the same under a key, whatever is asked for there.
spec fn reads_alike(a: Values, b: Values, key: Seq<char>) -> bool {
    &&& number_of(a, key) == number_of(b, key)
    &&& bool_of(a, key) == bool_of(b, key)
    &&& forall|d: Seq<char>| #[trigger] text_of(a, key, d) == text_of(b, key, d)
}

proof fn lemma_read_alike(a: Values, b: Values, key: Seq<char>)
    requires
        a.contains_key(key) == b.contains_key(key),
        a.contains_key(key) ==> a[key] == b[key],
    ensures
        reads_alike(a, b, key),
{
}

/// `normalize` comes before every other stage and `pressure` after every other one, wherever the
/// file has them; all the rest, and several of one of these kinds, keep the order of the file.
pub proof fn law_the_pins_hold(stages: Seq<StageEntry>, i: int, j: int)
    requires
        0 <= i < j < stages.len(),
    ensures
        ({
            let (p, q) = (pipeline_order(stages)[i], pipeline_order(stages)[j]);
            let (a, b) = (stages[p].kind@, stages[q].kind@);
            &&& 0 <= p < stages.len() && 0 <= q < stages.len()
            &&& b == "normalize"@ ==> a == "normalize"@
            &&& a == "pressure"@ ==> b == "pressure"@
            &&& p < q || a != b && (a == "normalize"@ || b == "pressure"@)
        }),
{
    law_the_pipeline_order_is_a_permutation(stages);
    reveal_kinds();
    assert(0 <= pipeline_order(stages)[i] < stages.len());
    assert(0 <= pipeline_order(stages)[j] < stages.len());
}

/// Every entry of a preset whose kind can be built is in the pipeline, with its own enabled flag
/// and built from its own parameters, in pipeline order; entries of other kinds leave no trace.
pub proof fn law_every_entry_is_built(
    stages: Seq<StageEntry>,
    order: Seq<int>,
    slug: Seq<char>,
    view: Option<&DeviceView>,
    k: int,
)
    requires
        0 <= k < order.len(),
    ensures
        ({
            let e = stages[order[k]];
            let before = stages_of(stages, order.take(k), slug, view);
            let all = stages_of(stages, order, slug, view);
            match plan_of(e.kind@, values_of(e, slug, view)) {
                Some(plan) => {
                    &&& before.len() < all.len()
                    &&& all[before.len() as int].plan == plan
                    &&& all[before.len() as int].enabled == e.enabled
                    &&& stages_of(stages, order.take(k + 1), slug, view).len() == before.len() + 1
                },
                None => stages_of(stages, order.take(k + 1), slug, view) == before,
            }
        }),
        stages_of(stages, order.take(0), slug, view).len() == 0,
    decreases order.len() - k,
{
    let now = order.take(k + 1);
    assert(now.drop_last() =~= order.take(k));
    assert(now.last() == order[k]);
    lemma_built_so_far(stages, order, slug, view, k + 1);
    assert(order.take(0).len() == 0);
    let before = stages_of(stages, order.take(k), slug, view);
    let then = stages_of(stages, now, slug, view);
    assert(then =~= before + entry_stage(stages[order[k]], slug, view));
    let all = stages_of(stages, order, slug, view);
    if then.len() > before.len() {
        assert(all[before.len() as int] == then[before.len() as int]);
    }
}

proof fn lemma_built_so_far(
    stages: Seq<StageEntry>,
    order: Seq<int>,
    slug: Seq<char>,
    view: Option<&DeviceView>,
    n: int,
)
    requires
        0 <= n <= order.len(),
    ensures
        stages_of(stages, order.take(n), slug, view).is_prefix_of(
            stages_of(stages, order, slug, view),
        ),
    decreases order.len(),
{
    if n == order.len() {
        assert(order.take(n) =~= order);
    } else {
        lemma_built_so_far(stages, order.drop_last(), slug, view, n);
        assert(order.drop_last().take(n) =~= order.take(n));
        let shorter = stages_of(stages, order.drop_last(), slug, view);
        assert(shorter.is_prefix_of(stages_of(stages, order, slug, view)));
    }
}

/// A parameter that its stage does not read is reported by name, and one that it reads is not.
pub proof fn law_a_parameter_nobody_reads_is_reported(
    keys: Seq<Seq<char>>,
    fields: Seq<Field>,
    key: Seq<char>,
)
    ensures
        keys.contains(key) && (forall|i: int|
            0 <= i < fields.len() ==> (#[trigger] fields[i]).key != key) ==> unknown_parameters(
            keys,
            fields,
        ).contains("unknown parameter '"@ + key + "'"@),
        (forall|k: int|
            0 <= k < keys.len() ==> exists|i: int|
                0 <= i < fields.len() && (#[trigger] fields[i]).key == #[trigger] keys[k])
            ==> unknown_parameters(keys, fields).len() == 0,
        unknown_parameters(keys, fields).len() <= keys.len(),
    decreases keys.len(),
{
    if keys.len() > 0 {
        let rest = keys.drop_last();
        law_a_parameter_nobody_reads_is_reported(rest, fields, key);
        let told = unknown_parameters(rest, fields);
        let all = unknown_parameters(keys, fields);
        let line = "unknown parameter '"@ + key + "'"@;
        if keys.contains(key) && forall|i: int|
            0 <= i < fields.len() ==> (#[trigger] fields[i]).key != key {
            if keys.last() == key {
                assert(all.last() == line);
                assert(all[all.len() - 1] == line);
            } else {
                let k = choose|k: int| 0 <= k < keys.len() && keys[k] == key;
                assert(rest[k] == key);
                assert(told.contains(line));
                let j = choose|j: int| 0 <= j < told.len() && told[j] == line;
                assert(all[j] == line);
            }
        }
        if forall|k: int|
            0 <= k < keys.len() ==> exists|i: int|
                0 <= i < fields.len() && (#[trigger] fields[i]).key == #[trigger] keys[k] {
            assert forall|k: int| 0 <= k < rest.len() implies exists|i: int|
                0 <= i < fields.len() && (#[trigger] fields[i]).key == #[trigger] rest[k] by {
                assert(rest[k] == keys[k]);
            }
            assert(asked_for(fields, keys[keys.len() - 1]));
        }
    }
}

/// A value of the wrong type is reported with its key and what it was found to be, a name that is
/// none of the choices with the default that stands in for it, a pressure of zero with what it
/// does, and nothing else is complained about.
pub proof fn law_a_wrong_value_is_reported(values: Values, f: Field)
    ensures
        !values.contains_key(f.key) && (f.wants matches Wants::Choice(_, options, default)
            ==> options.contains(default)) ==> field_warnings(values, f).len() == 0,
        values.contains_key(f.key) && (f.wants is Number || f.wants is Pressure) && !(
        values[f.key] is Integer) && !(values[f.key] is Float) ==> field_warnings(values, f)
            == seq![
            "'"@ + f.key + "' should be a number, found "@ + kind_name(values[f.key])
                + "; using default"@,
        ],
        values.contains_key(f.key) && f.wants is Boolean && !(values[f.key] is Boolean)
            ==> field_warnings(values, f) == seq![
            "'"@ + f.key + "' should be a boolean, found "@ + kind_name(values[f.key])
                + "; using default"@,
        ],
        values.contains_key(f.key) && f.wants is Choice && !(values[f.key] is String)
            ==> field_warnings(values, f) == seq![
            "'"@ + f.key + "' should be a string, found "@ + kind_name(values[f.key])
                + "; using default"@,
        ],
        values.contains_key(f.key) && f.wants is Number && (values[f.key] is Integer
            || values[f.key] is Float) ==> field_warnings(values, f).len() == 0,
        values.contains_key(f.key) && f.wants is Boolean && values[f.key] is Boolean
            ==> field_warnings(values, f).len() == 0,
        f.wants is OptionalNumber || f.wants is Binding ==> field_warnings(values, f).len() == 0,
        f.wants is Pressure && (values.contains_pair(f.key, Datum::Integer(0))
            || values.contains_pair(f.key, Datum::Float(0))) ==> field_warnings(values, f)
            == seq![zero_pressure_text()],
        forall|i: i64|
            i != 0 && f.wants is Pressure && #[trigger] values.contains_pair(
                f.key,
                Datum::Integer(i),
            ) ==> field_warnings(values, f).len() == 0,
        f.wants matches Wants::Choice(what, options, default) ==> forall|s: String|
            #[trigger] values.contains_pair(f.key, Datum::String(s)) ==> field_warnings(values, f)
                == if options.contains(s@) {
                Seq::<Seq<char>>::empty()
            } else {
                seq!["unknown "@ + what + " '"@ + s@ + "'; using "@ + default]
            },
{
    reveal_strlit("a number");
    reveal_strlit("a boolean");
    reveal_strlit("a string");
    reveal_strlit("' should be ");
    reveal_strlit(", found ");
    reveal_strlit("' should be a number, found ");
    reveal_strlit("' should be a boolean, found ");
    reveal_strlit("' should be a string, found ");
    assert("' should be "@ + "a number"@ + ", found "@ =~= "' should be a number, found "@);
    assert("' should be "@ + "a boolean"@ + ", found "@ =~= "' should be a boolean, found "@);
    assert("' should be "@ + "a string"@ + ", found "@ =~= "' should be a string, found "@);
    if values.contains_key(f.key) {
        let v = values[f.key];
        let front = "'"@ + f.key;
        let back = kind_name(v) + "; using default"@;
        assert(mistyped(f.key, "a number"@, v) =~= front + ("' should be "@ + "a number"@
            + ", found "@) + back);
        assert(front + "' should be a number, found "@ + back =~= front
            + "' should be a number, found "@ + kind_name(v) + "; using default"@);
        assert(mistyped(f.key, "a boolean"@, v) =~= front + ("' should be "@ + "a boolean"@
            + ", found "@) + back);
        assert(front + "' should be a boolean, found "@ + back =~= front
            + "' should be a boolean, found "@ + kind_name(v) + "; using default"@);
        assert(mistyped(f.key, "a string"@, v) =~= front + ("' should be "@ + "a string"@
            + ", found "@) + back);
        assert(front + "' should be a string, found "@ + back =~= front
            + "' should be a string, found "@ + kind_name(v) + "; using default"@);
    }
}

/// A stage that cannot be built is reported once, by name, and one that can is not; where the
/// pipeline order is not the order of the file that is said first, and each entry's messages
/// follow in pipeline order.
pub proof fn law_a_stage_that_is_not_built_is_reported(
    stages: Seq<StageEntry>,
    slug: Seq<char>,
    view: Option<&DeviceView>,
    k: int,
)
    requires
        0 <= k < stages.len(),
    ensures
        ({
            let e = stages[k];
            let values = values_of(e, slug, view);
            let own = entry_warnings(e, slug, view);
            let told = fields_warnings(values, fields_of(e.kind@)) + unknown_parameters(
                in_key_order(values.dom()),
                fields_of(e.kind@),
            );
            &&& plan_of(e.kind@, values) is Some ==> own.len() == told.len()
            &&& plan_of(e.kind@, values) is None ==> own.len() == told.len() + 1
            &&& plan_of(e.kind@, values) is None && e.kind@ != "snap"@ ==> own[0] == "preset '"@
                + slug + "': unknown stage '"@ + e.kind@ + "'; skipped"@
            &&& plan_of(e.kind@, values) is None && e.kind@ == "snap"@ ==> own[0] == "preset '"@
                + slug + "': stage '"@ + e.kind@
                + "' is specified but not implemented yet; skipped"@
            &&& forall|m: int|
                0 <= m < told.len() ==> own[own.len() - told.len() + m] == "preset '"@ + slug
                    + "' stage '"@ + stage_key_of(e) + "'"@ + ": "@ + #[trigger] told[m]
        }),
        forall|m: int|
            0 <= m < entry_warnings(stages[k], slug, view).len() ==> warnings_of(
                stages,
                pipeline_order(stages),
                slug,
                view,
            ).contains(#[trigger] entry_warnings(stages[k], slug, view)[m]),
        (forall|i: int, j: int|
            0 <= i < j < stages.len() ==> (#[trigger] stages[j]).kind@ != "normalize"@ && (
            #[trigger] stages[i]).kind@ != "pressure"@) ==> !reordered(stages),
        reordered(stages) ==> warnings_of(stages, pipeline_order(stages), slug, view).contains(
            "preset '"@ + slug
                + "': reordered stages to honour the pinned positions (normalize first, pressure last)"@,
        ),
{
    let order = pipeline_order(stages);
    law_the_pipeline_order_is_a_permutation(stages);
    assert(order.contains(k));
    let at = choose|at: int| 0 <= at < order.len() && order[at] == k;
    lemma_warnings_kept(stages, order, slug, view, at);
    if forall|i: int, j: int|
        0 <= i < j < stages.len() ==> (#[trigger] stages[j]).kind@ != "normalize"@ && (
        #[trigger] stages[i]).kind@ != "pressure"@ {
        lemma_in_order_already(stages);
    }
    if reordered(stages) {
        lemma_reorder_kept(stages, order, slug, view);
    }
}

proof fn lemma_reorder_kept(
    stages: Seq<StageEntry>,
    order: Seq<int>,
    slug: Seq<char>,
    view: Option<&DeviceView>,
)
    requires
        reordered(stages),
    ensures
        warnings_of(stages, order, slug, view).len() > 0,
        warnings_of(stages, order, slug, view)[0] == reorder_text(slug),
    decreases order.len(),
{
    if order.len() > 0 {
        lemma_reorder_kept(stages, order.drop_last(), slug, view);
    }
}

proof fn lemma_warnings_kept(
    stages: Seq<StageEntry>,
    order: Seq<int>,
    slug: Seq<char>,
    view: Option<&DeviceView>,
    at: int,
)
    requires
        0 <= at < order.len(),
    ensures
        forall|m: int|
            0 <= m < entry_warnings(stages[order[at]], slug, view).len() ==> warnings_of(
                stages,
                order,
                slug,
                view,
            ).contains(#[trigger] entry_warnings(stages[order[at]], slug, view)[m]),
    decreases order.len(),
{
    let own = entry_warnings(stages[order[at]], slug, view);
    let rest = order.drop_last();
    let all = warnings_of(stages, order, slug, view);
    let before = warnings_of(stages, rest, slug, view);
    assert forall|m: int| 0 <= m < own.len() implies all.contains(#[trigger] own[m]) by {
        if at == order.len() - 1 {
            assert(all[before.len() + m] == own[m]);
        } else {
            lemma_warnings_kept(stages, rest, slug, view, at);
            assert(rest[at] == order[at]);
            assert(before.contains(own[m]));
            let i = choose|i: int| 0 <= i < before.len() && before[i] == own[m];
            assert(all[i] == own[m]);
        }
    }
}

proof fn lemma_in_order_already(stages: Seq<StageEntry>)
    requires
        forall|i: int, j: int|
            0 <= i < j < stages.len() ==> (#[trigger] stages[j]).kind@ != "normalize"@ && (
            #[trigger] stages[i]).kind@ != "pressure"@,
    ensures
        !reordered(stages),
{
    law_the_pipeline_order_is_a_permutation(stages);
    reveal_kinds();
    let o = pipeline_order(stages);
    assert forall|k: int| 0 <= k < o.len() implies #[trigger] o[k] == k by {
        lemma_identity(stages, o, k);
    }
}

proof fn lemma_identity(stages: Seq<StageEntry>, o: Seq<int>, k: int)
    requires
        o == pipeline_order(stages),
        0 <= k < stages.len(),
        forall|i: int, j: int|
            0 <= i < j < stages.len() ==> (#[trigger] stages[j]).kind@ != "normalize"@ && (
            #[trigger] stages[i]).kind@ != "pressure"@,
    ensures
        o[k] == k,
    decreases k,
{
    law_the_pipeline_order_is_a_permutation(stages);
    reveal_kinds();
    assert forall|i: int, j: int| 0 <= i < j < o.len() implies #[trigger] o[i] < #[trigger] o[j] by {
        law_the_pins_hold(stages, i, j);
        if o[i] >= o[j] {
            if o[i] == o[j] {
            } else {
                assert(stages[o[j]].kind@ == stages[o[j]].kind@ && stages[o[i]].kind@
                    == stages[o[i]].kind@);
            }
        }
    }
    if k > 0 {
        lemma_identity(stages, o, k - 1);
    }
    assert(o[k] >= k);
    assert(o.contains(k));
    let at = choose|at: int| 0 <= at < o.len() && o[at] == k;
    if at < k {
        lemma_identity(stages, o, at);
    } else if at > k {
        assert(o[k] < o[at]);
    }
}

/// The gesture of a `scroll` stage does what the preset says of each switch. Of a switch that the
/// preset leaves out, the cursor is frozen and everything else is off.
pub proof fn law_the_gesture_does_what_the_preset_says(plan: StagePlan)
    ensures
        gesture_of(plan) is Some <==> plan is Scroll,
        gesture_of(plan) matches Some(g) ==> {
            &&& !g.always_active
            &&& g.mode == plan->Scroll_mode
            &&& plan->latch == Some(g.latch) || (plan->latch is None && !g.latch)
            &&& plan->freeze_cursor == Some(g.freeze_cursor) || (plan->freeze_cursor is None
                && g.freeze_cursor)
            &&& plan->momentum == Some(g.momentum) || (plan->momentum is None && !g.momentum)
            &&& plan->full_release_stops_momentum == Some(g.full_release_stops_momentum) || (
            plan->full_release_stops_momentum is None && !g.full_release_stops_momentum)
        },
{
}

/// An override reaches the stage that its key names, by the stage's id where it has one and else by
/// its kind, and no other: a stage under another name keeps its own value.
pub proof fn law_an_override_reaches_the_stage_it_names(
    e: StageEntry,
    slug: Seq<char>,
    view: &DeviceView,
    name: Seq<char>,
    v: Datum,
    source: crate::config::cascade::Source,
)
    ensures
        e.id is Some && resolved(*view, slug + "."@ + e.id->0@ + "."@ + name) == Some((v, source))
            ==> values_of(e, slug, Some(view)).contains_pair(name, v),
        e.id is None && resolved(*view, slug + "."@ + e.kind@ + "."@ + name) == Some((v, source))
            ==> values_of(e, slug, Some(view)).contains_pair(name, v),
        e.id is Some && resolved(*view, slug + "."@ + e.id->0@ + "."@ + name) is None
            && e.params.map().contains_pair(name, v) ==> values_of(
            e,
            slug,
            Some(view),
        ).contains_pair(name, v),
        e.id is None && resolved(*view, slug + "."@ + e.kind@ + "."@ + name) is None
            && e.params.map().contains_pair(name, v) ==> values_of(
            e,
            slug,
            Some(view),
        ).contains_pair(name, v),
        e.id is None && resolved(*view, slug + "."@ + e.kind@ + "."@ + name) is None
            && !e.params.map().contains_key(name) ==> !values_of(e, slug, Some(view)).contains_key(
            name,
        ),
{
    law_overrides_decide(e, slug, Some(view), name);
    let stem = slug + "."@ + stage_key_of(e) + "."@;
    assert(stem + name =~= slug + "."@ + stage_key_of(e) + "."@ + name);
}

/// A value of the wrong type is called what it is.
pub proof fn law_a_type_is_called_what_it_is(v: Datum)
    ensures
        v is Integer ==> kind_name(v) == "integer"@,
        v is Float ==> kind_name(v) == "float"@,
        v is Boolean ==> kind_name(v) == "boolean"@,
        v is String ==> kind_name(v) == "string"@,
        v is Array ==> kind_name(v) == "array"@,
        v is Table ==> kind_name(v) == "table"@,
        v is Datetime ==> kind_name(v) == "datetime"@,
{
}

} // verus!
