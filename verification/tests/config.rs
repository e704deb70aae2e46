//! Configuration: presets, profiles, devices and the files they come from.

use stabmouse::config::assemble::{assemble, Assembly, Number, StagePlan};
use stabmouse::config::cascade::{Origin, OverrideKey};
use stabmouse::config::catalog::{new_stage_toml, param, stage, stages, ParamKind};
use stabmouse::config::edit::Document;
use stabmouse::config::error::Error;
use stabmouse::config::schema::{
    default_schema, is_valid_slug, one, scroll_freeze_default, yes, AppRule, Datum, Defaults,
    Device, Group, Identity, Match, Mode, Output, Params, Passthrough, Preset, Profile, Root, StageEntry,
    CURRENT_SCHEMA,
};
use stabmouse::config::store::{file_name, FileName, FoundFile, RootFile, Store, RAW};
use stabmouse::config::value::{to_edit_value, Setting};
use stabmouse::dict::Dict;
use stabmouse::filter::average::Weighting;
use stabmouse::filter::pressure::{SpeedSource, StallBehaviour};
use stabmouse::filter::scroll::Mode as ScrollMode;

// ---- reading TOML into the library's types -------------------------------------------------

fn datum(v: &toml::Value) -> Datum {
    match v {
        toml::Value::String(s) => Datum::String(s.clone()),
        toml::Value::Integer(i) => Datum::Integer(*i),
        toml::Value::Float(f) => Datum::Float(f.to_bits()),
        toml::Value::Boolean(b) => Datum::Boolean(*b),
        toml::Value::Datetime(d) => Datum::Datetime(d.to_string()),
        toml::Value::Array(items) => Datum::Array(items.iter().map(datum).collect()),
        toml::Value::Table(t) => {
            Datum::Table(t.iter().map(|(k, v)| (k.clone(), datum(v))).collect())
        }
    }
}

fn params(v: Option<&toml::Value>) -> Params {
    let mut out = Dict::new();
    if let Some(t) = v.and_then(|v| v.as_table()) {
        for (k, v) in t {
            out.insert(k.clone(), datum(v));
        }
    }
    out
}

fn text(t: &toml::Table, key: &str) -> Option<String> {
    t.get(key).and_then(|v| v.as_str()).map(String::from)
}

fn list(t: &toml::Table, key: &str) -> Vec<toml::Table> {
    t.get(key)
        .and_then(|v| v.as_array())
        .map(|a| a.iter().filter_map(|v| v.as_table().cloned()).collect())
        .unwrap_or_default()
}

fn schema(t: &toml::Table) -> u32 {
    t.get("schema").and_then(|v| v.as_integer()).map_or(default_schema(), |n| n as u32)
}

fn parsed(text: &str) -> Result<toml::Table, String> {
    text.parse::<toml::Table>().map_err(|e| e.to_string())
}

fn preset_of(t: toml::Table) -> Preset {
    Preset {
        schema: schema(&t),
        display_name: text(&t, "display_name"),
        stages: list(&t, "stage")
            .into_iter()
            .map(|s| {
                let mut rest = Dict::new();
                for (k, v) in &s {
                    if k != "type" && k != "id" && k != "enabled" {
                        rest.insert(k.clone(), datum(v));
                    }
                }
                StageEntry {
                    kind: text(&s, "type").unwrap(),
                    id: text(&s, "id"),
                    enabled: s.get("enabled").and_then(|v| v.as_bool()).unwrap_or(yes()),
                    params: rest,
                }
            })
            .collect(),
    }
}

fn profile_of(t: toml::Table) -> Profile {
    let flag = |key: &str| t.get(key).and_then(|v| v.as_bool()).unwrap_or(false);
    Profile {
        schema: schema(&t),
        display_name: text(&t, "display_name"),
        default_mode: t
            .get("default_mode")
            .and_then(|v| v.as_integer())
            .map_or(one(), |n| n as usize),
        modes: list(&t, "mode")
            .into_iter()
            .map(|m| Mode {
                name: text(&m, "name").unwrap(),
                output: match text(&m, "output").unwrap().as_str() {
                    "mouse" => Output::Mouse,
                    "tablet" => Output::Tablet,
                    "relative" => Output::Relative,
                    other => panic!("no output {other}"),
                },
                preset: text(&m, "preset").unwrap(),
            })
            .collect(),
        auto_activate: list(&t, "auto_activate")
            .into_iter()
            .map(|r| AppRule {
                app: text(&r, "app").unwrap(),
                mode: r["mode"].as_integer().unwrap() as usize,
            })
            .collect(),
        toggle_binding: text(&t, "toggle_binding"),
        destroy_tablet_on_leave: flag("destroy_tablet_on_leave"),
        tablet_emits_mouse_clicks: flag("tablet_emits_mouse_clicks"),
        freeze_position_while_scrolling: flag("freeze_position_while_scrolling"),
        scroll_freeze_ms: t
            .get("scroll_freeze_ms")
            .and_then(|v| v.as_integer())
            .map_or(scroll_freeze_default(), |n| n as u64),
    }
}

fn matcher(v: &toml::Value) -> Match {
    let t = v.as_table().unwrap();
    Match { serial: text(t, "serial"), vid: text(t, "vid"), pid: text(t, "pid") }
}

fn flags(v: Option<&toml::Value>) -> Dict<bool> {
    let mut out = Dict::new();
    if let Some(t) = v.and_then(|v| v.as_table()) {
        for (k, v) in t {
            out.insert(k.clone(), v.as_bool().unwrap());
        }
    }
    out
}

fn root_of(t: toml::Table) -> Root {
    let defaults = match t.get("defaults").and_then(|v| v.as_table()) {
        Some(d) => Defaults {
            profile: text(d, "profile"),
            toggle_binding: text(d, "toggle_binding"),
            overrides: params(d.get("overrides")),
        },
        None => Defaults::default(),
    };
    Root {
        schema: schema(&t),
        defaults,
        groups: list(&t, "group")
            .into_iter()
            .map(|g| Group {
                name: text(&g, "name").unwrap(),
                devices: g
                    .get("devices")
                    .and_then(|v| v.as_array())
                    .map(|a| a.iter().map(matcher).collect())
                    .unwrap_or_default(),
                overrides: params(g.get("overrides")),
            })
            .collect(),
        devices: list(&t, "device")
            .into_iter()
            .map(|d| Device {
                matcher: matcher(&d["match"]),
                label: text(&d, "label"),
                managed: d.get("managed").and_then(|v| v.as_bool()).unwrap_or(false),
                overrides: params(d.get("overrides")),
            })
            .collect(),
        tablet_support: flags(t.get("tablet_support")),
        scroll_freeze: flags(t.get("scroll_freeze")),
    }
}

fn preset_from(text: &str) -> Preset {
    preset_of(parsed(text).unwrap())
}

fn root_from(text: &str) -> Root {
    root_of(parsed(text).unwrap())
}

fn profile_from(text: &str) -> Profile {
    profile_of(parsed(text).unwrap())
}

fn id(serial: Option<&str>, vid: Option<&str>, pid: Option<&str>) -> Identity {
    Identity { serial: serial.map(Into::into), vid: vid.map(Into::into), pid: pid.map(Into::into) }
}

fn float(v: &Datum) -> Option<f64> {
    match v {
        Datum::Float(bits) => Some(f64::from_bits(*bits)),
        _ => None,
    }
}

fn number(n: Option<Number>) -> Option<f64> {
    match n {
        Some(Number::Integer(i)) => Some(i as f64),
        Some(Number::Float(bits)) => Some(f64::from_bits(bits)),
        None => None,
    }
}

/// Millimetres for so many counts, through the first stage of a plan that states a resolution.
fn millimetres(a: &Assembly, counts: f64) -> f64 {
    match a.stages[0].plan {
        StagePlan::Normalize { dpi } => counts / number(dpi).unwrap_or(1000.0) * 25.4,
        _ => panic!("no resolution"),
    }
}

fn names(a: &Assembly) -> Vec<&'static str> {
    a.stages.iter().map(|s| s.plan.name()).collect()
}

// ---- assembling ------------------------------------------------------------------------------

#[test]
fn a_minimal_preset_assembles_and_runs() {
    let p = preset_from(
        r#"
        [[stage]]
        type = "normalize"
        dpi = 1600
        [[stage]]
        type = "stabilize"
        radius_mm = 0.0
        catch_up = 1.0
        "#,
    );
    let a = assemble(&p, "test", None);
    assert!(a.warnings.is_empty(), "{:?}", a.warnings);
    assert_eq!(a.stages.len(), 2);

    // 1600 counts at 1600 dpi is one inch.
    let total = millimetres(&a, 1600.0);
    assert!((total - 25.4).abs() < 1e-6, "got {total}mm");
    assert_eq!(
        a.stages[1].plan,
        StagePlan::Stabilize {
            radius_mm: Some(Number::Float(0.0f64.to_bits())),
            catch_up: Some(Number::Float(1.0f64.to_bits())),
        }
    );
}

#[test]
fn stage_pins_are_enforced_with_a_warning_not_a_refusal() {
    let p = preset_from(
        r#"
        [[stage]]
        type = "pressure"
        [[stage]]
        type = "stabilize"
        [[stage]]
        type = "normalize"
        "#,
    );
    let a = assemble(&p, "wonky", None);
    assert_eq!(names(&a), vec!["normalize", "stabilize", "pressure"]);
    assert!(a.warnings.iter().any(|w| w.contains("reordered")));
}

#[test]
fn a_misspelled_parameter_is_reported_rather_than_ignored() {
    let p = preset_from(
        r#"
        [[stage]]
        type = "stabilize"
        radius_mm = 0.5
        catchup = 0.3
        "#,
    );
    let a = assemble(&p, "typo", None);
    assert!(a.warnings.iter().any(|w| w.contains("catchup")), "{:?}", a.warnings);
    // ...and the rest of the stage still works.
    assert_eq!(a.stages.len(), 1);
    assert_eq!(a.warnings, vec!["preset 'typo' stage 'stabilize': unknown parameter 'catchup'"]);
}

#[test]
fn an_unknown_stage_is_skipped_with_a_warning() {
    let p = preset_from(
        r#"
        [[stage]]
        type = "normalize"
        [[stage]]
        type = "teleport"
        "#,
    );
    let a = assemble(&p, "odd", None);
    assert_eq!(a.stages.len(), 1);
    assert!(a.warnings.iter().any(|w| w.contains("unknown stage 'teleport'")));
}

#[test]
fn a_planned_but_unimplemented_stage_says_so_specifically() {
    let p = preset_from("[[stage]]\ntype = \"snap\"\n");
    let a = assemble(&p, "future", None);
    assert!(a.warnings.iter().any(|w| w.contains("not implemented yet")), "{:?}", a.warnings);
}

#[test]
fn integers_are_accepted_where_floats_are_expected() {
    // `dpi = 1600` is what a person writes.
    let p = preset_from("[[stage]]\ntype = \"normalize\"\ndpi = 1600\n");
    let a = assemble(&p, "ints", None);
    assert!(a.warnings.is_empty(), "{:?}", a.warnings);
    assert_eq!(a.stages[0].plan, StagePlan::Normalize { dpi: Some(Number::Integer(1600)) });
}

#[test]
fn a_wrongly_typed_parameter_warns_and_falls_back() {
    let p = preset_from("[[stage]]\ntype = \"normalize\"\ndpi = \"lots\"\n");
    let a = assemble(&p, "badtype", None);
    assert!(a.warnings.iter().any(|w| w.contains("should be a number")), "{:?}", a.warnings);
    assert_eq!(a.stages[0].plan, StagePlan::Normalize { dpi: None });
}

#[test]
fn device_overrides_reach_the_built_stage() {
    let root = root_from(
        r#"
        [[device]]
        match = { serial = "A1" }
        managed = true
        overrides = { "inking.stabilize.radius_mm" = 0.0, "inking.stabilize.catch_up" = 1.0 }
        "#,
    );
    let view = root.view_for(&id(Some("A1"), None, None));
    let p = preset_from(
        r#"
        [[stage]]
        type = "stabilize"
        radius_mm = 9.0
        catch_up = 0.1
        "#,
    );

    // Overridden to a zero-radius leash, which passes everything through.
    let a = assemble(&p, "inking", Some(&view));
    assert!(a.warnings.is_empty(), "{:?}", a.warnings);
    match a.stages[0].plan {
        StagePlan::Stabilize { radius_mm, catch_up } => {
            assert_eq!(number(radius_mm), Some(0.0), "override should have zeroed the radius");
            assert_eq!(number(catch_up), Some(1.0));
        }
        other => panic!("{other:?}"),
    }
}

#[test]
fn an_override_can_introduce_a_parameter_the_preset_omits() {
    let root = root_from(
        r#"
        [defaults]
        overrides = { "inking.normalize.dpi" = 800 }
        "#,
    );
    let view = root.view_for(&Identity::default());
    let p = preset_from("[[stage]]\ntype = \"normalize\"\n");

    let a = assemble(&p, "inking", Some(&view));
    assert!(a.warnings.is_empty(), "{:?}", a.warnings);
    // 800 counts at 800 dpi is one inch.
    let total = millimetres(&a, 800.0);
    assert!((total - 25.4).abs() < 1e-6, "got {total}mm");
}

#[test]
fn min_pressure_of_zero_is_allowed_but_warned() {
    let p = preset_from("[[stage]]\ntype = \"pressure\"\nmin_pressure = 0.0\n");
    let a = assemble(&p, "risky", None);
    assert!(a.warnings.iter().any(|w| w.contains("pen-up")), "{:?}", a.warnings);
}

#[test]
fn a_disabled_stage_is_present_but_inert() {
    let p = preset_from(
        r#"
        [[stage]]
        type = "stabilize"
        enabled = false
        radius_mm = 9.0
        catch_up = 0.1
        "#,
    );
    let a = assemble(&p, "off", None);
    assert_eq!(a.stages.len(), 1, "disabled stages stay in the pipeline");
    assert!(!a.stages[0].enabled, "a disabled stage must not transform anything");
}

#[test]
fn pressure_defaults_come_from_core_not_from_here() {
    let p = preset_from("[[stage]]\ntype = \"pressure\"\n");
    let a = assemble(&p, "d", None);
    assert!(a.warnings.is_empty(), "{:?}", a.warnings);
    assert_eq!(
        a.stages[0].plan,
        StagePlan::Pressure {
            attack_ms: None,
            release_ms: None,
            envelope_enabled: None,
            speed_enabled: None,
            v_max_mm_s: None,
            gamma: None,
            velocity_smoothing_ms: None,
            source: SpeedSource::Cursor,
            stall_threshold_mm: None,
            stall_timeout_ms: None,
            stall_behaviour: StallBehaviour::Hold,
            min_pressure: None,
        }
    );
}

#[test]
fn an_unknown_choice_is_named_and_the_default_used() {
    let p = preset_from("[[stage]]\ntype = \"average\"\nwindow_ms = 20\nweighting = \"boxcar\"\n");
    let a = assemble(&p, "w", None);
    assert_eq!(
        a.warnings,
        vec!["preset 'w' stage 'average': unknown weighting 'boxcar'; using exponential"]
    );
    assert_eq!(
        a.stages[0].plan,
        StagePlan::Average {
            window_ms: Some(Number::Integer(20)),
            weighting: Weighting::Exponential,
        }
    );
}

#[test]
fn two_instances_of_a_stage_are_told_apart_by_id() {
    let root = root_from(
        r#"
        [defaults]
        overrides = { "p.first.angle_deg" = 10, "p.second.angle_deg" = 20 }
        "#,
    );
    let view = root.view_for(&Identity::default());
    let p = preset_from(
        "[[stage]]\ntype = \"rotate\"\nid = \"first\"\n[[stage]]\ntype = \"rotate\"\nid = \"second\"\n",
    );
    let a = assemble(&p, "p", Some(&view));
    assert_eq!(a.stages[0].plan, StagePlan::Rotate { angle_deg: Some(Number::Integer(10)) });
    assert_eq!(a.stages[1].plan, StagePlan::Rotate { angle_deg: Some(Number::Integer(20)) });
}

// ---- the cascade -----------------------------------------------------------------------------

fn root() -> Root {
    root_from(
        r#"
        schema = 1

        [defaults]
        profile = "line-art"
        overrides = { "inking.stabilize.radius_mm" = 0.5, "raw.normalize.dpi" = 1000 }

        [[group]]
        name = "CAD pucks"
        devices = [{ serial = "A1" }, { serial = "B2" }]
        overrides = { "inking.stabilize.radius_mm" = 0.3 }

        [[device]]
        match = { serial = "A1" }
        label = "left puck"
        managed = true
        overrides = { "inking.stabilize.catch_up" = 0.8 }

        [[device]]
        match = { vid = "0738", pid = "0c08" }
        label = "R.A.T. 8+"
        managed = true
        overrides = { "raw.normalize.dpi" = 1600 }
        "#,
    )
}

#[test]
fn device_overrides_beat_group_which_beats_defaults() {
    let r = root();
    let v = r.view_for(&id(Some("A1"), None, None));

    // Only the device sets catch_up.
    let c = v.resolve("inking.stabilize.catch_up").unwrap();
    assert_eq!(c.origin, Origin::Device("left puck".into()));

    // Group and defaults both set radius; the group wins.
    let radius = v.resolve("inking.stabilize.radius_mm").unwrap();
    assert_eq!(radius.origin, Origin::Group("CAD pucks".into()));
    assert_eq!(float(radius.value), Some(0.3));

    // Only defaults set dpi.
    let dpi = v.resolve("raw.normalize.dpi").unwrap();
    assert_eq!(dpi.origin, Origin::Defaults);
}

#[test]
fn the_most_specific_device_entry_wins() {
    let r = root();
    // Matches the serial entry AND the vid/pid entry; serial is more specific.
    let v = r.view_for(&id(Some("A1"), Some("0738"), Some("0c08")));
    assert_eq!(v.label(), Some("left puck"));
}

#[test]
fn an_unknown_device_inherits_defaults_and_is_not_managed() {
    let r = root();
    let v = r.view_for(&id(Some("ZZ"), Some("1234"), Some("5678")));

    assert!(!v.is_managed(), "a device absent from config must never be touched");
    assert_eq!(v.label(), None);
    assert_eq!(v.group_name(), None);

    // But it still sees global defaults, so swapping in a new mouse keeps everything the same.
    let radius = v.resolve("inking.stabilize.radius_mm").unwrap();
    assert_eq!(radius.origin, Origin::Defaults);
    assert_eq!(float(radius.value), Some(0.5));
}

#[test]
fn unset_keys_resolve_to_nothing_so_the_preset_value_stands() {
    let r = root();
    let v = r.view_for(&id(Some("A1"), None, None));
    assert!(v.resolve("inking.smooth.beta").is_none());
}

#[test]
fn effective_overrides_merges_all_levels_with_origins() {
    let r = root();
    let v = r.view_for(&id(Some("A1"), None, None));
    let all = v.effective_overrides();

    assert_eq!(
        all.get("inking.stabilize.radius_mm").unwrap().origin,
        Origin::Group("CAD pucks".into())
    );
    assert_eq!(
        all.get("inking.stabilize.catch_up").unwrap().origin,
        Origin::Device("left puck".into())
    );
    assert_eq!(all.get("raw.normalize.dpi").unwrap().origin, Origin::Defaults);
}

#[test]
fn override_keys_must_have_three_segments() {
    assert_eq!(
        OverrideKey::parse("inking.stabilize.radius_mm").unwrap(),
        OverrideKey {
            preset: "inking".into(),
            stage: "stabilize".into(),
            param: "radius_mm".into(),
        }
    );
    for bad in ["", "inking", "inking.stabilize", "a.b.c.d", "a..c", ".b.c"] {
        assert!(OverrideKey::parse(bad).is_err(), "{bad:?} should be rejected");
    }
}

#[test]
fn a_device_with_no_config_entry_still_gets_a_usable_view() {
    let empty = Root::default();
    let v = empty.view_for(&id(None, Some("1"), Some("2")));
    assert!(!v.is_managed());
    assert!(v.effective_overrides().is_empty());
    assert!(v.resolve("anything.at.all").is_none());
}

#[test]
fn an_origin_says_where_a_value_comes_from() {
    assert_eq!(Origin::Preset.message(), "preset");
    assert_eq!(Origin::Defaults.message(), "default");
    assert_eq!(Origin::Group("CAD pucks".into()).message(), "group: CAD pucks");
    assert_eq!(Origin::Device("left puck".into()).message(), "device: left puck");
}

// ---- the catalog -----------------------------------------------------------------------------

#[test]
fn every_catalogued_stage_assembles_without_a_single_complaint() {
    for spec in stages() {
        // The catalog offers `snap`, which no preset can have built yet.
        if spec.kind == "snap" {
            continue;
        }
        let body = format!("schema = 1\n{}", new_stage_toml(spec.kind).unwrap());
        let a = assemble(&preset_from(&body), "catalog-test", None);
        assert!(a.warnings.is_empty(), "{}: {:?}", spec.kind, a.warnings);
        assert_eq!(names(&a), vec![spec.kind]);
    }
}

const SCROLL: &str = r#"
[[stage]]
type = "scroll"
mode = "wheel"
button = ["BTN_EXTRA", "KEY_LEFTCTRL+BTN_SIDE"]
mouse_passthrough = "reserved"
wheel_gain = 1.5
speed = 2
drag_invert = true
joystick_deadzone_mm = 3
joystick_gain = 4
latch = true
freeze_cursor = false
momentum = true
momentum_decay_ms = 200
full_release_stops_momentum = true
"#;

#[test]
fn a_scroll_stage_is_planned_from_its_parameters() {
    let a = assemble(&preset_from(SCROLL), "p", None);
    assert!(a.warnings.is_empty(), "{:?}", a.warnings);
    let StagePlan::Scroll { mode, mouse_passthrough, wheel_gain, speed, .. } = &a.stages[0].plan
    else {
        panic!("not a scroll stage");
    };
    assert_eq!(*mode, ScrollMode::Wheel);
    assert_eq!(*mouse_passthrough, Passthrough::Reserved);
    assert_eq!(*wheel_gain, Some(Number::Float(1.5f64.to_bits())));
    assert_eq!(*speed, Some(Number::Integer(2)));
    let g = a.stages[0].plan.gesture().unwrap();
    assert_eq!(g.mode, ScrollMode::Wheel);
    assert!(g.latch && g.momentum && g.full_release_stops_momentum);
    assert!(!g.freeze_cursor && !g.always_active);
}

#[test]
fn a_bare_scroll_stage_has_its_defaults() {
    let a = assemble(&preset_from("[[stage]]\ntype = \"scroll\"\n"), "p", None);
    assert!(a.warnings.is_empty(), "{:?}", a.warnings);
    let StagePlan::Scroll { mouse_passthrough, wheel_gain, drag_invert, .. } = &a.stages[0].plan
    else {
        panic!("not a scroll stage");
    };
    assert_eq!(*mouse_passthrough, Passthrough::UnlessActive);
    assert!(wheel_gain.is_none() && drag_invert.is_none());
    let g = a.stages[0].plan.gesture().unwrap();
    assert_eq!(g.mode, ScrollMode::Drag);
    assert!(g.freeze_cursor);
    assert!(!g.momentum && !g.latch && !g.always_active && !g.full_release_stops_momentum);
    let other = assemble(&preset_from("[[stage]]\ntype = \"rotate\"\n"), "p", None);
    assert!(other.stages[0].plan.gesture().is_none());
}

#[test]
fn an_unknown_scroll_choice_falls_back_and_says_so() {
    let a = assemble(
        &preset_from(
            "[[stage]]\ntype = \"scroll\"\nmode = \"spin\"\nmouse_passthrough = \"maybe\"\n",
        ),
        "p",
        None,
    );
    assert_eq!(a.warnings.len(), 2);
    assert!(a.warnings[0].ends_with("unknown scroll mode 'spin'; using drag"));
    assert!(a.warnings[1].ends_with("unknown mouse passthrough 'maybe'; using unless_active"));
    assert_eq!(a.stages[0].plan.gesture().unwrap().mode, ScrollMode::Drag);
}

#[test]
fn the_catalog_covers_every_stage_the_assembler_knows() {
    // A stage the assembler builds but the catalog omits would be invisible in an editor.
    for kind in [
        "normalize", "rotate", "deadzone", "sensitivity", "smooth", "stabilize", "average", "snap",
        "scroll", "pressure",
    ] {
        assert!(stage(kind).is_some(), "{kind} is missing from the catalog");
    }
}

#[test]
fn a_choice_defaults_to_one_of_its_own_options() {
    for spec in stages() {
        for p in &spec.params {
            if let ParamKind::Choice { default, options } = &p.kind {
                assert!(
                    options.contains(default),
                    "{}.{} defaults to {default}, which is not an option",
                    spec.kind,
                    p.key
                );
            }
        }
    }
}

#[test]
fn a_chord_dependency_names_a_binding_on_the_same_stage() {
    // Pointing at a parameter that is not a binding would hide a control on a condition that can
    // never be true.
    for spec in stages() {
        for p in &spec.params {
            let Some(on) = p.needs_chord else { continue };
            let target = spec.params.iter().find(|q| q.key == on);
            assert!(
                target.is_some_and(|q| matches!(q.kind, ParamKind::Binding)),
                "{}.{} depends on '{on}' being a chord, which is not a binding",
                spec.kind,
                p.key
            );
        }
    }
}

#[test]
fn a_dependency_names_a_parameter_that_exists_on_the_same_stage() {
    for spec in stages() {
        for p in &spec.params {
            if let Some((on, _)) = p.depends_on {
                assert!(
                    spec.params.iter().any(|q| q.key == on),
                    "{}.{} depends on {on}, which the stage does not have",
                    spec.kind,
                    p.key
                );
            }
        }
    }
}

#[test]
fn a_binding_is_commented_out_rather_than_guessed() {
    // A binding written with a made-up default would engage the gesture on a button the user
    // never chose.
    let toml = new_stage_toml("scroll").unwrap();
    assert!(toml.contains("# button ="), "{toml}");
}

#[test]
fn only_the_two_documented_stages_are_pinned() {
    let all = stages();
    let first: Vec<&str> = all.iter().filter(|s| s.pinned_first).map(|s| s.kind).collect();
    let last: Vec<&str> = all.iter().filter(|s| s.pinned_last).map(|s| s.kind).collect();
    assert_eq!(first, ["normalize"]);
    assert_eq!(last, ["pressure"]);
}

#[test]
fn a_new_stage_is_written_with_its_defaults() {
    assert_eq!(
        new_stage_toml("stabilize").unwrap(),
        "\n[[stage]]\ntype = \"stabilize\"\nradius_mm = 0.4\ncatch_up = 0.35\n"
    );
    assert!(new_stage_toml("teleport").is_none());
    assert_eq!(param("stabilize", "radius_mm").unwrap().unit, "mm");
    assert!(param("stabilize", "nothing").is_none());
}

// ---- schema ----------------------------------------------------------------------------------

#[test]
fn serial_beats_vid_pid_beats_partial() {
    let dev = id(Some("A1"), Some("0738"), Some("0c08"));

    let by_serial = Match { serial: Some("A1".into()), ..Default::default() };
    let by_vidpid =
        Match { vid: Some("0738".into()), pid: Some("0c08".into()), ..Default::default() };
    let by_vid = Match { vid: Some("0738".into()), ..Default::default() };

    assert_eq!(by_serial.specificity(&dev), Some(3));
    assert_eq!(by_vidpid.specificity(&dev), Some(2));
    assert_eq!(by_vid.specificity(&dev), Some(1));
}

#[test]
fn an_empty_matcher_matches_nothing() {
    let dev = id(Some("A1"), Some("0738"), Some("0c08"));
    assert_eq!(Match::default().specificity(&dev), None);
}

#[test]
fn hex_ids_compare_case_insensitively() {
    let dev = id(None, Some("0C08"), Some("ABCD"));
    let m = Match { vid: Some("0c08".into()), pid: Some("abcd".into()), ..Default::default() };
    assert_eq!(m.specificity(&dev), Some(2));
}

#[test]
fn a_wanted_serial_that_the_device_lacks_does_not_match() {
    let dev = id(None, Some("0738"), Some("0c08"));
    let m = Match { serial: Some("A1".into()), ..Default::default() };
    assert_eq!(m.specificity(&dev), None);
}

#[test]
fn slug_rules() {
    for good in ["raw", "line-art", "inking", "my_preset", "r2"] {
        assert!(is_valid_slug(good), "{good} should be valid");
    }
    for bad in ["", "Raw", "with space", "-leading", "trailing-", "with/slash", "../escape"] {
        assert!(!is_valid_slug(bad), "{bad} should be invalid");
    }
}

#[test]
fn a_slug_is_at_most_sixty_four_characters() {
    assert!(is_valid_slug(&"a".repeat(64)));
    assert!(!is_valid_slug(&"a".repeat(65)));
}

#[test]
fn a_minimal_preset_parses() {
    let p = preset_from(
        r#"
        schema = 1
        [[stage]]
        type = "normalize"
        dpi = 1600
        [[stage]]
        type = "stabilize"
        radius_mm = 0.5
        catch_up = 0.35
        "#,
    );
    assert_eq!(p.stages.len(), 2);
    assert_eq!(p.stages[0].kind, "normalize");
    assert!(p.stages[0].enabled, "stages default to enabled");
    assert_eq!(p.stages[1].params.get("radius_mm").and_then(float), Some(0.5));
}

#[test]
fn unknown_stage_params_are_preserved_not_rejected() {
    // An older build must not choke on, or silently drop, a newer config's fields.
    let p = preset_from(
        r#"
        [[stage]]
        type = "stabilize"
        radius_mm = 0.5
        some_future_param = "hello"
        "#,
    );
    assert!(p.stages[0].params.get("some_future_param").is_some());
}

#[test]
fn a_profile_parses_with_defaults_filled_in() {
    let p = profile_from(
        r#"
        display_name = "Line art"
        [[mode]]
        name = "Click"
        output = "mouse"
        preset = "raw"
        [[mode]]
        name = "Draw"
        output = "tablet"
        preset = "inking"
        "#,
    );
    assert_eq!(p.schema, CURRENT_SCHEMA);
    assert_eq!(p.default_mode, 1);
    assert_eq!(p.modes[1].output, Output::Tablet);
}

#[test]
fn devices_are_not_managed_unless_they_say_so() {
    let r = root_from(
        r#"
        [[device]]
        match = { vid = "0738", pid = "0c08" }
        "#,
    );
    assert!(!r.devices[0].managed, "managed must default to false");
}

// ---- editing ---------------------------------------------------------------------------------

/// Deliberately awkward: comments in three positions, inconsistent spacing, a blank line inside a
/// table, an inline table, and a trailing comment.
const MESSY: &str = r#"# StabMouse config — hand written, do not eat my comments
schema = 1

[defaults]
# I like this profile
profile   =   "line-art"

# a deliberately odd blank line follows

overrides = { "inking.stabilize.radius_mm" = 0.5 }   # inline trailing comment

[[device]]
match = { vid = "0738", pid = "0c08" }   # the R.A.T.
label = "R.A.T. 8+"
managed = true
"#;

fn root_document(path: &str, text: &str) -> Result<Document<Root>, Error> {
    Document::from_str(path, text, parsed(text).map(root_of))
}

fn read_root(text: &str) -> Result<Root, String> {
    parsed(text).map(root_of)
}

fn read_preset(text: &str) -> Result<Preset, String> {
    parsed(text).map(preset_of)
}

fn set(d: &mut Document<Root>, path: &[&str], value: Setting) -> Result<(), Error> {
    let path: Vec<String> = path.iter().map(|k| k.to_string()).collect();
    d.set(&path, &value, read_root)
}

#[test]
fn an_untouched_round_trip_is_byte_identical() {
    let d = root_document("t.toml", MESSY).unwrap();
    assert_eq!(d.to_text(), MESSY, "round-trip altered the document");
    assert!(!d.is_dirty());
}

#[test]
fn reading_never_marks_the_file_dirty() {
    let d = root_document("t.toml", MESSY).unwrap();
    assert!(!d.is_dirty(), "a read must not schedule a write");
}

#[test]
fn saving_an_unchanged_document_writes_nothing() {
    let mut d = root_document("/nonexistent/t.toml", MESSY).unwrap();
    assert!(d.text_to_save().is_none());
    // Would fail with a write error if it actually attempted the write.
    assert_eq!(d.save_if_dirty(Err("no such directory".into())).unwrap(), false);
}

#[test]
fn editing_one_value_preserves_every_comment() {
    let mut d = root_document("t.toml", MESSY).unwrap();
    set(&mut d, &["defaults", "profile"], Setting::Text("shading".into())).unwrap();

    let out = d.to_text();
    assert!(out.contains("do not eat my comments"));
    assert!(out.contains("# I like this profile"));
    assert!(out.contains("# inline trailing comment"));
    assert!(out.contains("# the R.A.T."));
    assert!(out.contains(r#"profile   =   "shading""#) || out.contains(r#"profile = "shading""#));
    assert!(d.is_dirty());
    assert_eq!(d.data().defaults.profile.as_deref(), Some("shading"));
}

#[test]
fn editing_does_not_disturb_unrelated_whitespace() {
    let mut d = root_document("t.toml", MESSY).unwrap();
    let before = d.to_text();
    set(&mut d, &["defaults", "profile"], Setting::Text("shading".into())).unwrap();
    let after = d.to_text();

    // Only the one line should differ.
    let differing: Vec<_> =
        before.lines().zip(after.lines()).filter(|(a, b)| a != b).collect();
    assert_eq!(differing.len(), 1, "expected exactly one changed line, got {differing:?}");
}

#[test]
fn a_new_nested_key_does_not_add_a_spurious_table_header() {
    let mut d = root_document("t.toml", "schema = 1\n").unwrap();
    set(&mut d, &["defaults", "profile"], Setting::Text("x".into())).unwrap();
    let out = d.to_text();
    assert!(out.contains("profile"), "value should be written: {out}");
    assert_eq!(d.data().defaults.profile.as_deref(), Some("x"));
}

const PRESET: &str = r#"schema = 1
display_name = "Inking"

[[stage]]
type = "normalize"
dpi = 1600

[[stage]]
# the important one
type = "stabilize"
radius_mm = 0.5
catch_up = 0.35
"#;

#[test]
fn preset_round_trips_and_stage_edits_are_surgical() {
    let mut d: Document<Preset> =
        Document::from_str("p.toml", PRESET, parsed(PRESET).map(preset_of)).unwrap();
    assert_eq!(d.to_text(), PRESET);

    let value = Setting::Ready(toml_edit::Value::from(0.8));
    d.set_stage_param(1, "radius_mm", &value, read_preset).unwrap();

    let out = d.to_text();
    assert!(out.contains("# the important one"));
    assert!(out.contains("radius_mm = 0.8"));
    assert!(out.contains("catch_up = 0.35"));
    assert!(out.contains("dpi = 1600"));
    assert_eq!(d.data().stages[1].params.get("radius_mm").and_then(float), Some(0.8));
}

#[test]
fn a_syntax_error_names_the_file() {
    let err = root_document("broken.toml", "this is not = = toml").err().unwrap();
    assert!(
        err.message().contains("broken.toml"),
        "error should name the file: {}",
        err.message()
    );
}

#[test]
fn a_key_below_a_value_cannot_be_set() {
    let mut d = root_document("t.toml", MESSY).unwrap();
    let before = d.to_text();
    let err = set(&mut d, &["schema", "deep", "key"], Setting::Integer(1)).unwrap_err();
    assert_eq!(err.message(), "t.toml: cannot descend into 'deep': not a table");
    let err = set(&mut d, &["schema", "key"], Setting::Integer(1)).unwrap_err();
    assert_eq!(err.message(), "t.toml: cannot set 'key': parent is not a table");
    assert!(matches!(set(&mut d, &[], Setting::Integer(1)), Err(Error::BadOverrideKey { .. })));
    assert_eq!(d.to_text(), before, "a refused edit changes nothing");
    assert!(!d.is_dirty());
}

#[test]
fn a_stage_that_is_not_there_cannot_be_changed() {
    let mut d: Document<Preset> =
        Document::from_str("p.toml", PRESET, parsed(PRESET).map(preset_of)).unwrap();
    let err = d.set_stage_param(2, "radius_mm", &Setting::Integer(1), read_preset).unwrap_err();
    assert_eq!(err.message(), "p.toml: stage index 2 out of range");

    let bare = "schema = 1\n";
    let mut d: Document<Preset> =
        Document::from_str("p.toml", bare, parsed(bare).map(preset_of)).unwrap();
    let err = d.set_stage_param(0, "radius_mm", &Setting::Integer(1), read_preset).unwrap_err();
    assert_eq!(err.message(), "p.toml: no [[stage]] entries");
}

#[test]
fn an_edit_that_does_not_read_back_is_kept_and_reported() {
    let mut d = root_document("t.toml", MESSY).unwrap();
    let before = d.data().defaults.profile.clone();
    let path = vec!["defaults".to_string(), "profile".to_string()];
    let err = d
        .set(&path, &Setting::Text("shading".into()), |_| Err("profile: no".to_string()))
        .unwrap_err();
    assert!(matches!(err, Error::Parse { .. }));
    assert!(err.message().contains("profile: no"));
    assert!(d.to_text().contains("\"shading\""));
    assert!(d.is_dirty());
    assert_eq!(d.data().defaults.profile, before);
}

#[test]
fn a_changed_value_keeps_what_stands_around_it() {
    let text = "# top\n[defaults]  # mine\n  profile   =   \"a\"   # why\n\n# end\n";
    let mut d = root_document("t.toml", text).unwrap();
    set(&mut d, &["defaults", "profile"], Setting::Text("b".into())).unwrap();
    assert_eq!(d.to_text(), text.replace("\"a\"", "\"b\""));
}

#[test]
fn setting_one_key_leaves_the_others_as_they_were() {
    let text = "schema = 1 # one\n[defaults]\nprofile = \"a\" # p\n[other] # o\nx = 1\n";
    let mut d = root_document("t.toml", text).unwrap();
    set(&mut d, &["other", "x"], Setting::Integer(2)).unwrap();
    assert_eq!(d.to_text(), text.replace("x = 1", "x = 2"));
    let t = parsed(&d.to_text()).unwrap();
    assert_eq!(t["other"]["x"].as_integer(), Some(2), "a set value reads back");
}

#[test]
fn a_table_made_on_the_way_has_no_header_of_its_own() {
    let mut d = root_document("t.toml", "schema = 1\n").unwrap();
    set(&mut d, &["a", "b", "c"], Setting::Integer(1)).unwrap();
    let out = d.to_text();
    assert!(!out.contains("[a]\n"), "{out}");
    assert!(out.ends_with("[a.b]\nc = 1\n"), "{out}");
    let t = parsed(&out).unwrap();
    assert_eq!(t["a"]["b"]["c"].as_integer(), Some(1));
    assert_eq!(t["schema"].as_integer(), Some(1));
}

#[test]
fn a_table_made_in_an_inline_table_is_inline() {
    let mut d = root_document("t.toml", "a = { x = 1 }\nz = 2\n").unwrap();
    set(&mut d, &["a", "b", "c"], Setting::Integer(3)).unwrap();
    let out = d.to_text();
    assert!(!out.contains('['), "{out}");
    let t = parsed(&out).unwrap();
    assert_eq!(t["a"]["x"].as_integer(), Some(1));
    assert_eq!(t["a"]["b"]["c"].as_integer(), Some(3));
    assert_eq!(t["z"].as_integer(), Some(2));
}

#[test]
fn a_set_key_replaces_a_table_and_keeps_its_neighbours() {
    let mut d = root_document("t.toml", "[defaults]\nprofile = \"a\"\n[other]\nx = 1\n").unwrap();
    set(&mut d, &["defaults"], Setting::Boolean(true)).ok();
    let t = parsed(&d.to_text()).unwrap();
    assert_eq!(t["defaults"].as_bool(), Some(true));
    assert_eq!(t["other"]["x"].as_integer(), Some(1));
}

#[test]
fn a_written_file_is_clean_again() {
    let mut d = root_document("t.toml", "schema = 1\n").unwrap();
    set(&mut d, &["defaults", "profile"], Setting::Text("x".into())).unwrap();
    assert_eq!(d.text_to_save().unwrap(), d.to_text());
    let err = d.save_if_dirty(Err("disk full".into())).unwrap_err();
    assert!(matches!(err, Error::Write { .. }), "{err:?}");
    assert!(d.is_dirty());
    assert_eq!(d.save_if_dirty(Ok(())).unwrap(), true);
    assert!(!d.is_dirty());
}

#[test]
fn every_kind_of_value_is_written_as_what_it_says() {
    let v = to_edit_value(&Setting::Table(vec![
        ("a".into(), Setting::Array(vec![Setting::Integer(1), Setting::Boolean(false)])),
        ("b".into(), Setting::Text("x".into())),
        ("c".into(), Setting::Datetime("1979-05-27".into())),
        ("d".into(), Setting::Ready(toml_edit::Value::from(0.5))),
    ]));
    let t = v.as_inline_table().unwrap();
    assert_eq!(t.get("a").unwrap().as_array().unwrap().len(), 2);
    assert_eq!(t.get("a").unwrap().as_array().unwrap().get(0).unwrap().as_integer(), Some(1));
    assert_eq!(t.get("a").unwrap().as_array().unwrap().get(1).unwrap().as_bool(), Some(false));
    assert_eq!(t.get("b").unwrap().as_str(), Some("x"));
    // A date is written as a text.
    assert_eq!(t.get("c").unwrap().as_str(), Some("1979-05-27"));
    assert_eq!(t.get("d").unwrap().as_float(), Some(0.5));
}

// ---- the store -------------------------------------------------------------------------------

struct Files {
    root: Option<String>,
    presets: Vec<(&'static str, String)>,
    profiles: Vec<(&'static str, String)>,
}

impl Files {
    fn new() -> Self {
        Files { root: None, presets: Vec::new(), profiles: Vec::new() }
    }

    fn write(&mut self, rel: &'static str, body: &str) {
        if let Some(name) = rel.strip_prefix("presets/") {
            self.presets.push((name, body.to_string()));
        } else if let Some(name) = rel.strip_prefix("profiles/") {
            self.profiles.push((name, body.to_string()));
        } else {
            self.root = Some(body.to_string());
        }
    }

    fn load(&self) -> (Store, stabmouse::config::store::LoadReport) {
        let root = self.root.as_ref().map(|text| RootFile {
            text: Ok(text.clone()),
            parsed: parsed(text).map(root_of),
        });
        let presets = self
            .presets
            .iter()
            .map(|(name, body)| FoundFile {
                name: name.to_string(),
                path: format!("/c/presets/{name}"),
                text: Ok(body.clone()),
                parsed: parsed(body).map(preset_of),
            })
            .collect();
        let profiles = self
            .profiles
            .iter()
            .map(|(name, body)| FoundFile {
                name: name.to_string(),
                path: format!("/c/profiles/{name}"),
                text: Ok(body.clone()),
                parsed: parsed(body).map(profile_of),
            })
            .collect();
        Store::load("/c", "/c/config.toml", root, presets, profiles).ok().unwrap()
    }
}

#[test]
fn a_missing_directory_is_a_first_run_not_an_error() {
    let (store, report) = Store::load(
        "/nonexistent/stabmouse-config-xyz",
        "/nonexistent/stabmouse-config-xyz/config.toml",
        None,
        Vec::new(),
        Vec::new(),
    )
    .ok()
    .unwrap();
    assert!(report.is_clean());
    assert!(store.profiles.is_empty());
    // raw must still resolve, since it is the fallback.
    assert!(store.preset(RAW).is_some());
    assert_eq!(store.preset_slugs(), vec![RAW.to_string()]);
}

#[test]
fn filenames_become_slugs() {
    let mut t = Files::new();
    t.write("presets/inking.toml", "schema = 1\n");
    t.write("presets/line-art.toml", "schema = 1\n");
    let (store, report) = t.load();
    assert!(report.is_clean(), "{:?}", report.problems);
    assert!(store.preset("inking").is_some());
    assert!(store.preset("line-art").is_some());
}

#[test]
fn one_broken_preset_does_not_prevent_loading_the_rest() {
    let mut t = Files::new();
    t.write("presets/good.toml", "schema = 1\n");
    t.write("presets/bad.toml", "this is = = not toml\n");
    let (store, report) = t.load();

    assert!(store.preset("good").is_some());
    assert!(store.preset("bad").is_none());
    assert_eq!(report.problems.len(), 1);
    assert!(report.problems[0].message().contains("bad.toml"));
}

#[test]
fn a_corrupt_config_toml_falls_back_to_defaults_rather_than_failing() {
    let mut t = Files::new();
    t.write("config.toml", "= = =\n");
    let (store, report) = t.load();
    assert_eq!(report.problems.len(), 1);
    assert_eq!(store.root.data().schema, CURRENT_SCHEMA);
}

#[test]
fn a_loaded_root_keeps_its_text_and_a_missing_one_starts_short() {
    let mut t = Files::new();
    t.write("config.toml", MESSY);
    let (store, _) = t.load();
    assert_eq!(store.root.to_text(), MESSY);
    assert!(!store.root.is_dirty());

    let (store, _) = Files::new().load();
    assert_eq!(store.root.to_text(), "schema = 1\n");
    let mut t = Files::new();
    t.write("config.toml", "= = =\n");
    assert_eq!(t.load().0.root.to_text(), "schema = 1\n");
}

#[test]
fn a_newer_schema_is_refused_not_guessed_at() {
    let mut t = Files::new();
    t.write("presets/future.toml", "schema = 99\n");
    let (store, report) = t.load();
    assert!(
        report.problems.iter().any(|p| matches!(p, Error::SchemaTooNew { found: 99, .. })),
        "{:?}",
        report.problems
    );
    assert!(store.preset("future").is_none());
}

#[test]
fn a_newer_root_falls_back_to_defaults_and_an_unmigratable_one_is_reported() {
    let mut t = Files::new();
    t.write("config.toml", "schema = 2\n[defaults]\nprofile = \"x\"\n");
    let (store, report) = t.load();
    assert!(matches!(report.problems[0], Error::SchemaTooNew { found: 2, max: 1, .. }));
    assert!(store.root.data().defaults.profile.is_none());

    let mut t = Files::new();
    t.write("config.toml", "schema = 0\n[defaults]\nprofile = \"x\"\n");
    let (store, report) = t.load();
    assert!(matches!(report.problems[0], Error::NoMigration { from: 0, .. }));
    assert_eq!(store.root.data().defaults.profile.as_deref(), Some("x"));
}

#[test]
fn non_toml_files_and_bad_slugs_are_handled_distinctly() {
    let mut t = Files::new();
    t.write("presets/notes.txt", "ignore me");
    t.write("presets/Bad Name.toml", "schema = 1\n");
    let (store, report) = t.load();

    assert!(store.presets.is_empty());
    // The .txt is silently skipped; the bad slug is reported.
    assert_eq!(report.problems.len(), 1);
    assert!(matches!(report.problems[0], Error::BadSlug { .. }));
}

#[test]
fn a_file_name_says_what_to_make_of_a_file() {
    assert!(matches!(file_name("a.toml"), FileName::Slug(s) if s == "a"));
    assert!(matches!(file_name("A.toml"), FileName::BadSlug(s) if s == "A"));
    assert!(matches!(file_name("a.txt"), FileName::Other));
    assert!(matches!(file_name(".toml"), FileName::Other));
}

#[test]
fn an_unreadable_file_is_named() {
    let presets = vec![FoundFile {
        name: "locked.toml".to_string(),
        path: "/c/presets/locked.toml".to_string(),
        text: Err("permission denied".to_string()),
        parsed: Err(String::new()),
    }];
    let (store, report) =
        Store::load("/c", "/c/config.toml", None, presets, Vec::new()).ok().unwrap();
    assert!(store.presets.is_empty());
    assert!(matches!(&report.problems[0], Error::Read { source, .. } if source == "permission denied"));
}

#[test]
fn dangling_preset_references_are_reported_with_enough_detail_to_act_on() {
    let mut t = Files::new();
    t.write("presets/inking.toml", "schema = 1\n");
    t.write(
        "profiles/line-art.toml",
        r#"
        [[mode]]
        name = "Click"
        output = "mouse"
        preset = "raw"
        [[mode]]
        name = "Draw"
        output = "tablet"
        preset = "inking"
        [[mode]]
        name = "Broken"
        output = "tablet"
        preset = "does-not-exist"
        "#,
    );
    let (store, report) = t.load();
    assert!(report.is_clean(), "{:?}", report.problems);

    let dangling = store.dangling_references();
    assert_eq!(dangling.len(), 1);
    let msg = dangling[0].message();
    assert!(msg.contains("line-art") && msg.contains("does-not-exist") && msg.contains('3'));
}

#[test]
fn raw_resolves_even_with_no_file_and_is_listed() {
    let mut t = Files::new();
    t.write("presets/inking.toml", "schema = 1\n");
    let (store, _) = t.load();
    assert!(store.preset(RAW).is_some());
    assert!(store.preset_slugs().contains(&RAW.to_string()));
}

#[test]
fn a_user_supplied_raw_shadows_the_builtin() {
    let mut t = Files::new();
    t.write("presets/raw.toml", "schema = 1\ndisplay_name = \"My Raw\"\n");
    let (store, _) = t.load();
    assert_eq!(store.preset(RAW).unwrap().display_name.as_deref(), Some("My Raw"));
}

#[test]
fn deleting_a_referenced_preset_can_be_refused() {
    let mut t = Files::new();
    t.write("presets/inking.toml", "schema = 1\n");
    t.write(
        "profiles/art.toml",
        "[[mode]]\nname = \"Draw\"\noutput = \"tablet\"\npreset = \"inking\"\n",
    );
    let (store, _) = t.load();
    assert_eq!(store.referrers_of("inking"), vec!["art".to_string()]);
    assert!(store.referrers_of("unused").is_empty());
}

#[test]
fn startup_profile_falls_back_when_the_named_default_is_missing() {
    let mut t = Files::new();
    t.write("config.toml", "schema = 1\n[defaults]\nprofile = \"gone\"\n");
    t.write(
        "profiles/only.toml",
        "display_name = \"Only\"\n[[mode]]\nname = \"m\"\noutput = \"mouse\"\npreset = \"raw\"\n",
    );
    let (store, _) = t.load();
    assert_eq!(
        store.startup_profile().unwrap().display_name.as_deref(),
        Some("Only"),
        "a missing default profile should fall back, not leave nothing active"
    );
}

#[test]
fn every_error_says_what_is_wrong() {
    let p = || "/c/x.toml".to_string();
    assert_eq!(
        Error::Read { path: p(), source: "gone".into() }.message(),
        "reading /c/x.toml: gone"
    );
    assert_eq!(
        Error::Write { path: p(), source: "full".into() }.message(),
        "writing /c/x.toml: full"
    );
    assert_eq!(Error::Parse { path: p(), message: "bad".into() }.message(), "/c/x.toml: bad");
    assert_eq!(
        Error::SchemaTooNew { path: p(), found: 9, max: 1 }.message(),
        "/c/x.toml: schema version 9 is newer than this build understands (1)"
    );
    assert_eq!(
        Error::NoMigration { path: p(), from: 0 }.message(),
        "/c/x.toml: no migration path from schema version 0"
    );
    assert_eq!(
        Error::DanglingPreset { profile: "a".into(), mode: 2, preset: "b".into() }.message(),
        "profile 'a' mode 2 references preset 'b', which does not exist"
    );
    assert_eq!(
        Error::BadSlug { what: "file".into(), name: "A b".into() }.message(),
        "file 'A b' is not a valid slug (expect kebab-case, filesystem-safe)"
    );
    assert_eq!(
        Error::BadOverrideKey { key: "a.b".into() }.message(),
        "override key 'a.b' is malformed; expected <preset>.<stage>.<param>"
    );
}
