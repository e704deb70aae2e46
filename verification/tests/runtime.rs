//! The input loop's decisions, from a button press to the steps that deliver it.

use stabmouse::config::assemble::Number;
use stabmouse::config::schema::{
    AppRule, Datum, Defaults, Device, Identity, Match, Mode as ModeEntry, Output, Passthrough,
    Preset, Profile, Root, StageEntry,
};
use stabmouse::config::store::{FoundFile, RootFile, Store};
use stabmouse::daemon::bindings::{binding, chord};
use stabmouse::daemon::buttons::Buttons;
use stabmouse::daemon::capture::{BindingCapture, CAPTURE_WINDOW_US};
use stabmouse::daemon::control::Command;
use stabmouse::daemon::focus::Under;
use stabmouse::daemon::keys::binding_name;
use stabmouse::daemon::modes::{Mode, Modes};
use stabmouse::daemon::routing::{
    deliver, emit_scroll, passthrough_wheel, scroll_due, Delivery, Report, ScrollFreeze, ScrollOut,
    Sink, Step, WheelLeft, BTN_MIDDLE, BTN_RIGHT, REL_WHEEL, REL_WHEEL_HI_RES, SCROLL_INTERVAL_US,
};
use stabmouse::daemon::runtime::{
    adopts_cursor, announce, announce_queued, announcement, deadline, degraded_at_start,
    jobs, regain_device, tick_due, wanted_keys, Begun, Change, ConfigPoll, InertStep, Job, Outcome, Prepared, Reaction,
    Runtime, StallWatch, Stats, Switched, TabletStatus, ADOPT_IDLE_US, CONFIG_POLL_US,
    RECONNECT_POLL_US, STALL_REPORT_US, TICK_US,
};
use stabmouse::daemon::wait::Wake;
use stabmouse::daemon::service::{Announce, DeviceInfo, Request, Snapshot};
use stabmouse::daemon::setup::{
    build_modes, device_id, pick_source, profile_to_run, scroll_button, snap_modifier, source_dpi,
    start_index, treatment, truncate, DeviceNode,
};
use stabmouse::daemon::startup::{
    auto_rules, entries_of, first_modes, first_runtime, first_snapshot, reload, rules_line,
    settings, take_apart, wheel_axes, BTN_LEFT,
};
use stabmouse::dict::Dict;

const SIDE: u16 = 0x113;
const ALT: u16 = 56;

fn mode(name: &str, output: Output) -> Mode {
    Mode {
        name: name.into(),
        output,
        preset: "raw".into(),
        modifier: Vec::new(),
        scroll_button: Vec::new(),
        wheel_binding: Vec::new(),
        passthrough: Passthrough::default(),
    }
}

fn mouse_buttons() -> Vec<u16> {
    vec![BTN_LEFT, BTN_RIGHT, BTN_MIDDLE, SIDE]
}

fn report(keys: &[(u16, bool)]) -> Report {
    Report { dx: 0, dy: 0, keys: keys.to_vec(), other_relative: Vec::new(), t_us: 0 }
}

fn over(class: &str) -> Under {
    Under { class: class.into(), signal: None }
}

// ---- a config to run from --------------------------------------------------------------------

fn found<T>(name: &str, parsed: T) -> FoundFile<T> {
    FoundFile {
        name: format!("{name}.toml"),
        path: format!("/c/{name}.toml"),
        text: Ok("schema = 1\n".into()),
        parsed: Ok(parsed),
    }
}

fn stage(kind: &str, params: Vec<(&str, Datum)>) -> StageEntry {
    let mut p = Dict::new();
    for (k, v) in params {
        p.insert(k.to_string(), v);
    }
    StageEntry { kind: kind.into(), id: None, enabled: true, params: p }
}

fn profile(modes: Vec<(&str, Output, &str)>) -> Profile {
    Profile {
        schema: 1,
        display_name: Some("Art".into()),
        default_mode: 2,
        modes: modes
            .into_iter()
            .map(|(name, output, preset)| ModeEntry {
                name: name.into(),
                output,
                preset: preset.into(),
            })
            .collect(),
        auto_activate: vec![AppRule { app: "krita".into(), mode: 2 }],
        toggle_binding: None,
        destroy_tablet_on_leave: true,
        tablet_emits_mouse_clicks: true,
        freeze_position_while_scrolling: false,
        scroll_freeze_ms: 300,
    }
}

fn root() -> Root {
    let mut support = Dict::new();
    support.insert("vivaldi".to_string(), true);
    let mut freeze = Dict::new();
    freeze.insert("gimp".to_string(), true);
    let mut overrides = Dict::new();
    overrides.insert("inking.normalize.dpi".to_string(), Datum::Integer(3200));
    Root {
        schema: 1,
        defaults: Defaults::default(),
        groups: Vec::new(),
        devices: vec![Device {
            matcher: Match {
                serial: None,
                vid: Some("0738".into()),
                pid: Some("0c08".into()),
            },
            label: None,
            managed: true,
            overrides,
        }],
        tablet_support: support,
        scroll_freeze: freeze,
    }
}

fn store_of(p: Option<Profile>) -> Store {
    let inking = Preset {
        schema: 1,
        display_name: None,
        stages: vec![
            stage("normalize", vec![("dpi", Datum::Integer(1600))]),
            stage("snap", vec![("modifier", Datum::String("BTN_SIDE".into()))]),
        ],
    };
    let presets = vec![found("inking", inking)];
    let profiles = p.into_iter().map(|p| found("art", p)).collect();
    let root = RootFile { text: Ok("schema = 1\n".into()), parsed: Ok(root()) };
    Store::load("/c", "/c/config.toml", Some(root), presets, profiles).ok().unwrap().0
}

fn store() -> Store {
    store_of(Some(profile(vec![
        ("Mouse", Output::Mouse, "raw"),
        ("Draw", Output::Tablet, "inking"),
        ("Lost", Output::Tablet, "gone"),
    ])))
}

fn rat() -> Identity {
    Identity { serial: None, vid: Some("0738".into()), pid: Some("0c08".into()) }
}

fn node(path: &str, id: Identity, kind: &str, is_mouse: bool, keyboard: bool) -> DeviceNode {
    DeviceNode {
        path: path.into(),
        name: "R.A.T. 8+".into(),
        identity: id,
        kind: kind.into(),
        is_mouse,
        is_keyboard_like: keyboard,
    }
}

// ---- setting up ------------------------------------------------------------------------------

#[test]
fn the_first_usable_managed_node_is_the_source() {
    let devices = vec![
        node("/dev/input/event1", Identity::default(), "Mouse", true, false),
        node("/dev/input/event2", rat(), "Keyboard", false, true),
        node("/dev/input/event3", rat(), "Mouse", true, false),
        node("/dev/input/event4", rat(), "Mouse", true, false),
    ];
    let s = pick_source(&store(), &devices, None).unwrap();
    assert_eq!((s.index, s.distinct), (2, 1), "an unmanaged device is never touched");
    let s = pick_source(&store(), &devices, Some("/dev/input/event1")).unwrap();
    assert_eq!(s.index, 0, "unless it is asked for");
}

#[test]
fn a_missing_source_is_explained() {
    let keyboard = vec![node("/dev/input/event2", rat(), "Keyboard", false, true)];
    let e = pick_source(&store(), &keyboard, None).unwrap_err();
    assert_eq!(
        e.message(&keyboard, "/c"),
        "1 managed node(s) matched, but none is usable as a pointer source. /dev/input/event2 is \
         Keyboard — pass `--device <path>` to name one explicitly"
    );
    let e = pick_source(&store(), &Vec::new(), None).unwrap_err();
    assert!(e.message(&Vec::new(), "/c").starts_with("no managed device found in /c."));
    let e = pick_source(&store(), &keyboard, Some("/dev/null")).unwrap_err();
    assert_eq!(e.message(&keyboard, "/c"), "/dev/null is not an evdev device");
}

#[test]
fn devices_are_listed_with_how_they_would_be_treated() {
    let d = node("/dev/input/event2", rat(), "Keyboard", false, true);
    assert_eq!(treatment(&d), "never grabbed (keyboard)");
    assert_eq!(device_id(&d.identity), "0738:0c08");
    assert_eq!(device_id(&Identity::default()), "????:????");
    assert_eq!(truncate("abcdef", 4), "abc…");
    assert_eq!(truncate("abcd", 4), "abcd");
}

#[test]
fn every_slot_of_a_profile_gets_a_plan() {
    let store = store();
    let id = rat();
    let plans = build_modes(&store, None, &id);
    assert_eq!(plans.len(), 3);
    assert_eq!(plans[1].mode.name, "Draw");
    assert_eq!(plans[1].mode.modifier, vec![vec![SIDE]]);
    assert_eq!(plans[1].stages.len(), 1);
    assert!(plans[1].notices.iter().any(|n| n.contains("not implemented yet")));
    assert_eq!(
        plans[2].notices,
        vec!["mode 'Lost' references preset 'gone', which does not exist; this slot is raw passthrough"]
    );
    assert!(plans[2].stages.is_empty());

    let (slots, pipelines) = take_apart(plans);
    assert_eq!(slots.len(), 3);
    assert_eq!(pipelines.stages[1].len(), 1);
    assert!(pipelines.notices.len() >= 2);
}

#[test]
fn without_a_profile_there_is_one_mode_that_does_nothing() {
    let store = store_of(None);
    let id = rat();
    let plans = build_modes(&store, None, &id);
    assert_eq!(plans.len(), 1);
    assert_eq!(plans[0].mode.name, "Passthrough");
    assert_eq!(start_index(&store, None), 0);
    assert!(profile_to_run(&store, Some("art")).is_none());
}

#[test]
fn a_modifier_that_is_no_key_is_reported() {
    let p = Preset {
        schema: 1,
        display_name: None,
        stages: vec![stage("snap", vec![("modifier", Datum::String("ENTER?".into()))])],
    };
    let (chords, notices) = snap_modifier(&p, "inking");
    assert!(chords.is_empty());
    assert_eq!(
        notices,
        vec!["preset 'inking': 'ENTER?' is not a key or button name; snap will not engage"]
    );
}

fn scrolling(params: Vec<(&str, Datum)>) -> Preset {
    Preset { schema: 1, display_name: None, stages: vec![stage("scroll", params)] }
}

fn words(list: &[&str]) -> Datum {
    Datum::Array(list.iter().map(|w| Datum::String(w.to_string())).collect())
}

#[test]
fn a_binding_is_a_name_a_chord_or_a_list_of_them() {
    assert_eq!(chord("BTN_SIDE"), Some(vec![SIDE]));
    assert_eq!(chord("KEY_LEFTALT+BTN_SIDE"), Some(vec![ALT, SIDE]));
    assert_eq!(chord("KEY_LEFTALT+WHAT"), None);
    let (chords, bad) = binding(&Datum::String("KEY_LEFTALT+BTN_SIDE".into()));
    assert_eq!((chords, bad), (vec![vec![ALT, SIDE]], vec![]));
    let (chords, bad) = binding(&words(&["BTN_SIDE", "WHAT", "KEY_LEFTALT"]));
    assert_eq!(chords, vec![vec![SIDE], vec![ALT]]);
    assert_eq!(bad, vec!["WHAT"]);
    assert_eq!(binding(&Datum::Integer(3)), (vec![], vec![]));
}

#[test]
fn a_captured_chord_binds_back() {
    let name = [ALT, SIDE].map(binding_name).join("+");
    assert_eq!(name, "KEY_LEFTALT+BTN_SIDE");
    assert_eq!(chord(&name), Some(vec![ALT, SIDE]));
}

#[test]
fn a_scroll_stage_binds_its_button() {
    let p = scrolling(vec![("button", words(&["BTN_SIDE", "WHAT"]))]);
    let (chords, notices) = scroll_button(&p, "inking");
    assert_eq!(chords, vec![vec![SIDE]]);
    assert_eq!(
        notices,
        vec!["preset 'inking': 'WHAT' is not a key or button name; scroll will not engage"]
    );
    assert!(snap_modifier(&p, "inking").0.is_empty());
}

fn store_with(preset: Preset) -> Store {
    let root = RootFile { text: Ok("schema = 1\n".into()), parsed: Ok(root()) };
    let p = profile(vec![("Draw", Output::Tablet, "inking")]);
    Store::load(
        "/c",
        "/c/config.toml",
        Some(root),
        vec![found("inking", preset)],
        vec![found("art", p)],
    )
    .ok()
    .unwrap()
    .0
}

#[test]
fn a_mode_carries_what_its_scroll_stage_is_bound_to() {
    let drag = store_with(scrolling(vec![("button", Datum::String("BTN_SIDE".into()))]));
    let plans = build_modes(&drag, None, &rat());
    assert_eq!(plans[0].mode.scroll_button, vec![vec![SIDE]]);
    assert!(plans[0].mode.wheel_binding.is_empty());
    assert_eq!(plans[0].mode.passthrough, Passthrough::UnlessActive);
    assert!(plans[0].notices.is_empty(), "{:?}", plans[0].notices);

    let wheel = store_with(scrolling(vec![
        ("mode", Datum::String("wheel".into())),
        ("button", Datum::String("BTN_SIDE".into())),
        ("mouse_passthrough", Datum::String("reserved".into())),
    ]));
    let plans = build_modes(&wheel, None, &rat());
    assert_eq!(plans[0].mode.wheel_binding, vec![vec![SIDE]]);
    assert_eq!(plans[0].mode.passthrough, Passthrough::Reserved);
}

#[test]
fn a_run_without_a_mode_is_refused() {
    let none = store_of(Some(profile(Vec::new())));
    let err = first_modes(&none, None, &rat()).err().unwrap();
    assert_eq!(
        err,
        "no usable mode found. Check that /c has a profile with at least one [[mode]]"
    );
    let (slots, pipelines) = first_modes(&store(), None, &rat()).ok().unwrap();
    assert_eq!(slots.len(), 3);
    assert_eq!(pipelines.stages.len(), 3);
    assert_eq!(first_modes(&store_of(None), None, &rat()).ok().unwrap().0[0].name, "Passthrough");
}

#[test]
fn the_resolution_comes_from_the_device_then_from_a_preset() {
    let store = store();
    assert_eq!(source_dpi(&store, &rat()), Some(Number::Integer(3200)));
    assert_eq!(source_dpi(&store, &Identity::default()), Some(Number::Integer(1600)));
    assert_eq!(start_index(&store, None), 1);
    assert_eq!(start_index(&store, Some(3)), 2);
    assert_eq!(start_index(&store, Some(0)), 0);
}

#[test]
fn a_run_starts_from_its_profile() {
    let store = store();
    let s = settings(&store);
    assert!(s.destroy_tablet_on_leave && s.tablet_emits_mouse_clicks);
    assert_eq!(s.scroll_freeze_ms, 300);
    assert_eq!(settings(&store_of(None)).scroll_freeze_ms, 250);
    assert_eq!(entries_of(&store.root.data().tablet_support), vec![("vivaldi".to_string(), true)]);
    assert_eq!(auto_rules(&store), vec![("krita".to_string(), 2)]);
    assert_eq!(
        rules_line(&vec![("krita".into(), 2), ("gimp".into(), 3)]),
        "  auto-switch: 2 rule(s) — krita → mode 2, gimp → mode 3"
    );
    assert_eq!(wheel_axes(&vec![0, 1, 8, 11]), vec![8, 11]);

    let modes = Modes::new(vec![mode("Mouse", Output::Mouse)], 0);
    let snap = first_snapshot(&store, None, 1, &modes, 2, true);
    assert_eq!(snap.profile, "Art");
    assert_eq!((snap.mode_slot, snap.mode_name.as_str()), (2, "Mouse"));
    assert!(snap.enabled && !snap.panicked);
    assert_eq!(snap.tablet_overrides, vec![("vivaldi".to_string(), true)]);
    assert_eq!(first_snapshot(&store, Some("art"), 0, &modes, 0, false).profile, "art");

    let rt = first_runtime(&store, modes, mouse_buttons());
    assert_eq!(rt.freeze.length_us, 300_000);
    assert!(rt.tablet_clicks && !rt.inert);
}

#[test]
fn a_reload_settles_on_a_profile_or_keeps_what_runs() {
    let store = store();
    let id = rat();
    let (fresh, pipelines) = reload(&store, None, Some("missing"), &id).unwrap();
    assert_eq!(fresh.profile_slug, "art");
    assert_eq!(fresh.profile_name, "Art");
    assert_eq!(fresh.modes.slots().len(), 3);
    assert_eq!(pipelines.stages.len(), 3);
    assert_eq!(fresh.scroll_freeze, vec![("gimp".to_string(), true)]);

    let empty = store_of(Some(profile(Vec::new())));
    assert!(reload(&empty, None, None, &id).is_none());
}

// ---- buttons and captures --------------------------------------------------------------------

fn buttons() -> Buttons {
    Buttons { pen: BTN_LEFT, mouse: mouse_buttons(), held: Vec::new(), keys: Vec::new() }
}

#[test]
fn a_chord_is_held_when_all_of_it_is() {
    let mut b = buttons();
    let chords = vec![vec![ALT, BTN_MIDDLE]];
    let mut stroke = false;
    b.track_button(&vec![(BTN_MIDDLE, true), (BTN_LEFT, true)], &mut stroke);
    assert!(stroke);
    assert!(!b.any_held(&chords) && b.partly_held(&chords));
    b.keys.push(ALT);
    assert!(b.any_held(&chords));
    b.track_button(&vec![(BTN_MIDDLE, false), (BTN_LEFT, false)], &mut stroke);
    assert!(!stroke && !b.any_held(&chords) && !b.code_held(BTN_MIDDLE));
    assert!(!b.any_held(&vec![Vec::new()]), "an empty chord is never held");
}

#[test]
fn a_bound_button_is_withheld_only_in_its_combination() {
    let mut b = buttons();
    let mut m = mode("Draw", Output::Mouse);
    m.scroll_button = vec![vec![ALT, BTN_MIDDLE]];
    assert!(!b.bound_to_gesture(&m, BTN_MIDDLE), "middle alone still pastes");
    b.keys.push(ALT);
    assert!(b.bound_to_gesture(&m, BTN_MIDDLE));
    m.passthrough = Passthrough::Always;
    assert!(!b.bound_to_gesture(&m, BTN_MIDDLE));
    m.passthrough = Passthrough::Reserved;
    b.keys.clear();
    assert!(b.bound_to_gesture(&m, BTN_MIDDLE));
    m.scroll_button = vec![vec![BTN_LEFT]];
    assert!(!b.bound_to_gesture(&m, BTN_LEFT), "never the pen button");
}

#[test]
fn a_chord_is_captured_when_the_hand_lets_go() {
    let mut c = BindingCapture::default();
    assert!(!c.capture_button(&vec![(BTN_MIDDLE, true)], 0));
    c.begin(1_000);
    assert!(c.capture_button(&Vec::new(), 1_001), "motion is swallowed too");
    assert!(c.capture_button(&vec![(BTN_MIDDLE, true)], 1_002));
    assert!(c.capture_button(&vec![(SIDE, true)], 1_003));
    assert!(c.capture_button(&vec![(SIDE, false)], 1_004));
    assert_eq!(c.take_captured(), None);
    assert!(c.capture_button(&vec![(BTN_MIDDLE, false)], 1_005));
    assert_eq!(c.take_captured().as_deref(), Some("BTN_MIDDLE+BTN_SIDE"));
    assert_eq!(c.take_captured(), None);
}

#[test]
fn a_capture_runs_out_and_forgets_what_it_held() {
    let mut c = BindingCapture::default();
    c.begin(0);
    assert!(c.capture_button(&vec![(SIDE, true)], 1));
    assert!(!c.capture_button(&vec![(SIDE, false)], CAPTURE_WINDOW_US));
    assert!(c.swallow_releases(&vec![(SIDE, false)]).is_empty());
}

// ---- the loop --------------------------------------------------------------------------------

fn runtime(modes: Vec<Mode>) -> Runtime {
    first_runtime(&store(), Modes::new(modes, 0), mouse_buttons())
}

fn two() -> Vec<Mode> {
    vec![mode("Mouse", Output::Mouse), mode("Draw", Output::Tablet)]
}

fn ready(b: Begun) -> Prepared {
    match b {
        Begun::Ready(p) => p,
        other => panic!("{other:?}"),
    }
}

#[test]
fn a_report_is_prepared_and_a_change_of_transport_is_said() {
    let mut rt = runtime(two());
    let p = ready(rt.begin(&report(&[(BTN_LEFT, true)]), 0, &over("discord")));
    assert_eq!(p.output, Output::Mouse);
    assert_eq!(p.keys, vec![(BTN_LEFT, true)]);
    assert!(rt.stroke_active);
    assert!(p.notice.unwrap().starts_with("transport: start -> Mouse over discord — "));
    let again = ready(rt.begin(&report(&[(BTN_LEFT, false)]), 1, &over("discord")));
    assert!(again.notice.is_none() && !rt.stroke_active);
    let mut none = runtime(Vec::new());
    let Begun::NoMode(first) = none.begin(&report(&[]), 0, &over("")) else {
        panic!("there is no mode to deliver for");
    };
    assert!(first.unwrap().starts_with("transport: start -> Mouse over (nothing under the pointer)"));
    assert!(matches!(none.begin(&report(&[]), 0, &over("")), Begun::NoMode(None)));
}

#[test]
fn a_tablet_mode_falls_back_over_an_application_without_a_pen() {
    let mut rt = runtime(vec![mode("Draw", Output::Tablet)]);
    let p = ready(rt.begin(&report(&[]), 0, &over("discord")));
    assert!(p.fallback && p.output == Output::Mouse);
    assert_eq!(rt.check_fallback(&over("discord")), (true, true));
    assert_eq!(rt.check_fallback(&over("discord")), (true, false));
    let p = ready(rt.begin(&report(&[]), 1, &over("krita")));
    assert!(!p.fallback && p.output == Output::Tablet);
    assert_eq!(rt.check_fallback(&over("krita")), (false, true));
}

#[test]
fn a_swallowed_release_is_tracked_but_not_passed_on() {
    let mut rt = runtime(two());
    rt.capture.begin(0);
    assert!(matches!(rt.begin(&report(&[(SIDE, true)]), 1, &over("")), Begun::Consumed));
    rt.capture.end_capture();
    rt.capture.swallow.push(SIDE);
    rt.buttons.held.push(SIDE);
    let p = ready(rt.begin(&report(&[(SIDE, false)]), 2, &over("")));
    assert!(p.keys.is_empty());
    assert!(!rt.buttons.code_held(SIDE), "the button must not stay held");
    let p = ready(rt.begin(&report(&[(SIDE, false)]), 3, &over("")));
    assert_eq!(p.keys, vec![(SIDE, false)], "only once");
}

fn outcome(pointer_ready: bool) -> Outcome {
    Outcome { taken: None, gesture: ScrollOut::default(), in_proximity: false, pointer_ready }
}

#[test]
fn a_prepared_report_becomes_steps() {
    let mut rt = runtime(two());
    let r = Report { other_relative: vec![(REL_WHEEL, 1)], ..report(&[(BTN_RIGHT, true)]) };
    let p = ready(rt.begin(&r, 0, &over("discord")));
    let steps = rt.finish(p, &r, outcome(true), "discord", 0);
    assert_eq!(
        steps,
        vec![
            Step::TrackPixels,
            Step::PlacePointer { counts: true },
            Step::Relative { sink: Sink::Pointer, code: REL_WHEEL, value: 1 },
            Step::Key { sink: Sink::Pointer, code: BTN_RIGHT, pressed: true },
            Step::Flush { sink: Sink::Pointer },
        ]
    );
}

#[test]
fn a_hovering_scroll_freezes_the_pen_where_that_is_needed() {
    let mut rt = runtime(vec![mode("Draw", Output::Tablet)]);
    rt.tablet_clicks = false;
    let wheel = Report { other_relative: vec![(REL_WHEEL, 1)], ..report(&[]) };
    let p = ready(rt.begin(&wheel, 0, &over("krita")));
    let steps = rt.finish(p, &wheel, outcome(true), "krita", 0);
    assert_eq!(steps[0], Step::AdvancePen { frozen: true });
    let p = ready(rt.begin(&report(&[]), 1, &over("krita")));
    let steps = rt.finish(p, &report(&[]), outcome(true), "krita", 299_999);
    assert_eq!(steps[0], Step::AdvancePen { frozen: true });
    let p = ready(rt.begin(&report(&[]), 2, &over("krita")));
    let steps = rt.finish(p, &report(&[]), outcome(true), "krita", 300_000);
    assert_eq!(
        steps,
        vec![
            Step::AdvancePen { frozen: false },
            Step::LiftInactive,
            Step::Pen,
            Step::FlushTablet
        ]
    );
}

#[test]
fn a_wheel_nothing_claims_is_untouched_and_other_axes_survive() {
    let axes = vec![(REL_WHEEL, 1), (0x09, 7)];
    assert_eq!(passthrough_wheel(&axes, None), axes);
    let left = WheelLeft { vertical: Some(60), horizontal: None };
    assert_eq!(passthrough_wheel(&axes, Some(left)), vec![(REL_WHEEL_HI_RES, 60), (0x09, 7)]);
    let gesture = ScrollOut { notch_x: 0, notch_y: 1, hi_x: 0, hi_y: 120 };
    assert_eq!(emit_scroll(gesture), vec![(REL_WHEEL, 1), (REL_WHEEL_HI_RES, 120)]);
    assert!(gesture.any() && !ScrollOut::default().any());
    assert!(scroll_due(SCROLL_INTERVAL_US, 0) && !scroll_due(SCROLL_INTERVAL_US - 1, 0));
}

#[test]
fn a_pen_left_in_proximity_is_lifted_before_the_pointer_moves() {
    let steps = deliver(&Delivery {
        output: Output::Relative,
        fallback: false,
        keys: Vec::new(),
        wheel: Vec::new(),
        gesture: ScrollOut::default(),
        stroke_active: false,
        frozen: false,
        tablet_clicks: false,
        in_proximity: true,
        pointer_ready: true,
    });
    assert_eq!(
        steps,
        vec![
            Step::LiftAll,
            Step::MoveMouse { tablet_scale: false },
            Step::Flush { sink: Sink::Mouse }
        ]
    );
}

#[test]
fn a_stroke_never_starts_a_freeze() {
    let mut f = ScrollFreeze {
        by_default: true,
        overrides: Vec::new(),
        length_us: 10,
        until: None,
    };
    assert!(!f.update("inkscape", true, true, 0));
    assert!(f.update("inkscape", false, true, 0));
    assert!(!f.update("inkscape", false, false, 10));
}

#[test]
fn time_never_stands_still() {
    let mut rt = runtime(two());
    assert_eq!(rt.report_time(5_000), 5_000);
    assert_eq!(rt.report_time(5_000), 5_001);
    assert_eq!(rt.report_time(3), 5_002);
    assert_eq!(rt.tick_time(), 5_002 + TICK_US);
}

#[test]
fn a_panic_can_always_be_taken_back() {
    let mut rt = runtime(two());
    let ask = |rt: &mut Runtime, c: Command, device: bool| {
        match rt.handle_request(Request::Command(c), 0, "", device) {
            Reaction::Inert(step) => step,
            other => panic!("{other:?}"),
        }
    };
    assert_eq!(ask(&mut rt, Command::Panic, true), InertStep::Release);
    assert!(rt.inert);
    assert_eq!(ask(&mut rt, Command::SetEnabled(false), true), InertStep::Nothing);
    assert_eq!(ask(&mut rt, Command::Panic, true), InertStep::TryGrab);
    rt.grabbed(false);
    assert!(rt.inert, "the state is what happened, not what was asked for");
    assert_eq!(ask(&mut rt, Command::SetEnabled(true), true), InertStep::TryGrab);
    rt.grabbed(true);
    assert!(!rt.inert);
    rt.set_inert(true, false);
    assert_eq!(ask(&mut rt, Command::Panic, false), InertStep::AwaitDevice);
    assert!(!rt.inert);
}

#[test]
fn a_switch_during_a_stroke_waits_for_its_end() {
    let mut rt = runtime(two());
    rt.stroke_active = true;
    let r = rt.handle_request(Request::Command(Command::Cycle), 0, "", true);
    assert!(matches!(r, Reaction::Switch(Switched::Queued(1))), "{r:?}");
    assert!(rt.flush_deferred_switch().is_none());
    rt.stroke_active = false;
    let a = rt.flush_deferred_switch().unwrap();
    let notice = announce(&a, 2);
    assert_eq!(notice.line, "mode 1 -> 2 — Draw (Tablet)");
    assert_eq!((notice.summary.as_str(), notice.body.as_str()), ("Draw  (Tablet)", "mode 2 of 2"));
    assert_eq!(announce_queued(1).summary, "mode 2 queued");
    let r = rt.handle_request(Request::Command(Command::Mode(2)), 0, "", true);
    assert!(matches!(r, Reaction::Switch(Switched::Nothing)), "already there");
}

#[test]
fn a_rule_switches_on_arrival_and_yields_to_the_user() {
    let mut rt = runtime(two());
    rt.stroke_active = true;
    assert!(matches!(rt.auto_switch("krita"), Switched::Nothing), "never during a stroke");
    rt.stroke_active = false;
    assert!(matches!(rt.auto_switch("krita"), Switched::Done(a) if a.to == 1));
    let r = rt.handle_request(Request::Command(Command::Mode(1)), 0, "krita", true);
    assert!(matches!(r, Reaction::Switch(Switched::Done(a)) if a.to == 0));
    assert!(matches!(rt.auto_switch("krita"), Switched::Nothing));
}

#[test]
fn requests_that_wait_are_noted() {
    let mut rt = runtime(two());
    assert!(matches!(rt.handle_request(Request::Command(Command::Quit), 0, "", true), Reaction::Quit));
    assert!(matches!(
        rt.handle_request(Request::Command(Command::Status), 0, "", true),
        Reaction::PrintStatus
    ));
    assert_eq!(rt.take_reload(false, true), None);
    rt.handle_request(Request::Profile("art".into()), 0, "", true);
    assert_eq!(rt.take_reload(false, false), None, "there is nothing to load from");
    assert_eq!(rt.take_reload(false, true), Some(Some("art".to_string())));
    assert_eq!(rt.take_reload(true, true), Some(None));
    rt.handle_request(Request::Command(Command::Reload), 0, "", true);
    assert!(rt.reload_requested);
    rt.handle_request(Request::CaptureBinding, 5, "", true);
    assert_eq!(rt.capture.until, Some(5 + CAPTURE_WINDOW_US));
    rt.handle_request(Request::CancelCapture, 5, "", true);
    assert_eq!(rt.capture.until, None);
}

#[test]
fn what_is_published_is_what_is_so() {
    let mut rt = runtime(two());
    let mut s = Snapshot::default();
    s.profile = "Art".into();
    s.devices = vec![DeviceInfo { id: "0738:0c08".into(), name: "R.A.T.".into(), managed: true }];
    rt.set_inert(true, true);
    rt.publish(&mut s, 2, true);
    assert!(s.panicked && !s.enabled);
    assert_eq!((s.tablets, s.tablets_placed), (2, true));
    assert_eq!((s.profile.as_str(), s.devices.len()), ("Art", 1));
    assert_eq!((s.mode_slot, s.mode_name.as_str(), s.modes.len()), (1, "Mouse", 2));
    rt.stroke_active = true;
    rt.freeze.until = Some(9);
    rt.lose_device(&mut s);
    assert!(!rt.stroke_active && rt.freeze.until.is_none());
    assert_eq!(s.degraded.reason, "the source device is disconnected");
    regain_device(&mut s);
    assert!(!s.degraded.degraded);
    assert!(degraded_at_start(true, false).unwrap().reason.contains("not confined"));
    assert!(degraded_at_start(true, true).is_none());
    assert_eq!(announcement(Change::Config), Announce::Config);
}

#[test]
fn a_reload_is_adopted_whole() {
    let store = store();
    let id = rat();
    let (fresh, _) = reload(&store, None, None, &id).unwrap();
    let mut rt = runtime(two());
    let mut s = Snapshot::default();
    assert!(rt.adopt(fresh, &mut s), "tablets are to be taken down");
    assert_eq!(rt.modes.slots().len(), 3);
    assert_eq!(rt.freeze.length_us, 300_000);
    assert_eq!((s.profile.as_str(), s.profile_slug.as_str()), ("Art", "art"));
}

#[test]
fn the_status_names_every_slot() {
    let rt = runtime(two());
    let t = TabletStatus { per_screen: true, count: 2, placed: false, active: "DP-2".into() };
    assert_eq!(
        rt.print_status(&t),
        vec![
            "mode 1 — Mouse (active)",
            "  1: Mouse — Mouse via 'raw'",
            "  2: Draw — Tablet via 'raw'",
            "  tablets: 2 — one per screen, pen on DP-2",
            "           NOT confined to their screens — map them in display settings",
        ]
    );
    let t = TabletStatus { per_screen: false, count: 1, placed: true, active: "none".into() };
    assert_eq!(rt.print_status(&t)[3], "  tablet: none — one surface over the desktop");
}

#[test]
fn keyboards_are_watched_for_bound_keys_only() {
    let mut m = mode("Draw", Output::Tablet);
    m.modifier = vec![vec![ALT], vec![BTN_MIDDLE]];
    m.scroll_button = vec![vec![42, ALT]];
    assert_eq!(wanted_keys(&vec![m, mode("Mouse", Output::Mouse)], &mouse_buttons()), vec![42, ALT]);

    let mut m = mode("Draw", Output::Tablet);
    m.modifier = vec![vec![ALT]];
    let mut rt = runtime(vec![m]);
    assert!(rt.rewatch_keyboards());
    assert_eq!(rt.watched_keys, vec![ALT]);
    assert!(!rt.rewatch_keyboards(), "nothing changed");
}

#[test]
fn the_loop_wakes_only_for_a_reason() {
    assert_eq!(deadline(false, false, true), Some(RECONNECT_POLL_US));
    assert_eq!(deadline(true, true, true), Some(TICK_US));
    assert_eq!(deadline(true, false, true), None);
    assert_eq!(deadline(true, false, false), Some(CONFIG_POLL_US));
    assert!(adopts_cursor(false, ADOPT_IDLE_US, 0));
    assert!(!adopts_cursor(true, ADOPT_IDLE_US, 0));
    assert!(!adopts_cursor(false, ADOPT_IDLE_US - 1, 0));

    let mut c = ConfigPoll { last_check: 0, newest: Some(1) };
    assert!(!c.due(CONFIG_POLL_US - 1) && c.due(CONFIG_POLL_US));
    assert!(!c.look(CONFIG_POLL_US, Some(1)));
    assert!(c.look(CONFIG_POLL_US * 2, Some(2)));
}

#[test]
fn a_stall_is_reported_once_and_only_beyond_what_a_filter_holds() {
    let mut w = StallWatch::new();
    assert_eq!(w.batch(0, false, true), None);
    assert_eq!(w.batch(STALL_REPORT_US, false, true), None, "not yet");
    assert_eq!(w.batch(STALL_REPORT_US + 1, false, false), None, "a filter explains it");
    assert_eq!(w.batch(STALL_REPORT_US + 2, false, true), Some(STALL_REPORT_US + 2));
    assert_eq!(w.batch(STALL_REPORT_US + 3, false, true), None, "once");
    assert_eq!(w.batch(STALL_REPORT_US + 4, true, true), None);
    assert!(w.input_since.is_none() && !w.reported);

    let mut s = Stats::default();
    s.count_report(5);
    s.count_report(3);
    assert_eq!((s.reports, s.worst_process_ns), (2, 5));
}

// ---- what a wake calls for -----------------------------------------------------------------

#[test]
fn commands_are_acted_on_before_motion_is_read() {
    let everything = Wake::Ready(0b11011);
    assert_eq!(
        jobs(everything, true, true, 2),
        vec![Job::Keyboard(0), Job::Keyboard(1), Job::Control, Job::Device]
    );
}

#[test]
fn a_missing_config_watch_moves_the_keyboards_up() {
    let wake = Wake::Ready(0b0100);
    assert_eq!(jobs(wake, true, false, 1), vec![Job::Keyboard(0)]);
    assert_eq!(jobs(wake, true, true, 1), vec![]);
}

#[test]
fn a_wait_that_ran_out_reads_nothing() {
    assert_eq!(jobs(Wake::Timeout, true, true, 3), vec![]);
    assert_eq!(jobs(Wake::Timeout, false, true, 3), vec![Job::Reopen]);
    assert_eq!(jobs(Wake::Interrupted, true, false, 40), vec![]);
    assert_eq!(jobs(Wake::Interrupted, false, true, 40), vec![]);
}

#[test]
fn filters_tick_only_while_something_is_outstanding() {
    assert!(tick_due(Wake::Timeout, true, false));
    assert!(!tick_due(Wake::Timeout, false, false));
    assert!(!tick_due(Wake::Timeout, true, true));
    assert!(!tick_due(Wake::Ready(1), true, false));
}
