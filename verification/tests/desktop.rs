//! The desktop, the command-line client and the scratch canvas.

use stabmouse::canvas::{
    clip, offset, speed_step, Edge, Point, Segment, SpeedStep, Stroke, BUFFER, HEIGHT, WIDTH,
};
use stabmouse::cli::{
    as_json, as_string, device_line, escape, mode_json, mode_line, print_json, print_status,
    which_mode, Error as ClientError, ExitCode, Variant, Which, ACCESS_DENIED, SERVICE_UNKNOWN,
};
use stabmouse::daemon::modes::ModeInfo;
use stabmouse::daemon::service::DeviceInfo;
use stabmouse::desktop::{
    children, device_path, find_device, mapped_output, outputs, Error, Output, OutputEvent, Partial,
};
use stabmouse::dict::Dict;
use zbus::zvariant::{OwnedValue, Value};

fn out(name: &str, x: i32, y: i32, w: i32, h: i32) -> Output {
    Output { name: name.to_string(), description: None, x, y, width: w, height: h }
}

#[test]
fn containment_excludes_the_far_edge() {
    // The far edge belongs to the neighbouring screen. Treating it as inclusive would put one
    // column of pixels on both, and an edge crossing would oscillate there.
    let o = out("DP-2", 1920, 0, 1280, 1024);
    assert!(o.contains(1920, 0));
    assert!(o.contains(3199, 1023));
    assert!(!o.contains(3200, 0));
    assert!(!o.contains(1919, 0));
    assert!(!o.contains(1920, 1024));
}

#[test]
fn adjacent_screens_tile_without_gap_or_overlap() {
    let left = out("HDMI-A-1", 0, 0, 1920, 1080);
    let right = out("DP-2", 1920, 0, 1280, 1024);
    assert_eq!(left.right_edge(), right.x);
    assert!(!left.contains(1920, 500));
    assert!(right.contains(1920, 500));
    assert_eq!(right.bottom_edge(), 1024);
}

#[test]
fn the_children_of_an_introspection_are_its_nodes() {
    let xml = "<node>\n <interface name=\"x\"/>\n <node name=\"event3\"/>\n <node name=\"event12\"/>\n</node>";
    assert_eq!(children(xml), vec!["event3", "event12"]);
    assert!(children("<node></node>").is_empty());
    assert_eq!(children("<node name=\"cut off<node name=\"whole\""), vec!["whole"]);
}

#[test]
fn a_device_is_found_by_the_name_it_was_given() {
    let objects = vec![
        ("event1".to_string(), None),
        ("event2".to_string(), Some("StabMouse tablet DP-2".to_string())),
        ("event3".to_string(), Some("StabMouse tablet DP-2".to_string())),
    ];
    assert_eq!(find_device(&objects, "StabMouse tablet DP-2").unwrap(), "event2");
    let e = find_device(&objects, "nothing").unwrap_err();
    assert_eq!(e.message(), "no input device named \"nothing\" is known to the compositor");
    assert_eq!(device_path("event2"), "/org/kde/KWin/InputDevice/event2");
    assert_eq!(mapped_output(""), None);
    assert_eq!(mapped_output("DP-2").as_deref(), Some("DP-2"));
}

#[test]
fn every_desktop_error_says_what_is_wrong() {
    assert_eq!(
        Error::NoWayland.message(),
        "not running under Wayland (WAYLAND_DISPLAY is unset)"
    );
    assert_eq!(
        Error::Wayland("x".into()).message(),
        "could not talk to the Wayland compositor: x"
    );
    assert_eq!(Error::Bus("x".into()).message(), "could not reach the session bus: x");
    assert_eq!(
        Error::Unsupported.message(),
        "this desktop does not support mapping a tablet to a screen from outside its settings"
    );
}

fn partial(name: Option<&str>, x: i32, y: i32) -> Partial {
    let mut p = Partial::new();
    p.tell(OutputEvent::Geometry(x, y));
    p.tell(OutputEvent::Mode(false, 640, 480));
    p.tell(OutputEvent::Mode(true, 1920, 1080));
    if let Some(n) = name {
        p.tell(OutputEvent::Name(n.into()));
    }
    p.tell(OutputEvent::Description("a screen".into()));
    p.tell(OutputEvent::Other);
    p.tell(OutputEvent::Done);
    p
}

#[test]
fn screens_are_listed_left_to_right_then_top_to_bottom() {
    let unfinished = {
        let mut p = Partial::new();
        p.tell(OutputEvent::Name("HDMI-A-9".into()));
        p.tell(OutputEvent::Mode(true, 1920, 1080));
        p
    };
    let found = outputs(vec![
        partial(Some("DP-2"), 1920, 0),
        unfinished,
        partial(Some("DP-3"), 0, 1080),
        partial(None, 5, 5),
        partial(Some("DP-1"), 0, 0),
    ]);
    let names: Vec<&str> = found.iter().map(|o| o.name.as_str()).collect();
    assert_eq!(names, vec!["DP-1", "DP-3", "DP-2"]);
    assert_eq!((found[0].width, found[0].height), (1920, 1080));
    assert_eq!(found[0].description.as_deref(), Some("a screen"));
}

// ---- the command-line client -----------------------------------------------------------------

#[test]
fn json_escaping_survives_quotes_and_backslashes() {
    assert_eq!(escape(r#"a"b\c"#), r#"a\"b\\c"#);
}

#[test]
fn json_values_keep_their_type() {
    let num = OwnedValue::try_from(Value::from(2u32)).unwrap();
    let yes = OwnedValue::try_from(Value::from(true)).unwrap();
    let text = OwnedValue::try_from(Value::from("Draw")).unwrap();

    // Unquoted, so a consumer does not have to strip quotes and re-parse.
    assert_eq!(as_json(Some(&num)), "2");
    assert_eq!(as_json(Some(&yes)), "true");
    assert_eq!(as_json(Some(&text)), r#""Draw""#);
    assert_eq!(as_json(None), "null");
}

#[test]
fn values_of_other_types_stay_readable() {
    let other = OwnedValue::try_from(Value::from(7u64)).unwrap();
    assert!(as_string(Some(&other)).contains('7'));
    assert_eq!(as_string(None), "—");
    assert_eq!(as_string(Some(&OwnedValue::try_from(Value::from(false)).unwrap())), "false");
    assert_eq!(Variant::Other("a\"b".into()).json(), "\"a\\\"b\"");
    assert_eq!(Variant::Number(3).plain(), "3");
}

#[test]
fn a_numeric_argument_is_a_slot_and_a_word_is_a_name() {
    assert!(matches!(which_mode("2"), Which::Slot(2)));
    assert!(matches!(which_mode("draw"), Which::Name(n) if n == "draw"));
}

fn status() -> Dict<OwnedValue> {
    let mut map = Dict::new();
    let mut put = |k: &str, v: Value<'_>| map.insert(k.to_string(), OwnedValue::try_from(v).unwrap());
    put("mode_slot", Value::from(2u32));
    put("mode_name", Value::from("Draw"));
    put("profile", Value::from("art"));
    put("panicked", Value::from(false));
    put("tablets", Value::from(2u32));
    put("tablets_placed", Value::from(true));
    put("degraded", Value::from(true));
    put("degraded_reason", Value::from("the source device is disconnected"));
    map
}

#[test]
fn a_status_is_printed_for_people() {
    assert_eq!(
        print_status(&status()),
        vec![
            "mode 2 — Draw",
            "profile:  art",
            "state:    active",
            "tablets:  2 (confined to their screens)",
            "degraded: the source device is disconnected",
            "version:  —",
        ]
    );
}

#[test]
fn a_status_is_printed_in_key_order_for_machines() {
    let mut map = Dict::new();
    map.insert("b".to_string(), OwnedValue::try_from(Value::from(true)).unwrap());
    map.insert("a".to_string(), OwnedValue::try_from(Value::from("x\"y")).unwrap());
    assert_eq!(print_json(&map), r#"{"a":"x\"y","b":true}"#);
    assert_eq!(print_json(&Dict::new()), "{}");
}

#[test]
fn a_device_is_shown_in_columns() {
    let mut d = DeviceInfo { id: "0738:0c08".into(), name: "R.A.T. 8+".into(), managed: true };
    assert_eq!(device_line(&d), format!("{:24} {:40} managed", "0738:0c08", "R.A.T. 8+"));
    d.managed = false;
    d.id = "an identity longer than its column".into();
    assert_eq!(
        device_line(&d),
        format!("an identity longer than its column {:40} ignored", "R.A.T. 8+")
    );
}

#[test]
fn a_mode_slot_is_shown_both_ways() {
    let m = ModeInfo {
        slot: 2,
        name: "Draw".into(),
        output: "tablet".into(),
        preset: "inking".into(),
    };
    assert_eq!(mode_line(&m), "2: Draw — tablet via 'inking'");
    assert_eq!(
        mode_json(&m),
        r#"{"slot":2,"name":"Draw","output":"tablet","preset":"inking"}"#
    );
}

// ---- the canvas ------------------------------------------------------------------------------

fn p(x: u64, y: u64) -> Point {
    Point { x, y }
}

#[test]
fn a_stamp_stays_on_the_canvas() {
    assert_eq!(clip(-5, 3, WIDTH), (0, 3));
    assert_eq!(clip(1170, 2000, WIDTH), (1170, 1179));
    assert_eq!(clip(-9, -2, WIDTH), (0, 0));
    assert_eq!(offset(0, 0), 0);
    assert_eq!(offset(WIDTH - 1, HEIGHT - 1) + 4, BUFFER);
    assert_eq!(BUFFER, WIDTH * HEIGHT * 4);
}

#[test]
fn slow_motion_is_banked_and_the_tail_of_a_stroke_is_laid() {
    let mut s = Stroke::new();
    assert_eq!(s.press(p(1, 1), true), Edge::Began);
    let before = s.pull(p(1, 1), None);
    assert_eq!(before, Some(p(1, 1)));
    assert_eq!(s.ink(before, false), None);
    assert_eq!(s.finish(p(1, 1), false), None);

    assert_eq!(s.press(p(2, 2), true), Edge::Unchanged);
    let before = s.pull(p(2, 2), Some(p(9, 9)));
    assert_eq!(
        s.ink(before, true),
        Some(Segment { from: p(1, 1), to: p(9, 9) }),
        "drawn from where ink was last laid, not from the previous sample"
    );
    s.finish(p(2, 2), false);

    assert_eq!(s.press(p(3, 3), false), Edge::Ended);
    let before = s.pull(p(3, 3), None);
    assert_eq!(s.ink(before, true), None, "nothing is drawn with the button up");
    assert_eq!(
        s.finish(p(3, 3), true),
        Some(Segment { from: p(9, 9), to: p(3, 3) }),
        "but the tail of the stroke is"
    );
    assert_eq!(s.ink_from, None);
    s.clear();
    assert_eq!(s, Stroke::new());
}

#[test]
fn the_ghost_follows_the_cursor() {
    let mut s = Stroke::new();
    assert_eq!(s.ghost_start(), None);
    assert_eq!(s.ghost(p(1, 1), true), None);
    assert_eq!(s.ghost(p(2, 2), false), None);
    assert_eq!(s.ghost(p(3, 3), true), Some(Segment { from: p(1, 1), to: p(3, 3) }));
    assert_eq!(s.ghost_start(), Some(p(3, 3)));
}

#[test]
fn a_stalled_point_holds_its_speed() {
    assert_eq!(speed_step(false, true, true), SpeedStep::Instant);
    assert_eq!(speed_step(true, true, true), SpeedStep::Banked);
    assert_eq!(speed_step(true, false, true), SpeedStep::Discard);
    assert_eq!(speed_step(true, false, false), SpeedStep::Bank);
}

#[test]
fn exit_codes_reach_the_process() {
    // The contract scripts depend on: absent daemon is 4, not 1.
    assert_eq!(ClientError::NoDaemon.exit_code(), ExitCode::NoDaemon);
    assert_eq!(ClientError::NoDaemon.exit_code().code(), 4);
    assert_eq!(ExitCode::Success.code(), 0);
}

#[test]
fn an_error_of_the_bus_tells_which_failure_it_is() {
    let gone = ClientError::of(Some(SERVICE_UNKNOWN), "gone".into());
    assert_eq!(gone.message(), "no StabMouse daemon is running");

    let denied = ClientError::of(Some(ACCESS_DENIED), "not yours".into());
    assert_eq!(denied.exit_code().code(), 3);
    assert_eq!(denied.message(), "permission denied: not yours");

    let other = ClientError::of(Some("org.freedesktop.DBus.Error.NoReply"), "timed out".into());
    assert_eq!(other.exit_code().code(), 1);
    assert_eq!(other.message(), "timed out");
    assert_eq!(ClientError::of(None, "no bus".into()).exit_code(), ExitCode::Failure);
}
