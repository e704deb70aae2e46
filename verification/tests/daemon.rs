//! The daemon's state machines: switching, control, focus, tablets and supervision.

use stabmouse::config::schema::{Output, Passthrough};
use stabmouse::daemon::auto::AutoSwitch;
use stabmouse::daemon::control::Command;
use stabmouse::daemon::focus::{
    explain, needs_scroll_freeze, parse_layout, script_accepted, supports_tablet, Focus, Signal,
    Under, Win,
};
use stabmouse::daemon::inspect::{
    classify, conclude, field_six, remembered, scan_targets, settle, Scanner,
};
use stabmouse::daemon::keys::{binding_name, code_for};
use stabmouse::daemon::modes::{Action, Mode, ModeInfo, Modes, Switch};
use stabmouse::daemon::pidfile::{already_running, judge, recorded_pid, Recorded};
use stabmouse::daemon::routing::{
    BTN_MIDDLE, BTN_RIGHT, REL_HWHEEL, REL_HWHEEL_HI_RES, REL_WHEEL, REL_WHEEL_HI_RES,
};
use stabmouse::daemon::service::{
    class_signal, get_status, is_fallback, list_presets, set_mode, set_mode_by_name, set_profile,
    toggle_mode, window_pid, Request, Snapshot,
};
use stabmouse::daemon::startup::{BTN_LEFT, REL_X, REL_Y};
use stabmouse::daemon::tablets::{
    adoption_step, build_tablets, device_name, Adoption, DeviceStep, Screen, Tablet, Tablets,
    ADOPTION_POLL_US, ADOPTION_TIMEOUT_US, POINTER_LOOKS, POINTER_POLL_US,
};
use stabmouse::daemon::wait::{timeout_ms, woken, Wake};
use stabmouse::daemon::watchdog::{check_interval_us, Heartbeat, Work, DEFAULT_TIMEOUT_MS};
use stabmouse::dict::Dict;

// ---- auto-switching --------------------------------------------------------------------------

fn rules() -> AutoSwitch {
    AutoSwitch::new(vec![("krita".into(), 2), ("blender".into(), 3)])
}

#[test]
fn no_rules_means_nothing_ever_happens() {
    let mut a = AutoSwitch::default();
    assert!(a.is_empty());
    assert_eq!(a.entering("krita"), None);
}

#[test]
fn entering_a_ruled_window_asks_for_its_mode() {
    let mut a = rules();
    assert_eq!(a.entering("krita"), Some(2));
    assert_eq!(a.entering("blender"), Some(3));
}

#[test]
fn staying_in_a_window_asks_only_once() {
    // Otherwise the rule would re-assert itself every sample and a hotkey could never win.
    let mut a = rules();
    assert_eq!(a.entering("krita"), Some(2));
    assert_eq!(a.entering("krita"), None);
    assert_eq!(a.entering("krita"), None);
}

#[test]
fn an_unruled_window_changes_nothing() {
    let mut a = rules();
    assert_eq!(a.entering("firefox"), None);
}

#[test]
fn a_manual_switch_outranks_the_rule_while_you_stay() {
    let mut a = rules();
    assert_eq!(a.entering("krita"), Some(2));
    a.overrule("krita");
    // Still in the same window, so the rule must stay quiet.
    assert_eq!(a.entering("krita"), None);
}

#[test]
fn leaving_and_returning_restores_the_rule() {
    let mut a = rules();
    a.entering("krita");
    a.overrule("krita");
    assert_eq!(a.entering("firefox"), None, "firefox has no rule");
    assert_eq!(
        a.entering("krita"),
        Some(2),
        "arriving afresh is a new decision, so the rule speaks again"
    );
}

#[test]
fn an_overrule_only_covers_the_window_it_was_made_in() {
    let mut a = rules();
    a.entering("krita");
    a.overrule("krita");
    assert_eq!(a.entering("blender"), Some(3), "another window's rule is unaffected");
}

#[test]
fn matching_ignores_case() {
    // Compositors report classes with whatever capitalisation the application chose.
    let mut a = AutoSwitch::new(vec![("Krita".into(), 2)]);
    assert_eq!(a.entering("krita"), Some(2));
}

#[test]
fn nothing_under_the_position_is_not_a_window_change() {
    // A gap between windows must not count as leaving.
    let mut a = rules();
    a.entering("krita");
    a.overrule("krita");
    assert_eq!(a.entering(""), None);
    assert_eq!(a.entering("krita"), None, "the empty class did not move us anywhere");
}

// ---- control ---------------------------------------------------------------------------------

#[test]
fn every_command_survives_a_round_trip() {
    for c in [
        Command::Cycle,
        Command::CyclePrev,
        Command::Flip,
        Command::Mode(3),
        Command::SetEnabled(true),
        Command::SetEnabled(false),
        Command::Panic,
        Command::Quit,
        Command::Status,
    ] {
        assert_eq!(Command::parse(&c.wire()), Some(c.clone()), "{c:?}");
    }
}

#[test]
fn friendly_aliases_are_accepted() {
    assert_eq!(Command::parse("switch"), Some(Command::Cycle));
    assert_eq!(Command::parse("next"), Some(Command::Cycle));
    assert_eq!(Command::parse("toggle"), Some(Command::Flip));
    assert_eq!(Command::parse("stop"), Some(Command::Quit));
}

#[test]
fn whitespace_and_case_of_arguments_are_tolerated() {
    assert_eq!(Command::parse("  mode   2  "), Some(Command::Mode(2)));
}

#[test]
fn nonsense_is_rejected_rather_than_guessed_at() {
    for bad in ["", "   ", "explode", "mode", "mode x", "mode -1"] {
        assert_eq!(Command::parse(bad), None, "{bad:?} should not parse");
    }
}

#[test]
fn a_reload_and_a_signed_slot_are_read_too() {
    assert_eq!(Command::parse(&Command::Reload.wire()), Some(Command::Reload));
    assert_eq!(Command::parse("mode +2"), Some(Command::Mode(2)));
    assert_eq!(Command::parse("mode 99999999999999999999999"), None);
}

// ---- focus -----------------------------------------------------------------------------------

fn under(class: &str, signal: Option<Signal>) -> Under {
    Under { class: class.into(), signal }
}

fn none() -> Vec<(String, bool)> {
    Vec::new()
}

#[test]
fn a_pen_capable_toolkit_is_not_enough_on_its_own() {
    // A Wayland application with no tablet handling receives *nothing* from a pen, so in a
    // drawing mode the whole desktop would stop responding.
    assert!(!supports_tablet(&under("org.kde.dolphin", Some(Signal::QtWayland)), &none()));
    assert!(!supports_tablet(&under("plasmashell", Some(Signal::QtWayland)), &none()));
    assert!(!supports_tablet(&under("org.gnome.Nautilus", Some(Signal::Gtk)), &none()));
    assert!(!supports_tablet(&under("some-sdl3-game", Some(Signal::Sdl3)), &none()));
}

#[test]
fn known_drawing_applications_get_the_pen_whatever_their_toolkit() {
    for class in ["krita", "blender", "gimp", "inkscape", "mypaint", "xournalpp"] {
        assert!(supports_tablet(&under(class, Some(Signal::QtWayland)), &none()), "{class}");
        assert!(supports_tablet(&under(class, None), &none()), "{class} without inspection");
    }
}

#[test]
fn a_versioned_class_still_matches_its_application() {
    // Compositors report `gimp-2.10`, not `gimp`.
    assert!(supports_tablet(&under("gimp-2.10", Some(Signal::Gtk)), &none()));
    assert!(supports_tablet(&under("Krita", None), &none()), "and case does not matter");
    // But a different program that merely starts with the same letters must not match.
    assert!(!supports_tablet(&under("gimpshop-clone", None), &none()));
}

#[test]
fn an_x11_window_always_gets_the_pen() {
    // X's core pointer emulation gives every client working clicks and hover from tablet input.
    assert!(supports_tablet(&under("clipstudiopaint.exe", Some(Signal::X11)), &none()));
    assert!(supports_tablet(&under("some-old-x11-app", Some(Signal::X11)), &none()));
}

#[test]
fn unproven_and_absent_both_take_the_pointer() {
    // A wrong pen loses clicking entirely and silently; a wrong pointer loses pressure visibly.
    assert!(!supports_tablet(&under("firefox", Some(Signal::CannotBind)), &none()));
    assert!(!supports_tablet(&under("vivaldi-stable", Some(Signal::Chromium)), &none()));
    assert!(!supports_tablet(&under("discord", None), &none()));
}

#[test]
fn chromium_is_not_mistaken_for_the_toolkits_it_maps() {
    // Vivaldi maps Qt's Wayland client and GTK's gdk for *theming*, while its windows belong to
    // its own code. The toolkit tier must not answer for it.
    let vivaldi = "7f00-7f01 r-xp 00000000 08:02 1 /usr/lib/libwayland-client.so.0\n\
                   7f02-7f03 r-xp 00000000 08:02 2 /usr/lib/libQt6WaylandClient.so.6\n\
                   7f04-7f05 r-xp 00000000 08:02 3 /usr/lib/libgdk-3.so.0\n\
                   7f06-7f07 r--p 00000000 08:02 4 /opt/vivaldi/resources.pak\n";
    let c = classify(vivaldi);
    assert!(c.chromium);
    assert_eq!(settle(&c), Some(Signal::Chromium));
    // An Electron shell maps gdk plus the v8 snapshot, and no Qt.
    let codium = "7f00-7f01 r-xp 00000000 08:02 1 /usr/lib/libwayland-client.so.0\n\
                  7f02-7f03 r-xp 00000000 08:02 2 /usr/lib/libgdk-3.so.0\n\
                  7f04-7f05 r--p 00000000 08:02 3 /usr/share/codium/v8_context_snapshot.bin\n";
    assert!(classify(codium).chromium);
    // And a plain Qt application must not trip the marker.
    let konsole = "7f00-7f01 r-xp 00000000 08:02 1 /usr/lib/libwayland-client.so.0\n\
                   7f02-7f03 r-xp 00000000 08:02 2 /usr/lib/libQt6WaylandClient.so.6\n";
    assert!(!classify(konsole).chromium);
}

#[test]
fn the_builtin_list_outranks_inspection() {
    // Krita in a Flatpak: its libraries are unreadable from outside the sandbox, so inspection
    // can be arbitrarily wrong about it. The named list keeps its pen anyway.
    assert!(supports_tablet(&under("krita", Some(Signal::CannotBind)), &none()));
    assert!(supports_tablet(&under("blender", Some(Signal::Unproven)), &none()));
}

#[test]
fn nothing_under_the_pointer_uses_the_pointer() {
    assert!(!supports_tablet(&under("", None), &none()));
}

#[test]
fn the_reason_goes_with_the_verdict() {
    let (yes, why) = explain(&under("krita", None), &none());
    assert!(yes && !why.is_empty());
    let (no, other) = explain(&under("discord", None), &none());
    assert!(!no);
    assert_ne!(why, other);
}

#[test]
fn only_applications_that_filter_the_mouse_freeze_the_pen() {
    assert!(needs_scroll_freeze("krita", &none(), false));
    assert!(!needs_scroll_freeze("blender", &none(), false));
}

#[test]
fn an_unlisted_application_is_left_alone_by_default() {
    assert!(!needs_scroll_freeze("inkscape", &none(), false));
    // ...unless the profile asks for the opposite.
    assert!(needs_scroll_freeze("inkscape", &none(), true));
}

#[test]
fn a_scroll_freeze_entry_wins_in_either_direction() {
    let off = vec![("krita".to_string(), false)];
    assert!(!needs_scroll_freeze("krita", &off, false), "a user may switch it off");
    let on = vec![("blender".to_string(), true)];
    assert!(needs_scroll_freeze("blender", &on, false), "and on");
    // An override also beats the profile default.
    let no = vec![("gimp".to_string(), false)];
    assert!(!needs_scroll_freeze("gimp", &no, true));
}

#[test]
fn a_versioned_class_still_matches_the_freeze_list() {
    assert!(needs_scroll_freeze("krita-5.2", &none(), false));
}

fn win(class: &str, signal: Option<Signal>, x: f64, y: f64, width: f64, height: f64) -> Win {
    Win {
        class: class.into(),
        signal,
        x: x.to_bits(),
        y: y.to_bits(),
        width: width.to_bits(),
        height: height.to_bits(),
    }
}

/// What is at a point: which windows hold it is arithmetic, which of them counts is not.
fn window_at(f: &Focus, px: f64, py: f64) -> Option<Under> {
    let inside = f
        .windows()
        .iter()
        .map(|w| {
            let (x, y) = (f64::from_bits(w.x), f64::from_bits(w.y));
            let (width, height) = (f64::from_bits(w.width), f64::from_bits(w.height));
            px >= x && px < x + width && py >= y && py < y + height
        })
        .collect();
    f.window_at(&inside)
}

#[test]
fn the_topmost_window_wins_the_hit_test() {
    let mut f = Focus::default();
    f.set_layout(vec![
        win("below", None, 0.0, 0.0, 1000.0, 1000.0),
        win("above", Some(Signal::QtWayland), 100.0, 100.0, 200.0, 200.0),
    ]);
    // The layout arrives bottom-to-top, so the last containing window is the visible one.
    assert_eq!(window_at(&f, 150.0, 150.0).unwrap().class, "above");
    assert_eq!(window_at(&f, 50.0, 50.0).unwrap().class, "below");
    assert!(window_at(&f, 2000.0, 50.0).is_none(), "a miss must fall to the degraded source");
}

/// The rows whose geometry can be used.
fn rows(text: &str) -> Vec<(String, u32, f64, f64, f64, f64)> {
    parse_layout(text)
        .into_iter()
        .filter_map(|r| {
            let n = |s: &str| s.parse::<f64>().ok().filter(|v| v.is_finite());
            let (x, y, w, h) = (n(&r.x)?, n(&r.y)?, n(&r.width)?, n(&r.height)?);
            if w > 0.0 && h > 0.0 {
                Some((r.class, r.pid, x, y, w, h))
            } else {
                None
            }
        })
        .collect()
}

#[test]
fn a_bad_layout_line_costs_only_itself() {
    let text = "krita\t123\t0\t0\t1920\t1080\nnot a line\ngimp\t456\t1920\t0\t1280\t1024";
    let rows = rows(text);
    assert_eq!(rows.len(), 2);
    assert_eq!(rows[0].0, "krita");
    assert_eq!(rows[1], ("gimp".to_string(), 456, 1920.0, 0.0, 1280.0, 1024.0));
}

#[test]
fn a_zero_sized_window_is_dropped() {
    // A window mid-construction can report empty geometry; hit-testing it would be noise.
    assert!(rows("x\t1\t0\t0\t0\t100").is_empty());
}

#[test]
fn the_external_cursor_is_taken_once() {
    // Consumed, not read: adopting the same report every time would fight the very motion it is
    // meant to reconcile.
    let mut f = Focus::default();
    assert!(f.take_external_cursor().is_none());
    f.report_cursor(100.0f64.to_bits(), 200.0f64.to_bits());
    assert_eq!(f.take_external_cursor(), Some((100.0f64.to_bits(), 200.0f64.to_bits())));
    assert!(f.take_external_cursor().is_none());
}

#[test]
fn what_is_set_is_what_is_under_the_pointer() {
    let mut f = Focus::default();
    assert_eq!(f.get(), under("", None));
    f.set("krita", Some(Signal::QtWayland));
    assert_eq!(f.get(), under("krita", Some(Signal::QtWayland)));
}

#[test]
fn a_user_entry_overrules_everything() {
    let overrides = vec![("firefox".to_string(), true), ("krita".to_string(), false)];
    assert!(supports_tablet(&under("firefox", Some(Signal::CannotBind)), &overrides));
    assert!(!supports_tablet(&under("krita", Some(Signal::QtWayland)), &overrides));
}

#[test]
fn overrides_match_case_insensitively() {
    let overrides = vec![("Firefox".to_string(), true)];
    assert!(supports_tablet(&under("firefox", None), &overrides));
}

#[test]
fn qt_is_recognised_from_a_map() {
    let maps = "7f00-7f01 r-xp 00000000 08:02 1 /usr/lib/libwayland-client.so.0\n\
                7f02-7f03 r-xp 00000000 08:02 2 /usr/lib/libQt6WaylandClient.so.6.9.1\n";
    let c = classify(maps);
    assert!(c.uses_wayland);
    assert_eq!(c.toolkit, Some(Signal::QtWayland));
}

#[test]
fn gtk3_is_recognised_by_gdk_not_gtk() {
    // libgtk-3 does not contain the Wayland code; libgdk-3 does.
    let gtk3 = "7f00-7f01 r-xp 00000000 08:02 1 /usr/lib/libwayland-client.so.0\n\
                7f02-7f03 r-xp 00000000 08:02 2 /usr/lib/libgdk-3.so.0.2405.32\n\
                7f04-7f05 r-xp 00000000 08:02 3 /usr/lib/libgtk-3.so.0.2405.32\n";
    assert_eq!(classify(gtk3).toolkit, Some(Signal::Gtk));

    let gtk4 = "7f00-7f01 r-xp 00000000 08:02 1 /usr/lib/libwayland-client.so.0\n\
                7f02-7f03 r-xp 00000000 08:02 2 /usr/lib/libgtk-4.so.1.1800.4\n";
    assert_eq!(classify(gtk4).toolkit, Some(Signal::Gtk));
}

#[test]
fn sdl2_is_not_sdl3() {
    // SDL2 has no tablet support; only SDL3's Wayland driver binds the tablet manager.
    let maps = "7f00-7f01 r-xp 00000000 08:02 1 /usr/lib/libwayland-client.so.0\n\
                7f02-7f03 r-xp 00000000 08:02 2 /usr/lib/libSDL2-2.0.so.0\n";
    assert_eq!(classify(maps).toolkit, None);
}

#[test]
fn a_sandboxed_toolkit_is_recognised_by_name_alone() {
    // The basename in the map still names the toolkit, and presence is all that is needed.
    let maps = "7f00-7f01 r-xp 00000000 08:02 1 /usr/lib/libwayland-client.so.0\n\
                7f02-7f03 r-xp 00000000 08:02 2 /app/lib/libgdk-3.so.0\n";
    assert_eq!(classify(maps).toolkit, Some(Signal::Gtk));
}

#[test]
fn no_wayland_library_means_x11() {
    let maps = "7f00-7f01 r-xp 00000000 08:02 1 /usr/lib/libX11.so.6\n\
                7f02-7f03 r-xp 00000000 08:02 2 /usr/lib/libc.so.6\n";
    assert!(!classify(maps).uses_wayland);
    assert_eq!(settle(&classify(maps)), Some(Signal::X11));
}

#[test]
fn only_libxul_is_scanned_from_the_map() {
    // The executable is added from the process, not matched here.
    let maps = "7f00-7f01 r-xp 00000000 08:02 1 /usr/lib/libwayland-client.so.0\n\
                7f02-7f03 r-xp 00000000 08:02 2 /usr/lib/firefox/libxul.so\n\
                7f04-7f05 r-xp 00000000 08:02 3 /usr/lib/locale/locale-archive\n\
                7f06-7f07 r-xp 00000000 08:02 4 /usr/lib/libcrypto.so.3\n";
    assert_eq!(classify(maps).scan, vec!["/usr/lib/firefox/libxul.so"]);
}

#[test]
fn an_override_keyed_on_nothing_matches_nothing() {
    let overrides = vec![("".to_string(), true)];
    assert!(!supports_tablet(&under("", None), &overrides));
}

fn sixth(line: &str) -> Option<String> {
    field_six(&line.chars().collect()).map(|v| v.into_iter().collect())
}

#[test]
fn a_path_containing_spaces_survives_parsing() {
    // Truncating at the space made a drawing application look incapable of accepting a pen.
    let line = "7f00-7f01 r-xp 00000000 08:02 1234    /mnt/c730/Programs/Games etc/Steam/blender";
    assert_eq!(
        sixth(line).as_deref(),
        Some("/mnt/c730/Programs/Games etc/Steam/blender")
    );
}

#[test]
fn an_anonymous_mapping_has_no_path() {
    assert_eq!(sixth("7f00-7f01 rw-p 00000000 00:00 0"), None);
}

#[test]
fn a_search_proves_only_what_it_saw_everywhere() {
    assert_eq!(conclude(&vec![Some(false), Some(false)]), Signal::CannotBind);
    assert_eq!(conclude(&vec![Some(false), None]), Signal::Unproven);
    assert_eq!(conclude(&vec![Some(true)]), Signal::Unproven);
}

#[test]
fn each_file_is_searched_once_and_the_executable_last() {
    let mut cache = Dict::new();
    assert_eq!(remembered(&mut cache, "/usr/lib/a", None), None);
    assert_eq!(remembered(&mut cache, "/usr/lib/a", Some(true)), Some(true));
    assert_eq!(remembered(&mut cache, "/usr/lib/a", Some(false)), Some(true));

    let maps = "7f00-7f01 r-xp 00000000 08:02 1 /usr/lib/libwayland-client.so.0\n\
                7f02-7f03 r-xp 00000000 08:02 2 /usr/lib/firefox/libxul.so\n";
    assert_eq!(
        scan_targets(classify(maps), Some("/usr/bin/firefox".into())),
        vec!["/usr/lib/firefox/libxul.so", "/usr/bin/firefox"]
    );
}

#[test]
fn a_string_is_found_across_the_chunks_of_a_file() {
    let mut s = Scanner::new();
    assert!(!s.feed(&b"....zwp_tablet_man".to_vec()));
    assert!(s.feed(&b"ager_v2....".to_vec()));
    let mut t = Scanner::new();
    assert!(!t.feed(&b"zwp_tablet_manager_v1".to_vec()));
}

#[test]
fn a_refused_script_is_told_from_an_accepted_one() {
    assert!(script_accepted("int32 3"));
    assert!(script_accepted("0\n"));
    assert!(!script_accepted("int32 -1"));
    assert!(!script_accepted("nonsense"));
}

// ---- modes -----------------------------------------------------------------------------------

fn mode(name: &str, output: Output) -> Mode {
    Mode {
        name: name.into(),
        output,
        preset: "raw".into(),
        modifier: Vec::new(),
        scroll_button: Vec::new(),
        wheel_binding: Vec::new(),
        passthrough: Passthrough::default(),
    }
}

fn modes(n: usize) -> Modes {
    let slots = (0..n)
        .map(|i| mode(&format!("m{i}"), if i % 2 == 0 { Output::Mouse } else { Output::Tablet }))
        .collect();
    Modes::new(slots, 0)
}

#[test]
fn cycling_visits_every_slot_in_order_and_wraps() {
    let mut m = modes(3);
    let mut seen = vec![m.current_index()];
    for _ in 0..3 {
        let t = m.target_for(Action::Cycle).unwrap();
        m.apply(t);
        seen.push(t);
    }
    assert_eq!(seen, vec![0, 1, 2, 0], "cycling should wrap cleanly");
}

#[test]
fn cycling_backwards_wraps_the_other_way() {
    let mut m = modes(3);
    let t = m.target_for(Action::CyclePrev).unwrap();
    assert_eq!(t, 2);
    m.apply(t);
    assert_eq!(m.target_for(Action::CyclePrev), Some(1));
}

#[test]
fn cycling_is_purely_positional_and_never_depends_on_timing() {
    // The same state gives the same answer, always.
    let m = modes(4);
    for _ in 0..5 {
        assert_eq!(m.target_for(Action::Cycle), Some(1));
    }
}

#[test]
fn flip_returns_to_where_you_came_from() {
    let mut m = modes(4);
    m.apply(2);
    // Came from 0, so a flip goes back to 0 rather than onward to 3.
    assert_eq!(m.target_for(Action::Flip), Some(0));
    m.apply(0);
    assert_eq!(m.target_for(Action::Flip), Some(2), "and back again");
}

#[test]
fn flip_falls_back_to_cycling_before_any_history_exists() {
    let m = modes(3);
    assert_eq!(m.target_for(Action::Flip), Some(1));
}

#[test]
fn direct_select_is_one_based_and_ignores_the_current_slot() {
    let m = modes(3);
    assert_eq!(m.target_for(Action::Select(3)), Some(2));
    assert_eq!(m.target_for(Action::Select(1)), None, "already there");
    assert_eq!(m.target_for(Action::Select(9)), None, "out of range");
    assert_eq!(m.target_for(Action::Select(0)), None, "not zero-based");
}

#[test]
fn a_single_mode_profile_has_nothing_to_switch_to() {
    let m = modes(1);
    assert_eq!(m.target_for(Action::Cycle), None);
    assert_eq!(m.target_for(Action::Flip), None);
}

#[test]
fn a_request_during_a_stroke_is_deferred_not_dropped() {
    let mut m = modes(2);
    let before = m.current_index();

    let switch = m.request(Action::Cycle, true).unwrap();
    assert!(matches!(switch, Switch::Deferred(1)));
    assert_eq!(m.current_index(), before, "the switch must not take effect mid-stroke");

    let applied = m.take_pending().expect("the deferred switch should be waiting");
    assert_eq!(applied.to, 1);
    assert_eq!(m.current_index(), 1);
    assert!(m.take_pending().is_none(), "and it should only fire once");
}

#[test]
fn leaving_tablet_output_is_reported_so_the_pen_can_be_lifted() {
    let mut m = modes(2);
    let to_tablet = m.apply(1);
    assert!(!to_tablet.left_tablet);

    let back_to_mouse = m.apply(0);
    assert!(
        back_to_mouse.left_tablet,
        "leaving tablet output must be flagged, or the target app keeps a hovering pen"
    );
}

#[test]
fn slots_are_described_for_people_and_for_the_bus() {
    let m = modes(2);
    assert_eq!(m.names(), vec!["1: m0 — Mouse via 'raw'", "2: m1 — Tablet via 'raw'"]);
    let infos = m.infos();
    assert_eq!((infos[1].slot, infos[1].output.as_str()), (2, "tablet"));
    assert_eq!(Modes::new(Vec::new(), 4).current_index(), 0);
    assert_eq!(modes(2).current().unwrap().name, "m0");
}

// ---- the bus ---------------------------------------------------------------------------------

fn infos() -> Vec<ModeInfo> {
    vec![
        ModeInfo { slot: 1, name: "Mouse".into(), output: "mouse".into(), preset: "raw".into() },
        ModeInfo { slot: 2, name: "Draw".into(), output: "tablet".into(), preset: "inking".into() },
        ModeInfo { slot: 3, name: "Steady".into(), output: "mouse".into(), preset: "steady".into() },
    ]
}

fn published(slot: u32) -> Snapshot {
    Snapshot {
        profile: "default".into(),
        mode_slot: slot,
        mode_name: "Mouse".into(),
        enabled: true,
        modes: infos(),
        ..Default::default()
    }
}

#[test]
fn toggling_wraps_at_the_last_slot() {
    // Positional cycling, so the slot after the last is the first — not a stop.
    assert_eq!(toggle_mode(&published(3)), 1);
}

#[test]
fn toggling_advances_by_one_elsewhere() {
    assert_eq!(toggle_mode(&published(1)), 2);
}

#[test]
fn a_mode_name_is_matched_case_insensitively() {
    assert_eq!(set_mode_by_name(&published(1), "draw").unwrap(), Command::Mode(2));
}

#[test]
fn an_unknown_mode_name_matches_nothing() {
    let e = set_mode_by_name(&published(1), "nope").unwrap_err();
    assert_eq!(e.message, "no mode named \"nope\"; this profile has Mouse, Draw, Steady");
}

#[test]
fn slots_are_counted_from_one_on_the_bus() {
    assert_eq!(set_mode(0).unwrap_err().message, "mode slots are 1-based");
    assert_eq!(set_mode(2).unwrap(), Command::Mode(2));
}

#[test]
fn a_profile_needs_a_name() {
    assert_eq!(set_profile("  ").unwrap_err().message, "a profile slug is required");
    assert!(matches!(set_profile("art"), Ok(Request::Profile(s)) if s == "art"));
}

#[test]
fn a_process_number_that_cannot_be_read_is_none() {
    assert_eq!(window_pid(" 42 "), 42);
    assert_eq!(window_pid("x"), 0);
}

#[test]
fn the_status_says_when_a_tablet_mode_falls_back() {
    let mut s = published(2);
    assert!(is_fallback(&s, &under("discord", None)));
    assert!(!is_fallback(&s, &under("krita", None)));
    s.mode_slot = 1;
    assert!(!is_fallback(&s, &under("discord", None)));
    assert!(!get_status(&s, &under("krita", None), "1.0").is_empty());
    assert_eq!(list_presets(&s)[1].0, "inking");
}

#[test]
fn a_window_class_is_inspected_once() {
    let mut known = Dict::new();
    let first = class_signal(&mut known, "krita", Some(Signal::QtWayland));
    assert_eq!(first, Some(Signal::QtWayland));
    assert_eq!(class_signal(&mut known, "krita", None), Some(Signal::QtWayland));
}

// ---- keys ------------------------------------------------------------------------------------

#[test]
fn codes_and_names_are_evdevs() {
    assert_eq!(code_for("BTN_SIDE"), Some(evdev::KeyCode::BTN_SIDE.code()));
    assert_eq!(code_for("KEY_LEFTSHIFT"), Some(evdev::KeyCode::KEY_LEFTSHIFT.code()));
    assert_eq!(code_for("NOT_A_KEY"), None);
    assert_eq!(binding_name(evdev::KeyCode::BTN_SIDE.code()), "BTN_SIDE");
    assert_eq!(BTN_LEFT, evdev::KeyCode::BTN_LEFT.code());
    assert_eq!(BTN_RIGHT, evdev::KeyCode::BTN_RIGHT.code());
    assert_eq!(BTN_MIDDLE, evdev::KeyCode::BTN_MIDDLE.code());
    assert_eq!(REL_X, evdev::RelativeAxisCode::REL_X.0);
    assert_eq!(REL_Y, evdev::RelativeAxisCode::REL_Y.0);
    assert_eq!(REL_WHEEL, evdev::RelativeAxisCode::REL_WHEEL.0);
    assert_eq!(REL_HWHEEL, evdev::RelativeAxisCode::REL_HWHEEL.0);
    assert_eq!(REL_WHEEL_HI_RES, evdev::RelativeAxisCode::REL_WHEEL_HI_RES.0);
    assert_eq!(REL_HWHEEL_HI_RES, evdev::RelativeAxisCode::REL_HWHEEL_HI_RES.0);
}

// ---- tablets ---------------------------------------------------------------------------------

fn screens() -> Vec<Screen> {
    vec![
        Screen { name: "HDMI-A-1".into(), x: 0, y: 0, width: 1920, height: 1080 },
        Screen { name: "DP-2".into(), x: 1920, y: 0, width: 1280, height: 1024 },
    ]
}

#[test]
fn the_default_keeps_the_device_across_a_leave() {
    let mut t = Tablet::new("StabMouse tablet handle test".into(), false);
    t.leave();
    assert!(t.present(), "the device outlives leaving tablet output by default");
}

#[test]
fn opting_in_destroys_and_recreates_under_the_same_name() {
    let mut t = Tablet::new("StabMouse tablet handle test".into(), true);
    let name = t.name().to_string();

    let left = t.leave();
    assert!(left.destroy);
    assert!(!t.present(), "the device should be gone after an opted-in leave");

    // The name is the identity a compositor keys per-device settings off.
    assert!(t.ensure(), "it has to be created again");
    assert_eq!(t.name(), name);
    assert!(t.present());
    assert!(!t.ensure(), "and only once");
}

#[test]
fn leaving_twice_is_harmless() {
    let mut t = Tablet::new("StabMouse tablet handle test".into(), true);
    t.leave();
    let again = t.leave();
    assert!(!again.lift && !again.destroy);
    assert!(!t.present());
}

#[test]
fn names_are_stable_and_identify_their_screen() {
    // A device that came back under a different name would silently lose its output mapping.
    let s = screens();
    assert_eq!(device_name(Some(&s[0])), "StabMouse tablet HDMI-A-1");
    assert_eq!(device_name(Some(&s[1])), "StabMouse tablet DP-2");
    assert_eq!(device_name(None), "StabMouse tablet");
}

#[test]
fn a_single_tablet_reports_no_per_screen_behaviour() {
    let t = Tablets::single(false);
    assert_eq!(t.len(), 1);
    assert!(!t.per_screen_active());
    assert!(t.placed());
}

#[test]
fn a_tablet_is_created_for_every_screen() {
    let t = Tablets::per_screen(&screens(), false);
    assert_eq!(t.len(), 2);
    assert!(t.per_screen_active());
    assert_eq!(build_tablets(&Vec::new(), false).len(), 1);
    assert_eq!(build_tablets(&screens(), false).len(), 2);
}

#[test]
fn crossing_a_screen_boundary_switches_the_active_tablet() {
    let mut t = Tablets::per_screen(&screens(), false);
    assert_eq!(t.describe_active(), "StabMouse tablet HDMI-A-1");
    t.advance(1, Some(0));
    assert_eq!(t.describe_active(), "StabMouse tablet DP-2");
}

#[test]
fn only_one_tablet_is_ever_live_at_a_time() {
    let mut t = Tablets::per_screen(&screens(), false);

    // Put the first screen's tool in proximity, then move to the second without a handover.
    t.use_active();
    t.advance(1, None);
    t.use_active();

    assert_eq!(t.lift_inactive(), vec![DeviceStep::Lift(0)]);
    let live = t.tablets.iter().filter(|x| x.in_proximity()).count();
    assert!(live <= 1, "{live} tablets in proximity at once");
}

#[test]
fn lifting_all_leaves_nothing_in_proximity() {
    let mut t = Tablets::per_screen(&screens(), false);
    t.use_active();
    assert!(t.any_in_proximity());

    assert_eq!(t.lift_all(), vec![DeviceStep::Lift(0)]);
    assert!(!t.any_in_proximity(), "mouse transport requires no live pen");
}

#[test]
fn lifting_does_not_destroy_the_device() {
    // If `lift` honoured teardown it would rebuild the device on every sample.
    let mut t = Tablets::per_screen(&screens(), true);
    t.use_active();
    t.lift_all();
    assert!(t.tablets.iter().all(|x| x.present()), "lift must not tear devices down");
}

#[test]
fn leaving_all_destroys_what_was_told_to_be() {
    let mut t = Tablets::per_screen(&screens(), true);
    t.use_active();
    assert_eq!(
        t.leave_all(),
        vec![
            DeviceStep::Lift(0),
            DeviceStep::Destroy(0),
            DeviceStep::Lift(1),
            DeviceStep::Destroy(1)
        ]
    );
    assert_eq!(t.describe_active(), "StabMouse tablet HDMI-A-1 (absent until next used)");
    assert_eq!(t.use_active(), Some(DeviceStep::Create(0)));
    t.set_destroy_on_leave(false);
    assert_eq!(t.leave_all(), vec![DeviceStep::Lift(0)]);
}

#[test]
fn placing_counts_every_tablet() {
    let mut t = Tablets::per_screen(&screens(), false);
    assert!(t.needs_placing());
    t.place(None);
    assert!(!t.placed(), "a compositor without the setting places nothing");
    t.place(Some(&vec![true, false]));
    assert!(!t.placed());
    t.place(Some(&vec![true, true]));
    assert!(t.placed());

    let one = vec![Screen { name: "DP-2".into(), x: 0, y: 0, width: 1280, height: 1024 }];
    let mut single = Tablets::per_screen(&one, false);
    assert!(!single.needs_placing());
    single.place(None);
    assert!(single.placed(), "covering the desktop is the correct placement of one");
}

// ---- waiting ---------------------------------------------------------------------------------

#[test]
fn only_the_ready_descriptor_is_reported() {
    // A loop told merely "something is readable" will read the wrong descriptor and block there.
    let wake = woken(1, false, &vec![false, true]);
    assert!(!wake.has(0), "the quiet pipe must not be reported ready");
    assert!(wake.has(1), "the written-to pipe must be reported ready");
    assert_eq!(wake, Wake::Ready(2));
}

#[test]
fn a_wait_tells_silence_interruption_and_failure_apart() {
    assert_eq!(woken(0, false, &vec![true]), Wake::Timeout);
    assert_eq!(woken(-1, true, &vec![true]), Wake::Interrupted);
    assert_eq!(woken(-1, false, &vec![false]), Wake::Ready(u32::MAX));
    assert!(!Wake::Timeout.has(0) && !Wake::Interrupted.has(99));
    let many = vec![true; 40];
    assert_eq!(woken(40, false, &many), Wake::Ready(u32::MAX));
}

#[test]
fn a_sub_millisecond_deadline_is_rounded_up() {
    assert_eq!(timeout_ms(Some(1)), 1);
    assert_eq!(timeout_ms(Some(0)), 1);
    assert_eq!(timeout_ms(Some(2_000)), 2);
    assert_eq!(timeout_ms(Some(2_001)), 3);
    assert_eq!(timeout_ms(Some(u64::MAX)), i32::MAX);
    assert_eq!(timeout_ms(None), -1);
}

// ---- the watchdog ----------------------------------------------------------------------------

/// Ends the work however the scope is left.
struct Guard<'a>(&'a mut Heartbeat, Option<Work>);

impl<'a> Guard<'a> {
    fn new(beat: &'a mut Heartbeat, now_ms: u64) -> Self {
        let work = beat.work(now_ms);
        Guard(beat, Some(work))
    }
}

impl Drop for Guard<'_> {
    fn drop(&mut self) {
        if let Some(work) = self.1.take() {
            self.0.leave(work);
        }
    }
}

#[test]
fn an_idle_loop_is_never_stuck() {
    // A daemon blocked with nothing to do is the normal resting state.
    let mut beat = Heartbeat::new();
    assert!(beat.stuck_for(0).is_none());
    drop(Guard::new(&mut beat, 0));
    assert!(beat.stuck_for(10_000).is_none());
}

#[test]
fn work_in_progress_reports_its_duration() {
    let mut beat = Heartbeat::new();
    let _work = beat.work(0);
    assert!(beat.stuck_for(0).is_some(), "work under way must be visible to the watchdog");
    assert_eq!(beat.stuck_for(501), Some(500));
}

#[test]
fn an_early_exit_from_the_loop_body_still_ends_the_work() {
    let mut beat = Heartbeat::new();
    for i in 0..3 {
        let _work = Guard::new(&mut beat, i);
        if i == 1 {
            continue;
        }
    }
    assert!(!beat.busy(), "leaving the body by any route must clear the mark");
}

#[test]
fn a_zero_timeout_yields_a_heartbeat_that_still_works() {
    // A zero timeout must not make the loop's calls invalid, only unwatched.
    let mut beat = Heartbeat::new();
    drop(Guard::new(&mut beat, 5));
    assert!(beat.stuck_for(5).is_none());
    let _work = beat.work(5);
    assert!(!beat.wedged(1_000_000, 0));
}

#[test]
fn the_check_interval_stays_within_its_bounds() {
    // A very short timeout must not turn the watchdog into a busy loop, and a very long one must
    // not let the check drift into minutes.
    assert_eq!(check_interval_us(40), 50_000);
    assert_eq!(check_interval_us(2000), 500_000);
    assert_eq!(check_interval_us(600), 150_000);
    assert_eq!(check_interval_us(u64::MAX), 500_000);
    assert_eq!(check_interval_us(601), 150_250);
}

#[test]
fn work_that_never_ends_trips_at_its_timeout() {
    let mut beat = Heartbeat::new();
    let _work = beat.work(1_000);
    assert!(!beat.wedged(1_000 + DEFAULT_TIMEOUT_MS - 1, DEFAULT_TIMEOUT_MS));
    assert!(beat.wedged(1_000 + DEFAULT_TIMEOUT_MS, DEFAULT_TIMEOUT_MS));
}

// ---- the pid file ----------------------------------------------------------------------------

#[test]
fn a_pid_file_names_a_process_or_nothing() {
    assert_eq!(recorded_pid("1234\n"), Some(1234));
    assert_eq!(recorded_pid("soon"), None);
    assert_eq!(judge(7, true), Recorded::Running(7));
    assert_eq!(judge(7, false), Recorded::Stale);
    assert_eq!(
        already_running(7, "/run/x.pid"),
        "another StabMouse daemon is already running (pid 7). Stop it first, or remove /run/x.pid \
         if you are sure it is gone"
    );
}

#[test]
fn a_new_device_is_waited_for_until_it_is_known_or_the_time_is_up() {
    assert_eq!(adoption_step(false, 0, ADOPTION_TIMEOUT_US), Adoption::Wait);
    assert_eq!(adoption_step(false, 1_999_999, ADOPTION_TIMEOUT_US), Adoption::Wait);
    assert_eq!(adoption_step(false, 2_000_000, ADOPTION_TIMEOUT_US), Adoption::GivenUp);
    assert_eq!(adoption_step(true, 9_000_000, ADOPTION_TIMEOUT_US), Adoption::Known);
    assert_eq!(adoption_step(false, 39, POINTER_LOOKS), Adoption::Wait);
    assert_eq!(adoption_step(false, 40, POINTER_LOOKS), Adoption::GivenUp);
    assert_eq!((ADOPTION_POLL_US, POINTER_POLL_US), (5_000, 50_000));
}
