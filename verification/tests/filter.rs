//! The pipeline's timing and the bookkeeping of its stages.

use stabmouse::filter::average::{capacity_for, Entry, Window, MAX_ENTRIES};
use stabmouse::filter::pipeline::{Pipeline, Slot, MAX_DT_US, MIN_DT_US};
use stabmouse::filter::pressure::{
    envelope_step, speed_step, EnvelopeStep, SpeedStep, StallBehaviour, Travel,
};
use stabmouse::filter::scroll::{Gesture, Input, Mode, Plan, Settings};
use stabmouse::filter::snap::{Snap, SnapStep};

const MIN_DT: f64 = 1.0e-4;
const MAX_DT: f64 = 0.1;

fn seconds(us: u64) -> f64 {
    us as f64 / 1_000_000.0
}

fn run(times: &[u64]) -> Vec<(f64, bool)> {
    let mut p = Pipeline::new(vec![]);
    times
        .iter()
        .map(|&t| {
            let r = p.process(t, false);
            (seconds(r.moment.dt_us), r.moment.discontinuity)
        })
        .collect()
}

#[test]
fn first_sample_is_a_discontinuity() {
    let out = run(&[1_000]);
    assert!(out[0].1, "first sample must report a discontinuity");
    assert_eq!(out[0].0, MIN_DT);
}

#[test]
fn duplicate_timestamps_never_yield_zero_dt() {
    let out = run(&[1_000, 1_000, 1_000]);
    for (dt, _) in out {
        assert!(dt >= MIN_DT, "dt must never be below MIN_DT, got {dt}");
    }
}

#[test]
fn time_going_backwards_is_a_discontinuity() {
    let out = run(&[10_000, 5_000]);
    assert!(out[1].1, "backwards time must report a discontinuity");
    assert!(out[1].0 > 0.0);
}

#[test]
fn long_gap_is_a_discontinuity_and_dt_is_clamped() {
    // Ten seconds, as if resuming from suspend.
    let out = run(&[1_000, 10_001_000]);
    assert!(out[1].1);
    assert_eq!(out[1].0, MAX_DT);
}

#[test]
fn normal_interval_passes_through() {
    // 1kHz.
    let out = run(&[1_000, 2_000, 3_000]);
    assert!(!out[1].1);
    assert!((out[1].0 - 0.001).abs() < 1e-12);
}

#[test]
fn a_gap_between_the_ceiling_and_a_discontinuity_is_clamped() {
    let mut p = Pipeline::new(vec![]);
    p.process(0, false);
    let r = p.process(200_000, false);
    assert_eq!(r.moment.dt_us, MAX_DT_US);
    assert!(!r.moment.discontinuity);
    let r = p.process(450_000, false);
    assert!(!r.moment.discontinuity, "a quarter of a second is not beyond one");
    let r = p.process(700_001, false);
    assert!(r.moment.discontinuity);
}

#[test]
fn discontinuity_resets_every_stage() {
    let mut resets = 0;
    let mut p = Pipeline::new(vec![Slot { name: "reset-spy".into(), enabled: true }]);

    // First sample counts as a discontinuity.
    resets += usize::from(p.process(1_000, false).moment.discontinuity);
    assert_eq!(resets, 1);

    // Normal interval: no reset.
    resets += usize::from(p.process(2_000, false).moment.discontinuity);
    assert_eq!(resets, 1);

    // Ten-second gap: reset.
    resets += usize::from(p.process(10_002_000, false).moment.discontinuity);
    assert_eq!(resets, 2);
}

#[test]
fn stroke_edges_are_reported_once() {
    let mut p = Pipeline::new(vec![]);
    let states = [false, true, true, false, false];
    let mut starts = 0;
    let mut ends = 0;
    for (i, &down) in states.iter().enumerate() {
        let r = p.process((i as u64 + 1) * 1_000, down);
        starts += usize::from(r.moment.stroke_start);
        ends += usize::from(r.moment.stroke_end);
    }
    assert_eq!(starts, 1);
    assert_eq!(ends, 1);
}

#[test]
fn only_enabled_stages_run_and_count() {
    let mut p = Pipeline::new(vec![
        Slot { name: "a".into(), enabled: true },
        Slot { name: "b".into(), enabled: false },
        Slot { name: "c".into(), enabled: true },
    ]);
    assert_eq!(p.process(1, false).order, vec![0, 2]);
    assert_eq!(p.stage_names(), vec!["a", "b", "c"]);
    assert_eq!(p.len(), 3);
    assert!(!p.is_empty());
    assert!(p.settled(&vec![true, false, true]), "a disabled stage holds nothing back");
    assert!(!p.settled(&vec![true, true, false]));
    p.reset();
    assert_eq!(p.process(2, true).moment.dt_us, MIN_DT_US);
}

/// Run samples through a pipeline of one constraint, one window and one running total.
fn drive(p: &mut Pipeline, snap: &mut Snap, window: &mut Window, total: &mut i64) -> Vec<String> {
    let mut out = Vec::new();
    for (t_us, down) in [(5, true), (900, true), (2_000, false), (400_000, true), (401_000, true)] {
        let run = p.process(t_us, down);
        if run.moment.discontinuity {
            snap.clear();
            window.clear();
            *total = 0;
        }
        let mut x = 3;
        for i in &run.order {
            match i {
                0 => out.push(format!("{:?}", snap.step(run.moment.discontinuity, down))),
                1 => {
                    window.push(Entry { x: 1, y: 0, t_us });
                    x *= window.len() as i64;
                }
                _ => {
                    *total += x;
                    x = *total;
                }
            }
        }
        out.push(format!("{:?} {x}", run.moment));
    }
    out
}

#[test]
fn a_reset_pipeline_gives_what_it_gave_at_first() {
    let slot = |name: &str, enabled| Slot { name: name.into(), enabled };
    let mut p = Pipeline::new(vec![slot("snap", true), slot("average", true), slot("sum", true)]);
    let (mut snap, mut window, mut total) = (Snap::new(true), Window::new(4, 10_000), 0);
    let first = drive(&mut p, &mut snap, &mut window, &mut total);
    p.reset();
    snap.clear();
    window.clear();
    total = 0;
    assert!(p.last_t_us.is_none() && !p.was_down);
    let second = drive(&mut p, &mut snap, &mut window, &mut total);
    assert_eq!(first, second);
}

// ---- the moving window -----------------------------------------------------------------------

fn at(t_us: u64) -> Entry {
    Entry { x: t_us, y: 0, t_us }
}

#[test]
fn the_buffer_never_grows_past_its_capacity() {
    // A window of a second at a thousand reports a second.
    let capacity = capacity_for(Some(8_000));
    assert_eq!(capacity, MAX_ENTRIES + 1);
    let mut w = Window::new(capacity, 1_000_000);
    for i in 0..5000u64 {
        w.push(at((i + 1) * 1000));
        assert!(w.len() <= capacity);
    }
    assert_eq!(w.len(), 1001, "the window holds a second, both ends included");
}

#[test]
fn a_full_buffer_drops_the_oldest() {
    let mut w = Window::new(2, 1_000_000);
    for t in [1, 2, 3] {
        w.push(at(t));
    }
    assert_eq!((w.len(), w.entry(0).t_us, w.entry(1).t_us), (2, 2, 3));
    assert_eq!(capacity_for(None), 1);
    assert_eq!(capacity_for(Some(160)), 161);
    assert_eq!(capacity_for(Some(0)), 2);
}

#[test]
fn samples_age_out_but_the_last_stays() {
    let mut w = Window::new(100, 20_000);
    w.push(at(0));
    w.push(at(20_000));
    assert_eq!(w.len(), 2, "a sample on the edge is still inside");
    w.push(at(20_001));
    assert_eq!(w.len(), 2);
    w.push(at(9_000_000));
    assert_eq!(w.len(), 1);
    assert_eq!(w.age_us(0, 9_000_500), 500);
}

#[test]
fn time_moving_backwards_empties_nothing() {
    let mut w = Window::new(100, 20_000);
    w.push(at(100_000));
    w.push(at(1_000));
    assert_eq!(w.len(), 2);
    assert_eq!(w.age_us(0, 1_000), 0);
    w.clear();
    assert_eq!(w.len(), 0);
}

// ---- the scroll gesture ----------------------------------------------------------------------

fn settings(mode: Mode) -> Settings {
    Settings {
        mode,
        latch: false,
        freeze_cursor: true,
        momentum: false,
        always_active: false,
        full_release_stops_momentum: false,
    }
}

fn held(held: bool) -> Input {
    Input { discontinuity: false, held, partial: held, wheel: false, elapsed: true }
}

#[test]
fn a_held_button_diverts_the_motion_and_a_released_one_does_not() {
    let s = settings(Mode::Drag);
    let mut g = Gesture::new();
    assert_eq!(g.step(&s, held(true)), Plan::Engaged { joystick: false, freeze: true });
    assert_eq!(
        g.step(&s, held(false)),
        Plan::Idle { brake: false, ended: true, carry_on: false }
    );
    assert_eq!(
        g.step(&s, held(false)),
        Plan::Idle { brake: false, ended: false, carry_on: false },
        "a release is noticed once"
    );
}

#[test]
fn a_latch_survives_the_release_and_ends_on_a_second_click() {
    let s = Settings { latch: true, ..settings(Mode::Joystick) };
    let mut g = Gesture::new();
    let on = Plan::Engaged { joystick: true, freeze: true };
    assert_eq!(g.step(&s, held(true)), on);
    assert_eq!(g.step(&s, held(true)), on);
    assert_eq!(g.step(&s, held(false)), on);
    assert!(matches!(g.step(&s, held(true)), Plan::Idle { ended: true, .. }));
    assert!(matches!(g.step(&s, held(false)), Plan::Idle { ended: false, .. }));
}

#[test]
fn a_flick_carries_on_only_with_momentum_and_never_from_a_joystick() {
    for (mode, momentum, carries) in [
        (Mode::Drag, true, true),
        (Mode::Drag, false, false),
        (Mode::Joystick, true, false),
    ] {
        let s = Settings { momentum, ..settings(mode) };
        let mut g = Gesture::new();
        g.step(&s, held(true));
        assert_eq!(
            g.step(&s, held(false)),
            Plan::Idle { brake: false, ended: true, carry_on: carries }
        );
    }
}

#[test]
fn a_chord_coasts_on_a_partial_release_and_stops_on_a_full_one() {
    let s = Settings {
        momentum: true,
        full_release_stops_momentum: true,
        ..settings(Mode::Drag)
    };
    let mut g = Gesture::new();
    g.step(&s, held(true));
    let part = Input { partial: true, ..held(false) };
    assert_eq!(g.step(&s, part), Plan::Idle { brake: false, ended: true, carry_on: true });
    assert_eq!(
        g.step(&s, held(false)),
        Plan::Idle { brake: true, ended: false, carry_on: false }
    );
}

#[test]
fn the_wheel_is_taken_only_when_asked_for() {
    let wheel = |h: bool| Input { wheel: true, ..held(h) };
    let mut g = Gesture::new();
    let s = settings(Mode::Wheel);
    assert_eq!(
        g.step(&s, wheel(false)),
        Plan::Wheel { take: false, seed: false, brake: false }
    );
    assert_eq!(g.step(&s, wheel(true)), Plan::Wheel { take: true, seed: false, brake: false });
    let always = Settings { always_active: true, momentum: true, ..s };
    assert_eq!(
        g.step(&always, wheel(false)),
        Plan::Wheel { take: true, seed: true, brake: false }
    );
    let drag = settings(Mode::Drag);
    assert!(!matches!(g.step(&drag, wheel(true)), Plan::Wheel { .. }));
}

#[test]
fn releasing_the_modifier_can_brake_a_wheel_glide() {
    let s = Settings {
        momentum: true,
        full_release_stops_momentum: true,
        ..settings(Mode::Wheel)
    };
    let mut g = Gesture::new();
    assert!(matches!(g.step(&s, held(true)), Plan::Wheel { brake: false, .. }));
    assert!(matches!(g.step(&s, held(false)), Plan::Wheel { brake: true, .. }));
}

#[test]
fn a_gap_forgets_a_latch_and_what_coasts_is_not_settled() {
    let s = Settings { latch: true, ..settings(Mode::Drag) };
    let mut g = Gesture::new();
    g.step(&s, held(true));
    g.step(&s, held(false));
    let gap = Input { discontinuity: true, ..held(false) };
    assert!(matches!(g.step(&s, gap), Plan::Idle { ended: false, .. }));
    assert!(g.settled(false));
    g.coasts(true);
    assert!(!g.settled(false));
    g.coasts(false);
    assert!(!g.settled(true));
}

// ---- constraining ----------------------------------------------------------------------------

#[test]
fn a_constraint_engages_holds_and_releases() {
    let mut s = Snap::new(true);
    assert_eq!(s.step(false, false), SnapStep::Pass { release: false });
    assert_eq!(s.step(false, true), SnapStep::Constrain { anchor: true });
    assert_eq!(s.step(false, true), SnapStep::Constrain { anchor: false });
    assert!(!s.commit(false));
    assert!(s.commit(true), "a line takes its direction once");
    assert!(!s.commit(true));
    assert_eq!(s.step(false, false), SnapStep::Pass { release: true });
    assert_eq!(s.step(false, true), SnapStep::Constrain { anchor: true });
    assert!(s.commit(true), "engaging again starts a fresh segment");
}

#[test]
fn an_always_on_constraint_needs_no_modifier() {
    let mut s = Snap::new(false);
    assert_eq!(s.step(false, false), SnapStep::Constrain { anchor: true });
    assert_eq!(s.step(true, false), SnapStep::Constrain { anchor: true });
}

// ---- pressure ------------------------------------------------------------------------------

const SLOW: Travel = Travel { moved: true, measurable: true, far: false, long: false };

#[test]
fn slow_travel_is_banked_until_it_counts_as_movement() {
    let hold = StallBehaviour::Hold;
    assert_eq!(speed_step(hold, SLOW), SpeedStep::Bank);
    assert_eq!(speed_step(hold, Travel { far: true, ..SLOW }), SpeedStep::Banked);
    // A stall that lasted too long is dropped rather than divided by.
    assert_eq!(speed_step(hold, Travel { long: true, ..SLOW }), SpeedStep::Discard);
    let unmeasured = Travel { far: true, measurable: false, ..SLOW };
    assert_eq!(speed_step(hold, unmeasured), SpeedStep::Discard);
}

#[test]
fn standing_still_holds_the_estimate_unless_it_decays() {
    let still = Travel { moved: false, measurable: true, far: true, long: true };
    assert_eq!(speed_step(StallBehaviour::Hold, still), SpeedStep::Untouched);
    assert_eq!(speed_step(StallBehaviour::Decay, still), SpeedStep::Instant);
    let nonsense = Travel { measurable: false, ..still };
    assert_eq!(speed_step(StallBehaviour::Decay, nonsense), SpeedStep::Untouched);
}

#[test]
fn an_envelope_steps_until_its_target_is_within_reach() {
    assert_eq!(envelope_step(true, true, false), EnvelopeStep::Approach);
    assert_eq!(envelope_step(true, true, true), EnvelopeStep::Reach);
    assert_eq!(envelope_step(true, false, true), EnvelopeStep::Stay);
    assert_eq!(envelope_step(false, false, false), EnvelopeStep::Reach);
}
