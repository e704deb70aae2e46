//! The input loop's decisions.
//!
//! The loop itself waits, reads devices and drives sinks; what it does with each event is decided
//! here, from plain values, and handed back as things to do.

use crate::config::schema::Output;
use crate::daemon::auto::{asked, entered, overruled_in, AutoSwitch};
use crate::daemon::buttons::{
    Buttons, has_code, held_after, held_codes, is_withheld, law_a_chord_needs_every_part,
    law_the_last_transition_counts, some_chord_held, some_part_held, stroke_after,
};
use crate::daemon::capture::{
    captured_report, ended, is_capturing, swallowed, BindingCapture, CaptureState,
    CAPTURE_WINDOW_US,
};
use crate::daemon::control::Command;
use crate::daemon::focus::{entry_views, explain, verdict, Under};
use crate::daemon::modes::{
    Action, Applied, Mode, Modes, ModesState, Switch, in_range, is_applied, is_info,
    law_an_action_goes_where_it_says, law_outputs_are_told_apart, output_label, output_name,
    slot_line, switched, target,
};
use crate::daemon::routing::{
    Delivery, Report, ScrollFreeze, ScrollOut, Sink, Step, WheelLeft, axes_by, axes_sent,
    barrel_of, barrel_sent, buttons_by, buttons_sent, deliver, freeze_until, is_falling_back,
    law_what_raw_deltas_send, law_what_reaches_the_application, law_what_the_pen_is_sent,
    law_what_the_pointer_is_sent, pass_keys, passed, passthrough_wheel, scroll_axes, steps_of,
    transport, transport_for, wheel_axes_left,
};
use crate::daemon::service::{Announce, Degraded, Request, Snapshot};
use crate::daemon::wait::{reports, Wake, MOST_REPORTED};
use crate::text::{decimal, number, owned, views};
use vstd::prelude::*;
use vstd::string::*;

verus! {

/// Interval between synthesised zero-motion ticks while anything is outstanding, in microseconds.
pub const TICK_US: u64 = 2_000;

/// Fallback interval for checking the config directory, in microseconds. Only used when a watch
/// could not be established.
pub const CONFIG_POLL_US: u64 = 400_000;

/// How often to look for a source device that has gone away, in microseconds.
pub const RECONNECT_POLL_US: u64 = 1_000_000;

/// Time floor before silence is even considered worth reporting, in microseconds.
pub const STALL_REPORT_US: u64 = 600_000;

/// How long the hand must be still before a compositor cursor report is adopted into the shared
/// position, in microseconds.
pub const ADOPT_IDLE_US: u64 = 150_000;

/// Which signal a state change should announce.
#[derive(Debug, Clone, Copy, PartialEq, Eq, Structural)]
pub enum Change {
    Mode,
    Enabled,
    Config,
}

pub open spec fn announce_of(c: Change) -> Announce {
    match c {
        Change::Mode => Announce::Mode,
        Change::Enabled => Announce::Enabled,
        Change::Config => Announce::Config,
    }
}

/// The announcement for a state change.
pub fn announcement(c: Change) -> (a: Announce)
    ensures
        a == announce_of(c),
{
    match c {
        Change::Mode => Announce::Mode,
        Change::Enabled => Announce::Enabled,
        Change::Config => Announce::Config,
    }
}

/// What a run came to.
#[derive(Debug)]
pub struct Stats {
    pub reports: u64,
    pub ticks: u64,
    pub switches: u64,
    /// The longest time spent on one report, in nanoseconds.
    pub worst_process_ns: u64,
}

impl Default for Stats {
    fn default() -> (r: Self)
        ensures
            r.reports == 0,
            r.ticks == 0,
            r.switches == 0,
            r.worst_process_ns == 0,
    {
        Stats { reports: 0, ticks: 0, switches: 0, worst_process_ns: 0 }
    }
}

impl Stats {
    /// Count a report that took `took_ns`.
    pub fn count_report(&mut self, took_ns: u64)
        requires
            old(self).reports < u64::MAX,
        ensures
            *final(self) == (Stats {
                reports: (old(self).reports + 1) as u64,
                worst_process_ns: if took_ns > old(self).worst_process_ns {
                    took_ns
                } else {
                    old(self).worst_process_ns
                },
                ..*old(self)
            }),
    {
        if took_ns > self.worst_process_ns {
            self.worst_process_ns = took_ns;
        }
        self.reports = self.reports + 1;
    }
}

/// Everything the loop decides by.
pub struct Runtime {
    pub modes: Modes,
    /// Opt-in `auto_activate` rules from the profile.
    pub auto: AutoSwitch,
    pub buttons: Buttons,
    pub capture: BindingCapture,
    pub freeze: ScrollFreeze,
    /// User entries overriding the built-in tablet-support table, from config.
    pub tablet_overrides: Vec<(String, bool)>,
    /// In tablet mode, also emit ordinary mouse buttons alongside the pen.
    pub tablet_clicks: bool,
    /// The transport in use last time a sample was routed, for reporting changes.
    pub last_transport: Option<Output>,
    /// Whether the last look found the mode delivering through its second choice.
    pub was_falling_back: bool,
    /// A profile switch waiting for the next reload to pick it up.
    pub requested_profile: Option<String>,
    /// Set by an explicit request, which must work whether or not the files changed.
    pub reload_requested: bool,
    /// The keyboard codes last opened, so a reload only reopens on a real change.
    pub watched_keys: Vec<u16>,
    pub stroke_active: bool,
    /// Continues the source's own timestamp sequence, so synthesised ticks never make time
    /// appear to jump.
    pub last_t_us: u64,
    /// Whether filtering is stopped and the grab released.
    pub inert: bool,
}

/// What is delivered for a report, before the filters have run.
#[derive(Debug)]
pub struct Prepared {
    pub output: Output,
    /// Whether a tablet mode is delivering through the mouse.
    pub fallback: bool,
    /// The transitions that reach the application.
    pub keys: Vec<(u16, bool)>,
    pub constrain: bool,
    pub scrolling: bool,
    pub scroll_partial: bool,
    pub scroll_bound: bool,
    /// A line for the log where the transport changed.
    pub notice: Option<String>,
}

#[derive(Debug)]
pub enum Begun {
    /// The report went into a binding capture.
    Consumed,
    /// There is no mode to deliver for; there may still be a line for the log.
    NoMode(Option<String>),
    Ready(Prepared),
}

/// The line for the log that routing a report gave.
pub open spec fn noticed(b: Begun) -> Option<String> {
    match b {
        Begun::Consumed => None,
        Begun::NoMode(notice) => notice,
        Begun::Ready(p) => p.notice,
    }
}

/// What the filters and the devices said about a report.
#[derive(Debug, Clone, Copy, PartialEq, Eq, Structural)]
pub struct Outcome {
    /// What a stage left of the wheel, or `None` where it took nothing.
    pub taken: Option<WheelLeft>,
    pub gesture: ScrollOut,
    pub in_proximity: bool,
    pub pointer_ready: bool,
}

pub open spec fn transport_name(o: Option<Output>) -> Seq<char> {
    match o {
        Some(o) => output_name(o),
        None => "start"@,
    }
}

/// The line about a change of transport, naming what the pointer was over and why the decision
/// went that way.
pub open spec fn transport_line(
    previous: Option<Output>,
    output: Output,
    under: Under,
    overrides: Seq<(Seq<char>, bool)>,
) -> Seq<char> {
    "transport: "@ + transport_name(previous) + " -> "@ + output_name(output) + " over "@ + (
    if under.class@.len() == 0 {
        "(nothing under the pointer)"@
    } else {
        under.class@
    }) + " — "@ + verdict(under.class@, under.signal, overrides).1
}

/// The mode that is current, if there is one.
pub open spec fn current_mode(s: ModesState) -> Option<Mode> {
    if s.slots.len() > 0 {
        Some(s.slots[s.current])
    } else {
        None
    }
}

#[derive(Debug)]
pub enum Switched {
    /// There is nothing to switch to.
    Nothing,
    /// Held until the stroke ends. The intent is announced at once, so that a press never looks
    /// as though it was missed.
    Queued(usize),
    Done(Applied),
}

/// Whether `r` is what an action comes to.
pub open spec fn is_switch(
    r: Switched,
    before: ModesState,
    after: ModesState,
    action: Action,
    stroke_active: bool,
) -> bool {
    match r {
        Switched::Nothing => target(before, action) is None && after == before,
        Switched::Queued(to) => {
            &&& stroke_active
            &&& target(before, action) == Some(to as int)
            &&& after == (ModesState { pending: Some(to as int), ..before })
        },
        Switched::Done(a) => {
            &&& !stroke_active
            &&& target(before, action) == Some(a.to as int)
            &&& is_applied(a, before, a.to as int)
            &&& after == switched(before, a.to as int)
        },
    }
}

/// What to do about the grab.
#[derive(Debug, Clone, Copy, PartialEq, Eq, Structural)]
pub enum InertStep {
    /// Already in the requested state.
    Nothing,
    /// Release the grab and take every pen out of proximity. The sinks stay alive.
    Release,
    /// Filtering resumes when the device comes back.
    AwaitDevice,
    /// Filtering resumes if the device can be grabbed again.
    TryGrab,
}

/// What a request comes to.
#[derive(Debug)]
pub enum Reaction {
    Quit,
    PrintStatus,
    /// Nothing to do at once.
    Noted,
    Inert(InertStep),
    Switch(Switched),
}

/// The parts of a reloaded config that the running daemon has to adopt.
///
/// More than the modes: tablet teardown is a profile-level choice, and editing it takes effect
/// the same way editing a preset does.
pub struct Reloaded {
    pub modes: Modes,
    pub destroy_tablet_on_leave: bool,
    pub tablet_emits_mouse_clicks: bool,
    pub freeze_position_while_scrolling: bool,
    pub scroll_freeze_ms: u64,
    pub scroll_freeze: Vec<(String, bool)>,
    /// What the reload settled on, so the published state names the live profile.
    pub profile_slug: String,
    pub profile_name: String,
}

/// Milliseconds as microseconds, as many as fit.
pub open spec fn micros(ms: u64) -> u64 {
    if ms * 1000 <= u64::MAX {
        (ms * 1000) as u64
    } else {
        u64::MAX
    }
}

/// Whether `r` is what routing a report comes to before the filters have run, and `after` what it
/// leaves.
pub open spec fn is_begun(
    r: Begun,
    before: Runtime,
    after: Runtime,
    report: Report,
    now: u64,
    under: Under,
) -> bool {
    &&& after == (Runtime {
        capture: after.capture,
        buttons: after.buttons,
        stroke_active: after.stroke_active,
        last_transport: after.last_transport,
        ..before
    })
    &&& (r is Consumed <==> is_capturing(before.capture@, now))
    &&& (r is Consumed ==> {
        &&& after.capture@ == captured_report(before.capture@, report.keys@, now)
        &&& after.buttons == before.buttons
        &&& after.stroke_active == before.stroke_active
        &&& after.last_transport == before.last_transport
    })
    &&& (!(r is Consumed) ==> {
        let seen = captured_report(before.capture@, report.keys@, now);
        let output = transport(
            current_mode(before.modes@),
            under,
            entry_views(before.tablet_overrides@),
        );
        &&& after.capture@ == (CaptureState {
            swallow: swallowed(seen.swallow, report.keys@).0,
            ..seen
        })
        &&& after.buttons.pen == before.buttons.pen
        &&& after.buttons.mouse == before.buttons.mouse
        &&& after.buttons.keys == before.buttons.keys
        &&& after.buttons.held@.to_set() == held_after(
            before.buttons.held@.to_set(),
            report.keys@,
        )
        &&& after.stroke_active == stroke_after(
            before.stroke_active,
            report.keys@,
            before.buttons.pen,
        )
        &&& after.last_transport == Some(output)
    })
    &&& (r is NoMode <==> !is_capturing(before.capture@, now) && current_mode(
        before.modes@,
    ) is None)
    &&& (r matches Begun::Ready(p) ==> {
        let mode = current_mode(before.modes@)->0;
        let seen = captured_report(before.capture@, report.keys@, now);
        let output = transport(
            Some(mode),
            under,
            entry_views(before.tablet_overrides@),
        );
        &&& p.output == output
        &&& p.fallback == is_falling_back(Some(mode), output)
        &&& p.keys@ == passed(
            after.buttons,
            Some(mode),
            swallowed(seen.swallow, report.keys@).1,
            report.keys@,
        )
        &&& p.constrain == some_chord_held(after.buttons, mode.modifier@)
        &&& p.scrolling == some_chord_held(after.buttons, mode.scroll_button@)
        &&& p.scroll_partial == some_part_held(after.buttons, mode.scroll_button@)
        &&& p.scroll_bound == (mode.scroll_button@.len() > 0)
    })
    &&& (!(r is Consumed) ==> {
        let output = transport(
            current_mode(before.modes@),
            under,
            entry_views(before.tablet_overrides@),
        );
        &&& noticed(r) is Some <==> before.last_transport != Some(output)
        &&& noticed(r) matches Some(line) ==> line@ == transport_line(
            before.last_transport,
            output,
            under,
            entry_views(before.tablet_overrides@),
        )
    })
}

/// Whether `steps` are what delivers a report once the filters have run, and `after` what that
/// leaves.
pub open spec fn is_finished(
    steps: Seq<Step>,
    before: Runtime,
    after: Runtime,
    prepared: Prepared,
    report: Report,
    outcome: Outcome,
    class: Seq<char>,
    now: u64,
) -> bool {
    &&& after == (Runtime { freeze: after.freeze, ..before })
    &&& after.freeze == (ScrollFreeze {
        until: if prepared.output == Output::Tablet {
            freeze_until(
                before.freeze,
                class,
                before.stroke_active,
                report.other_relative@.len() > 0,
                now,
            )
        } else {
            before.freeze.until
        },
        ..before.freeze
    })
    &&& exists|d: Delivery|
        {
            &&& #[trigger] steps_of(d) == steps
            &&& d.output == prepared.output
            &&& d.fallback == prepared.fallback
            &&& d.keys@ == prepared.keys@
            &&& d.wheel@ == wheel_axes_left(report.other_relative@, outcome.taken)
            &&& d.gesture == outcome.gesture
            &&& d.stroke_active == before.stroke_active
            &&& d.frozen == (prepared.output == Output::Tablet && after.freeze.until is Some)
            &&& d.tablet_clicks == before.tablet_clicks
            &&& d.in_proximity == outcome.in_proximity
            &&& d.pointer_ready == outcome.pointer_ready
        }
}

/// Whether `r` is what a request comes to, and `after` what it leaves.
pub open spec fn is_answer(
    r: Reaction,
    before: Runtime,
    after: Runtime,
    request: Request,
    now: u64,
    class: Seq<char>,
    has_device: bool,
) -> bool {
    &&& match request {
        Request::Command(Command::Quit) => r is Quit && after == before,
        Request::Command(Command::Status) => r is PrintStatus && after == before,
        Request::Command(Command::Reload) => r is Noted && after == (Runtime {
            reload_requested: true,
            ..before
        }),
        Request::Command(Command::Panic) => is_inert_change(
            r,
            before,
            after,
            !before.inert,
            has_device,
        ),
        Request::Command(Command::SetEnabled(on)) => is_inert_change(
            r,
            before,
            after,
            !on,
            has_device,
        ),
        Request::Command(Command::Cycle) => is_action(
            r,
            before,
            after,
            Action::Cycle,
            class,
        ),
        Request::Command(Command::CyclePrev) => is_action(
            r,
            before,
            after,
            Action::CyclePrev,
            class,
        ),
        Request::Command(Command::Flip) => is_action(
            r,
            before,
            after,
            Action::Flip,
            class,
        ),
        Request::Command(Command::Mode(n)) => is_action(
            r,
            before,
            after,
            Action::Select(n),
            class,
        ),
        Request::Profile(name) => r is Noted && after == (Runtime {
            requested_profile: Some(name),
            reload_requested: true,
            ..before
        }),
        Request::CaptureBinding => r is Noted && after == (Runtime {
            capture: after.capture,
            ..before
        }) && after.capture@ == (CaptureState {
            until: Some((now + CAPTURE_WINDOW_US) as u64),
            ..ended(before.capture@)
        }),
        Request::CancelCapture => r is Noted && after == (Runtime {
            capture: after.capture,
            ..before
        }) && after.capture@ == ended(before.capture@),
    }
}

impl Runtime {
    /// What every function here keeps.
    pub open spec fn wf(&self) -> bool {
        self.buttons.wf()
    }

    /// Route a report as far as it can be without the filters: take what a capture swallows,
    /// follow the buttons, and settle the transport.
    ///
    /// State is always tracked; only the *output* of a swallowed release is suppressed. Otherwise
    /// the button would stay held and the gesture it is bound to engaged.
    pub fn begin(&mut self, report: &Report, now: u64, under: &Under) -> (r: Begun)
        requires
            old(self).wf(),
            old(self).capture.down + report.keys@.len() <= usize::MAX,
        ensures
            final(self).wf(),
            is_begun(r, *old(self), *final(self), *report, now, *under),
    {
        if self.capture.capture_button(&report.keys, now) {
            return Begun::Consumed;
        }
        let gone = self.capture.swallow_releases(&report.keys);
        let mut stroke = self.stroke_active;
        self.buttons.track_button(&report.keys, &mut stroke);
        self.stroke_active = stroke;

        // The transport, which is not always the mode's preference.
        let output = transport_for(self.modes.current(), under, &self.tablet_overrides);
        let previous = self.last_transport;
        let changed = previous != Some(output);
        self.last_transport = Some(output);
        let notice = if changed {
            let from = match previous {
                Some(o) => owned(output_label(o)),
                None => owned("start"),
            };
            let app = if under.class.as_str().unicode_len() == 0 {
                owned("(nothing under the pointer)")
            } else {
                owned(under.class.as_str())
            };
            let (_, why) = explain(under, &self.tablet_overrides);
            Some(
                owned("transport: ").concat(from.as_str()).concat(" -> ").concat(
                    output_label(output),
                ).concat(" over ").concat(app.as_str()).concat(" — ").concat(why),
            )
        } else {
            None
        };
        let mode = match self.modes.current() {
            Some(m) => m,
            None => {
                return Begun::NoMode(notice);
            },
        };
        let keys = pass_keys(&self.buttons, Some(mode), &gone, &report.keys);
        Begun::Ready(
            Prepared {
                output,
                fallback: mode.output == Output::Tablet && output == Output::Mouse,
                keys,
                constrain: self.buttons.any_held(&mode.modifier),
                scrolling: self.buttons.any_held(&mode.scroll_button),
                scroll_partial: self.buttons.partly_held(&mode.scroll_button),
                scroll_bound: mode.scroll_button.len() > 0,
                notice,
            },
        )
    }

    /// The steps that deliver a report once the filters have run.
    pub fn finish(
        &mut self,
        prepared: Prepared,
        report: &Report,
        outcome: Outcome,
        class: &str,
        now: u64,
    ) -> (r: Vec<Step>)
        requires
            now + old(self).freeze.length_us <= u64::MAX,
        ensures
            is_finished(r@, *old(self), *final(self), prepared, *report, outcome, class@, now),
    {
        let frozen = if prepared.output == Output::Tablet {
            self.freeze.update(class, self.stroke_active, report.other_relative.len() > 0, now)
        } else {
            false
        };
        let d = Delivery {
            output: prepared.output,
            fallback: prepared.fallback,
            keys: prepared.keys,
            wheel: passthrough_wheel(&report.other_relative, outcome.taken),
            gesture: outcome.gesture,
            stroke_active: self.stroke_active,
            frozen,
            tablet_clicks: self.tablet_clicks,
            in_proximity: outcome.in_proximity,
            pointer_ready: outcome.pointer_ready,
        };
        let r = deliver(&d);
        assert(steps_of(d) == r@);
        r
    }

    /// Follow a report's buttons without delivering anything, so that a deferred switch can still
    /// resolve while filtering is stopped.
    pub fn track(&mut self, report: &Report)
        requires
            old(self).wf(),
        ensures
            final(self).wf(),
            *final(self) == (Runtime {
                buttons: final(self).buttons,
                stroke_active: final(self).stroke_active,
                ..*old(self)
            }),
            final(self).buttons.pen == old(self).buttons.pen,
            final(self).buttons.mouse == old(self).buttons.mouse,
            final(self).buttons.keys == old(self).buttons.keys,
            final(self).buttons.held@.to_set() == held_after(
                old(self).buttons.held@.to_set(),
                report.keys@,
            ),
            final(self).stroke_active == stroke_after(
                old(self).stroke_active,
                report.keys@,
                old(self).buttons.pen,
            ),
    {
        let mut stroke = self.stroke_active;
        self.buttons.track_button(&report.keys, &mut stroke);
        self.stroke_active = stroke;
    }

    /// The time of a report: the source's own, but always later than the last.
    pub fn report_time(&mut self, t_us: u64) -> (r: u64)
        ensures
            *final(self) == (Runtime { last_t_us: r, ..*old(self) }),
            r >= t_us,
            old(self).last_t_us < u64::MAX ==> r > old(self).last_t_us && (r == t_us || r
                == old(self).last_t_us + 1),
            old(self).last_t_us == u64::MAX ==> r == u64::MAX,
            r == time_of_report(old(self).last_t_us, t_us),
    {
        let next = self.last_t_us.saturating_add(1);
        self.last_t_us = if t_us > next {
            t_us
        } else {
            next
        };
        self.last_t_us
    }

    /// The time of a synthesised tick.
    pub fn tick_time(&mut self) -> (r: u64)
        ensures
            *final(self) == (Runtime { last_t_us: r, ..*old(self) }),
            r == time_of_tick(old(self).last_t_us),
    {
        self.last_t_us = self.last_t_us.saturating_add(TICK_US);
        self.last_t_us
    }

    /// Move to a requested filtering state.
    ///
    /// Takes the target rather than flipping, so a caller that knows what it wants cannot race
    /// itself. Already being in the requested state is success and does nothing. Where a device
    /// has to be grabbed again, [`Runtime::grabbed`] says what came of it.
    pub fn set_inert(&mut self, want_inert: bool, has_device: bool) -> (r: InertStep)
        ensures
            *final(self) == (Runtime { inert: final(self).inert, ..*old(self) }),
            r == inert_step(old(self).inert, want_inert, has_device),
            final(self).inert == inert_after(old(self).inert, want_inert, has_device),
    {
        if want_inert == self.inert {
            return InertStep::Nothing;
        }
        if want_inert {
            self.inert = true;
            return InertStep::Release;
        }
        // Resuming with no device is not a failure to report: the reconnect path grabs it when
        // it returns.
        if !has_device {
            self.inert = false;
            return InertStep::AwaitDevice;
        }
        InertStep::TryGrab
    }

    /// Resuming can fail: another remapper may have taken the device. The state has to reflect
    /// what actually happened, not what was asked for.
    pub fn grabbed(&mut self, ok: bool)
        ensures
            *final(self) == resumed(*old(self), ok),
    {
        if ok {
            self.inert = false;
        }
    }

    fn switch(&mut self, action: Action) -> (r: Switched)
        ensures
            *final(self) == (Runtime { modes: final(self).modes, ..*old(self) }),
            is_switch(r, old(self).modes@, final(self).modes@, action, old(self).stroke_active),
    {
        match self.modes.request(action, self.stroke_active) {
            Some(Switch::Applied(a)) => Switched::Done(a),
            Some(Switch::Deferred(to)) => Switched::Queued(to),
            None => Switched::Nothing,
        }
    }

    /// A switch the user asked for over a window of `class`. Whatever the rules think, the user
    /// has now said otherwise for this window.
    pub fn act(&mut self, action: Action, class: &str) -> (r: Switched)
        ensures
            *final(self) == (Runtime {
                modes: final(self).modes,
                auto: final(self).auto,
                ..*old(self)
            }),
            final(self).auto@ == if old(self).auto@.rules.len() == 0 {
                old(self).auto@
            } else {
                overruled_in(old(self).auto@, class@)
            },
            is_switch(r, old(self).modes@, final(self).modes@, action, old(self).stroke_active),
    {
        if !self.auto.is_empty() {
            self.auto.overrule(class);
        }
        self.switch(action)
    }

    /// Apply the profile's `auto_activate` rules to the window of `class` under the position.
    ///
    /// Never during a stroke, and never while filtering is stopped: a line that crosses a window
    /// boundary is not a request to change mode.
    pub fn auto_switch(&mut self, class: &str) -> (r: Switched)
        ensures
            is_auto_switch(r, *old(self), *final(self), class@),
    {
        if self.inert || self.stroke_active {
            return Switched::Nothing;
        }
        match self.auto.entering(class) {
            None => Switched::Nothing,
            Some(slot) => self.switch(Action::Select(slot)),
        }
    }

    /// Apply a switch that waited for the stroke to end.
    pub fn flush_deferred_switch(&mut self) -> (r: Option<Applied>)
        ensures
            is_flush(r, *old(self), *final(self)),
    {
        if self.stroke_active {
            return None;
        }
        self.modes.take_pending()
    }

    /// The source device is gone. Everything downstream is left standing; only the stroke and a
    /// freeze end with it, and the status says so.
    pub fn lose_device(&mut self, s: &mut Snapshot)
        ensures
            *final(self) == without_device(*old(self)),
            *final(s) == (Snapshot { degraded: final(s).degraded, ..*old(s) }),
            final(s).degraded.degraded,
            final(s).degraded.reason@ == "the source device is disconnected"@,
    {
        self.stroke_active = false;
        self.freeze.until = None;
        s.degraded = Degraded {
            degraded: true,
            reason: owned("the source device is disconnected"),
        };
    }

    /// Carry out what a client asked for. `class` is that of the window under the position.
    pub fn handle_request(
        &mut self,
        request: Request,
        now: u64,
        class: &str,
        has_device: bool,
    ) -> (r: Reaction)
        requires
            now <= u64::MAX - CAPTURE_WINDOW_US,
        ensures
            is_answer(r, *old(self), *final(self), request, now, class@, has_device),
    {
        match request {
            Request::Command(command) => match command {
                Command::Quit => Reaction::Quit,
                Command::Status => Reaction::PrintStatus,
                Command::Reload => {
                    self.reload_requested = true;
                    Reaction::Noted
                },
                Command::Panic => {
                    let want = !self.inert;
                    Reaction::Inert(self.set_inert(want, has_device))
                },
                Command::SetEnabled(on) => Reaction::Inert(self.set_inert(!on, has_device)),
                Command::Cycle => Reaction::Switch(self.act(Action::Cycle, class)),
                Command::CyclePrev => Reaction::Switch(self.act(Action::CyclePrev, class)),
                Command::Flip => Reaction::Switch(self.act(Action::Flip, class)),
                Command::Mode(n) => Reaction::Switch(self.act(Action::Select(n), class)),
            },
            // Handled through the same reload the config watch uses, so there is one path that
            // rebuilds modes and swaps them in.
            Request::Profile(name) => {
                self.requested_profile = Some(name);
                self.reload_requested = true;
                Reaction::Noted
            },
            Request::CaptureBinding => {
                self.capture.begin(now);
                Reaction::Noted
            },
            Request::CancelCapture => {
                self.capture.end_capture();
                Reaction::Noted
            },
        }
    }

    /// Whether to reload now, and which profile was asked for. A reload is due after an edit or
    /// on request, where there is a directory to load.
    pub fn take_reload(&mut self, edited: bool, has_dir: bool) -> (r: Option<Option<String>>)
        ensures
            is_reload(r, *old(self), *final(self), edited, has_dir),
    {
        if (edited || self.reload_requested) && has_dir {
            self.reload_requested = false;
            Some(self.requested_profile.take())
        } else {
            None
        }
    }

    /// Adopt a reloaded config, and say what the virtual tablets adopt from it: whether one is
    /// taken down when the pen leaves.
    ///
    /// A failed reload never comes here: it leaves the running config alone rather than dropping
    /// to passthrough, so a typo mid-edit cannot take the pointer away.
    pub fn adopt(&mut self, fresh: Reloaded, s: &mut Snapshot) -> (r: bool)
        ensures
            r == fresh.destroy_tablet_on_leave,
            *final(self) == adopted(*old(self), fresh),
            *final(s) == (Snapshot {
                profile: fresh.profile_name,
                profile_slug: fresh.profile_slug,
                ..*old(s)
            }),
    {
        self.modes = fresh.modes;
        self.tablet_clicks = fresh.tablet_emits_mouse_clicks;
        self.freeze.by_default = fresh.freeze_position_while_scrolling;
        self.freeze.overrides = fresh.scroll_freeze;
        self.freeze.length_us = if fresh.scroll_freeze_ms <= u64::MAX / 1000 {
            fresh.scroll_freeze_ms * 1000
        } else {
            u64::MAX
        };
        s.profile = fresh.profile_name;
        s.profile_slug = fresh.profile_slug;
        fresh.destroy_tablet_on_leave
    }

    /// Whether the active mode is delivering through its second choice over a window, and
    /// whether that has changed since the last look. Entering a fallback must lift the pen.
    pub fn check_fallback(&mut self, under: &Under) -> (r: (bool, bool))
        ensures
            is_fallback_check(r, *old(self), *final(self), *under),
    {
        let output = transport_for(self.modes.current(), under, &self.tablet_overrides);
        let now = match self.modes.current() {
            Some(m) => m.output == Output::Tablet && output == Output::Mouse,
            None => false,
        };
        let changed = now != self.was_falling_back;
        self.was_falling_back = now;
        (now, changed)
    }

    /// Publish everything the bus exposes of a run. The rest of the snapshot stays as it was.
    pub fn publish(&self, s: &mut Snapshot, tablets: u32, tablets_placed: bool)
        ensures
            is_publication(*self, *old(s), *final(s), tablets, tablets_placed),
    {
        self.modes.stays_in_range();
        let total: usize = self.modes.slots().len();
        let slot: usize = if total == 0 {
            1
        } else {
            self.modes.current_index() + 1
        };
        s.mode_slot = #[verifier::truncate] (slot as u32);
        s.mode_name = match self.modes.current() {
            Some(m) => owned(m.name.as_str()),
            None => String::new(),
        };
        s.modes = self.modes.infos();
        s.panicked = self.inert;
        s.enabled = !self.inert;
        s.tablets = tablets;
        s.tablets_placed = tablets_placed;
    }
}

/// What to do about the grab when a filtering state is asked for.
pub open spec fn inert_step(inert: bool, want_inert: bool, has_device: bool) -> InertStep {
    if want_inert == inert {
        InertStep::Nothing
    } else if want_inert {
        InertStep::Release
    } else if has_device {
        InertStep::TryGrab
    } else {
        InertStep::AwaitDevice
    }
}

/// The filtering state once it has been asked for, a grab still being tried.
pub open spec fn inert_after(inert: bool, want_inert: bool, has_device: bool) -> bool {
    if inert && !want_inert && has_device {
        true
    } else {
        want_inert
    }
}

/// Asking for a state that has been reached does nothing, so repeated requests are safe; and a
/// state that was not reached is left only for a grab that is tried.
pub proof fn law_asking_twice_is_asking_once(inert: bool, want_inert: bool, has_device: bool)
    ensures
        inert_step(inert, want_inert, has_device) != InertStep::TryGrab ==> inert_step(
            inert_after(inert, want_inert, has_device),
            want_inert,
            has_device,
        ) == InertStep::Nothing,
        inert_after(inert, want_inert, has_device) != want_inert <==> inert_step(
            inert,
            want_inert,
            has_device,
        ) == InertStep::TryGrab,
{
}

/// A panicked daemon always has a way back: panicking again resumes it once the device can be
/// grabbed, or at once where there is none to grab.
pub proof fn law_panicking_again_resumes(has_device: bool)
    ensures
        inert_after(false, true, has_device),
        inert_step(true, false, has_device) != InertStep::Nothing,
        !has_device ==> !inert_after(true, false, has_device),
{
}

/// Whatever is asked for during a stroke, the mode that draws it stays.
pub proof fn law_a_stroke_keeps_its_mode(
    r: Switched,
    before: ModesState,
    after: ModesState,
    action: Action,
)
    requires
        is_switch(r, before, after, action, true),
    ensures
        after.current == before.current,
        after.slots == before.slots,
        after.last_used == before.last_used,
{
}

/// Whether `r` is what asking for a filtering state comes to.
pub open spec fn is_inert_change(
    r: Reaction,
    before: Runtime,
    after: Runtime,
    want_inert: bool,
    has_device: bool,
) -> bool {
    &&& after == (Runtime {
        inert: inert_after(before.inert, want_inert, has_device),
        ..before
    })
    &&& r == Reaction::Inert(inert_step(before.inert, want_inert, has_device))
}

/// Whether `r` is what a user's action over a window comes to.
pub open spec fn is_action(
    r: Reaction,
    before: Runtime,
    after: Runtime,
    action: Action,
    class: Seq<char>,
) -> bool {
    &&& after == (Runtime { modes: after.modes, auto: after.auto, ..before })
    &&& after.auto@ == if before.auto@.rules.len() == 0 {
        before.auto@
    } else {
        overruled_in(before.auto@, class)
    }
    &&& r matches Reaction::Switch(s) && is_switch(
        s,
        before.modes@,
        after.modes@,
        action,
        before.stroke_active,
    )
}

/// The source device is back: nothing is limited any more.
pub fn regain_device(s: &mut Snapshot)
    ensures
        *final(s) == (Snapshot { degraded: final(s).degraded, ..*old(s) }),
        !final(s).degraded.degraded,
        final(s).degraded.reason@ == Seq::<char>::empty(),
{
    s.degraded = Degraded::default();
}

/// What is limited from the start. Tablets that were not confined to their screens still work, but
/// they cover the whole desktop, which looks like a precision problem: so it is said out loud.
pub fn degraded_at_start(per_screen: bool, placed: bool) -> (r: Option<Degraded>)
    ensures
        r is Some <==> per_screen && !placed,
        r matches Some(d) ==> d.degraded && d.reason@
            == "tablets are not confined to their screens; they cover the whole desktop until mapped in display settings"@,
{
    if per_screen && !placed {
        Some(
            Degraded {
                degraded: true,
                reason: owned(
                    "tablets are not confined to their screens; they cover the whole desktop until mapped in display settings",
                ),
            },
        )
    } else {
        None
    }
}

/// What is said about something that happened: a line for the log, and what the desktop shows.
#[derive(Debug)]
pub struct Notice {
    pub line: String,
    pub summary: String,
    pub body: String,
}

/// What is said about a switch. A switch the user cannot see is indistinguishable from one that
/// did not happen.
pub fn announce(a: &Applied, total: usize) -> (r: Notice)
    requires
        a.from < usize::MAX,
        a.to < usize::MAX,
    ensures
        r.line@ == "mode "@ + decimal((a.from + 1) as nat) + " -> "@ + decimal((a.to + 1) as nat)
            + " — "@ + a.name@ + " ("@ + output_name(a.output) + ")"@,
        r.summary@ == a.name@ + "  ("@ + output_name(a.output) + ")"@,
        r.body@ == "mode "@ + decimal((a.to + 1) as nat) + " of "@ + decimal(total as nat),
{
    let from = number((a.from + 1) as u64);
    let to = number((a.to + 1) as u64);
    Notice {
        line: owned("mode ").concat(from.as_str()).concat(" -> ").concat(to.as_str()).concat(
            " — ",
        ).concat(a.name.as_str()).concat(" (").concat(output_label(a.output)).concat(")"),
        summary: owned(a.name.as_str()).concat("  (").concat(output_label(a.output)).concat(")"),
        body: owned("mode ").concat(to.as_str()).concat(" of ").concat(
            number(total as u64).as_str(),
        ),
    }
}

/// What is said about a switch that waits for the stroke to end.
pub fn announce_queued(to: usize) -> (r: Notice)
    requires
        to < usize::MAX,
    ensures
        r.line@ == "mode "@ + decimal((to + 1) as nat) + " queued until the stroke ends"@,
        r.summary@ == "mode "@ + decimal((to + 1) as nat) + " queued"@,
        r.body@ == "applies when the stroke ends"@,
{
    let n = number((to + 1) as u64);
    Notice {
        line: owned("mode ").concat(n.as_str()).concat(" queued until the stroke ends"),
        summary: owned("mode ").concat(n.as_str()).concat(" queued"),
        body: owned("applies when the stroke ends"),
    }
}

/// How long the loop may wait, in microseconds. `None` is as long as it takes.
pub open spec fn longest_wait(has_device: bool, outstanding: bool, watching: bool) -> Option<u64> {
    if !has_device {
        Some(RECONNECT_POLL_US)
    } else if outstanding {
        Some(TICK_US)
    } else if watching {
        None
    } else {
        Some(CONFIG_POLL_US)
    }
}

/// How long the loop may wait. Without a device something else has to wake it to look for one;
/// with a watch on the config directory there is no reason to ever wake a daemon nobody is using.
pub fn deadline(has_device: bool, outstanding: bool, watching: bool) -> (r: Option<u64>)
    ensures
        r == longest_wait(has_device, outstanding, watching),
{
    if !has_device {
        Some(RECONNECT_POLL_US)
    } else if outstanding {
        Some(TICK_US)
    } else if watching {
        None
    } else {
        Some(CONFIG_POLL_US)
    }
}

/// The loop sleeps for good exactly when it has its device, nothing is outstanding and a watch
/// does the noticing.
pub proof fn law_an_idle_daemon_never_wakes(has_device: bool, outstanding: bool, watching: bool)
    ensures
        longest_wait(has_device, outstanding, watching) is None <==> has_device && !outstanding
            && watching,
{
}

/// Where the device stands among the descriptors that are waited on.
pub const DEVICE: usize = 0;

/// Where the control socket stands among them.
pub const CONTROL: usize = 1;

/// Where the config watch stands among them, when there is one.
pub const CONFIG: usize = 2;

/// Something that a wake calls for.
#[derive(Debug, Clone, Copy, PartialEq, Eq, Structural)]
pub enum Job {
    /// Look for the device that has gone away.
    Reopen,
    /// Read the watched keyboard of this number.
    Keyboard(usize),
    /// Act on the queued commands.
    Control,
    /// Read the device.
    Device,
}

/// Where the watched keyboards begin: behind the config watch, which may not be there.
pub open spec fn first_keyboard(watching: bool) -> int {
    if watching {
        CONFIG + 1
    } else {
        CONFIG as int
    }
}

/// The keyboards among the first `n` that a wake reports, in order.
pub open spec fn ready_keyboards(w: Wake, from: int, n: int) -> Seq<Job>
    decreases n,
{
    if n <= 0 {
        Seq::empty()
    } else if reports(w, from + n - 1) {
        ready_keyboards(w, from, n - 1).push(Job::Keyboard((n - 1) as usize))
    } else {
        ready_keyboards(w, from, n - 1)
    }
}

/// What a wake calls for, in order. An interrupted wait calls for nothing but another look at
/// whether to stop.
pub open spec fn jobs_of(w: Wake, has_device: bool, watching: bool, keyboards: int) -> Seq<Job> {
    let reopen = if has_device || w is Interrupted {
        Seq::empty()
    } else {
        seq![Job::Reopen]
    };
    let control = if reports(w, CONTROL as int) {
        seq![Job::Control]
    } else {
        Seq::empty()
    };
    let device = if reports(w, DEVICE as int) {
        seq![Job::Device]
    } else {
        Seq::empty()
    };
    reopen + ready_keyboards(w, first_keyboard(watching), keyboards) + control + device
}

/// What a wake calls for. The keyboards come before anything is filtered, so that a constraint
/// engages on the report in which the press arrived, and the commands before the device, so that
/// a queued switch takes effect before the next batch of motion. Nothing is read that did not
/// report itself as readable.
pub fn jobs(wake: Wake, has_device: bool, watching: bool, keyboards: usize) -> (r: Vec<Job>)
    requires
        wake is Ready ==> first_keyboard(watching) + keyboards <= MOST_REPORTED,
    ensures
        r@ == jobs_of(wake, has_device, watching, keyboards as int),
{
    let mut out: Vec<Job> = Vec::new();
    if let Wake::Interrupted = wake {
        proof {
            keyboards_are_keyboards(wake, first_keyboard(watching), keyboards as int);
            assert(out@ =~= jobs_of(wake, has_device, watching, keyboards as int));
        }
        return out;
    }
    if !has_device {
        out.push(Job::Reopen);
    }
    let ghost reopen = out@;
    let from: usize = if watching {
        CONFIG + 1
    } else {
        CONFIG
    };
    let mut i: usize = 0;
    while i < keyboards
        invariant
            i <= keyboards,
            from == first_keyboard(watching),
            wake is Ready ==> from + keyboards <= MOST_REPORTED,
            out@ =~= reopen + ready_keyboards(wake, from as int, i as int),
        decreases keyboards - i,
    {
        if let Wake::Ready(_) = wake {
            if wake.has(from + i) {
                out.push(Job::Keyboard(i));
            }
        }
        i = i + 1;
    }
    if wake.has(CONTROL) {
        out.push(Job::Control);
    }
    if wake.has(DEVICE) {
        out.push(Job::Device);
    }
    assert(out@ =~= jobs_of(wake, has_device, watching, keyboards as int));
    out
}

/// No keyboard among the jobs of one is anything but a keyboard.
proof fn keyboards_are_keyboards(w: Wake, from: int, n: int)
    ensures
        forall|k: int|
            0 <= k < ready_keyboards(w, from, n).len() ==> (#[trigger] ready_keyboards(w, from, n)[k])
                is Keyboard,
        !(w is Ready) ==> ready_keyboards(w, from, n).len() == 0,
    decreases n,
{
    if n > 0 {
        keyboards_are_keyboards(w, from, n - 1);
    }
}

/// Commands are acted on before the device is read, and the device is read last of all.
pub proof fn law_commands_come_before_motion(
    w: Wake,
    has_device: bool,
    watching: bool,
    keyboards: int,
    i: int,
    j: int,
)
    requires
        0 <= i < jobs_of(w, has_device, watching, keyboards).len(),
        0 <= j < jobs_of(w, has_device, watching, keyboards).len(),
        jobs_of(w, has_device, watching, keyboards)[j] == Job::Device,
        i != j,
    ensures
        i < j,
{
    keyboards_are_keyboards(w, first_keyboard(watching), keyboards);
}

/// A wait that ran out or was interrupted reads nothing: reading a descriptor that has nothing
/// waiting would block, and strand every queued command behind it. One that was interrupted does
/// nothing at all.
pub proof fn law_nothing_is_read_unasked(w: Wake, has_device: bool, watching: bool, keyboards: int)
    requires
        !(w is Ready),
    ensures
        jobs_of(w, has_device, watching, keyboards) == if has_device || w is Interrupted {
            Seq::<Job>::empty()
        } else {
            seq![Job::Reopen]
        },
{
    keyboards_are_keyboards(w, first_keyboard(watching), keyboards);
    assert(jobs_of(w, has_device, watching, keyboards) =~= if has_device || w is Interrupted {
        Seq::<Job>::empty()
    } else {
        seq![Job::Reopen]
    });
}

/// Whether a zero-motion tick is due: the wait ran out while filters had something left to do.
pub fn tick_due(wake: Wake, outstanding: bool, inert: bool) -> (b: bool)
    ensures
        b == is_tick(wake, outstanding, inert),
{
    match wake {
        Wake::Timeout => outstanding && !inert,
        _ => false,
    }
}

/// Whether a cursor report of the compositor is adopted: only while no pen is in proximity, which
/// owns the cursor then, and once the hand has been still for long enough that the report is not
/// an echo of what was emitted here.
pub fn adopts_cursor(any_in_proximity: bool, now: u64, last_emit: u64) -> (b: bool)
    ensures
        b == is_settled_cursor(any_in_proximity, now, last_emit),
{
    !any_in_proximity && now >= last_emit && now - last_emit >= ADOPT_IDLE_US
}

/// The fallback for a config directory that could not be watched: its newest change, looked at
/// now and then.
#[derive(Debug)]
pub struct ConfigPoll {
    pub last_check: u64,
    /// Newest change seen, as whatever number the caller counts changes by.
    pub newest: Option<u64>,
}

impl ConfigPoll {
    /// Whether it is time to look again.
    pub fn due(&self, now: u64) -> (b: bool)
        ensures
            b == is_look_due(self.last_check, now),
    {
        now >= self.last_check && now - self.last_check >= CONFIG_POLL_US
    }

    /// Whether what was found now differs from what was found before.
    pub fn look(&mut self, now: u64, newest: Option<u64>) -> (b: bool)
        ensures
            *final(self) == (ConfigPoll { last_check: now, newest }),
            b == (newest != old(self).newest),
    {
        let changed = newest != self.newest;
        self.last_check = now;
        self.newest = newest;
        changed
    }
}

/// Reports with nothing emitted for them: something is wrong that the filters cannot explain.
#[derive(Debug)]
pub struct StallWatch {
    pub input_since: Option<u64>,
    pub reported: bool,
}

impl StallWatch {
    pub fn new() -> (r: Self)
        ensures
            r.input_since is None,
            !r.reported,
    {
        StallWatch { input_since: None, reported: false }
    }

    /// Look at a batch of motion: `emitted` where any of it reached a sink, `beyond` where the
    /// hand has travelled further than any filter would hold back. The time in silence, where it
    /// has to be reported; once per silence.
    ///
    /// Time alone cannot tell a stall from a filter working, nor can distance alone.
    pub fn batch(&mut self, now: u64, emitted: bool, beyond: bool) -> (r: Option<u64>)
        ensures
            (r, *final(self)) == looked_at(*old(self), now, emitted, beyond),
    {
        let since: u64 = match self.input_since {
            Some(t) => t,
            None => now,
        };
        if emitted {
            self.input_since = None;
            self.reported = false;
            return None;
        }
        self.input_since = Some(since);
        if !self.reported && now >= since && now - since > STALL_REPORT_US && beyond {
            self.reported = true;
            return Some(now - since);
        }
        None
    }
}

/// What the status command prints about the virtual tablets.
#[derive(Debug)]
pub struct TabletStatus {
    pub per_screen: bool,
    pub count: usize,
    pub placed: bool,
    /// The tablet that the pen is on, in words.
    pub active: String,
}

/// The lines about the virtual tablets. Whether placement took is the difference between
/// per-screen precision and every tablet covering the whole desktop, and it is not visible any
/// other way.
pub open spec fn tablet_lines(t: TabletStatus) -> Seq<Seq<char>> {
    if t.per_screen {
        let first = "  tablets: "@ + decimal(t.count as nat) + " — one per screen, pen on "@
            + t.active@;
        if t.placed {
            seq![first]
        } else {
            seq![
                first,
                "           NOT confined to their screens — map them in display settings"@,
            ]
        }
    } else {
        seq!["  tablet: "@ + t.active@ + " — one surface over the desktop"@]
    }
}

/// The first line of the status.
pub open spec fn status_line(m: ModesState, inert: bool) -> Seq<char> {
    "mode "@ + decimal((m.current + 1) as nat) + " — "@ + (match current_mode(m) {
        Some(mode) => mode.name@,
        None => "none"@,
    }) + " ("@ + (if inert {
        "PANICKED"@
    } else {
        "active"@
    }) + ")"@
}

/// What the status command prints.
pub open spec fn status_lines(m: ModesState, inert: bool, t: TabletStatus) -> Seq<Seq<char>> {
    seq![status_line(m, inert)] + Seq::new(
        m.slots.len(),
        |i: int| "  "@ + slot_line(m.slots[i], i),
    ) + tablet_lines(t)
}

impl Runtime {
    /// The lines that the status command prints.
    pub fn print_status(&self, t: &TabletStatus) -> (r: Vec<String>)
        ensures
            views(r@) == status_lines(self.modes@, self.inert, *t),
    {
        self.modes.stays_in_range();
        let total: usize = self.modes.slots().len();
        let slot: usize = if total == 0 {
            1
        } else {
            self.modes.current_index() + 1
        };
        let name = match self.modes.current() {
            Some(m) => owned(m.name.as_str()),
            None => owned("none"),
        };
        let state = if self.inert {
            "PANICKED"
        } else {
            "active"
        };
        let mut r: Vec<String> = Vec::new();
        r.push(
            owned("mode ").concat(number(slot as u64).as_str()).concat(" — ").concat(
                name.as_str(),
            ).concat(" (").concat(state).concat(")"),
        );
        let names = self.modes.names();
        let mut i: usize = 0;
        while i < names.len()
            invariant
                i <= names.len(),
                names@.len() == self.modes@.slots.len(),
                forall|k: int|
                    0 <= k < names@.len() ==> (#[trigger] names@[k])@ == slot_line(
                        self.modes@.slots[k],
                        k,
                    ),
                r@.len() == i + 1,
                r@[0]@ == status_line(self.modes@, self.inert),
                forall|k: int|
                    0 <= k < i ==> (#[trigger] r@[k + 1])@ == "  "@ + slot_line(
                        self.modes@.slots[k],
                        k,
                    ),
            decreases names.len() - i,
        {
            let ghost before = r@;
            r.push(owned("  ").concat(names[i].as_str()));
            proof {
                assert forall|k: int| 0 <= k < i + 1 implies (#[trigger] r@[k + 1])@ == "  "@
                    + slot_line(self.modes@.slots[k], k) by {
                    if k < i {
                        assert(r@[k + 1] == before[k + 1]);
                    }
                }
            }
            i += 1;
        }
        let ghost head = r@;
        proof {
            assert(views(head) =~= seq![status_line(self.modes@, self.inert)] + Seq::new(
                self.modes@.slots.len(),
                |i: int| "  "@ + slot_line(self.modes@.slots[i], i),
            )) by {
                assert forall|k: int| 0 <= k < head.len() implies views(head)[k] == (seq![
                    status_line(self.modes@, self.inert),
                ] + Seq::new(
                    self.modes@.slots.len(),
                    |i: int| "  "@ + slot_line(self.modes@.slots[i], i),
                ))[k] by {
                    if k > 0 {
                        assert(head[(k - 1) + 1]@ == "  "@ + slot_line(
                            self.modes@.slots[k - 1],
                            k - 1,
                        ));
                    }
                }
            }
        }
        if t.per_screen {
            r.push(
                owned("  tablets: ").concat(number(t.count as u64).as_str()).concat(
                    " — one per screen, pen on ",
                ).concat(t.active.as_str()),
            );
            if !t.placed {
                r.push(
                    owned(
                        "           NOT confined to their screens — map them in display settings",
                    ),
                );
            }
        } else {
            r.push(
                owned("  tablet: ").concat(t.active.as_str()).concat(
                    " — one surface over the desktop",
                ),
            );
        }
        assert(views(r@) =~= views(head) + tablet_lines(*t));
        r
    }
}

/// Whether some mode binds a code.
pub open spec fn binds(m: Mode, code: u16) -> bool {
    (exists|i: int| 0 <= i < m.modifier@.len() && (#[trigger] m.modifier@[i])@.contains(code)) || (
    exists|i: int|
        0 <= i < m.scroll_button@.len() && (#[trigger] m.scroll_button@[i])@.contains(code))
}

/// The keyboard codes that some mode binds.
pub open spec fn wanted(modes: Seq<Mode>, mouse: Seq<u16>) -> Set<u16> {
    Set::new(
        |code: u16|
            !mouse.contains(code) && exists|i: int|
                0 <= i < modes.len() && binds(#[trigger] modes[i], code),
    )
}

/// Whether codes stand in order, each once.
pub open spec fn ascending(codes: Seq<u16>) -> bool {
    forall|i: int, j: int| 0 <= i < j < codes.len() ==> codes[i] < codes[j]
}

/// Put a code where it belongs, unless it is there.
fn insert_sorted(codes: &mut Vec<u16>, code: u16)
    requires
        ascending(old(codes)@),
    ensures
        ascending(final(codes)@),
        final(codes)@.to_set() == old(codes)@.to_set().insert(code),
{
    let ghost before = codes@;
    let mut i: usize = 0;
    while i < codes.len() && codes[i] < code
        invariant
            i <= codes.len(),
            codes@ == before,
            ascending(before),
            forall|k: int| 0 <= k < i ==> before[k] < code,
        decreases codes.len() - i,
    {
        i += 1;
    }
    if i < codes.len() && codes[i] == code {
        assert(before.contains(code));
        assert(before.to_set() =~= before.to_set().insert(code));
        return;
    }
    codes.insert(i, code);
    proof {
        assert(codes@ =~= before.insert(i as int, code));
        assert forall|c: u16| codes@.to_set().contains(c) == before.to_set().insert(
            code,
        ).contains(c) by {
            if before.contains(c) {
                let k = choose|k: int| 0 <= k < before.len() && before[k] == c;
                if k < i {
                    assert(codes@[k] == c);
                } else {
                    assert(codes@[k + 1] == c);
                }
            }
            if c == code {
                assert(codes@[i as int] == c);
            }
            if codes@.contains(c) && c != code {
                let k = choose|k: int| 0 <= k < codes@.len() && codes@[k] == c;
                if k < i {
                    assert(before[k] == c);
                } else {
                    assert(before[k - 1] == c);
                }
            }
        }
        assert(codes@.to_set() =~= before.to_set().insert(code));
    }
}

/// The keyboard codes that some chord of a list holds.
pub open spec fn in_chords(chords: Seq<Vec<u16>>, mouse: Seq<u16>) -> Set<u16> {
    Set::new(
        |code: u16|
            !mouse.contains(code) && exists|i: int|
                0 <= i < chords.len() && (#[trigger] chords[i])@.contains(code),
    )
}

fn insert_chords(codes: &mut Vec<u16>, chords: &Vec<Vec<u16>>, mouse: &Vec<u16>)
    requires
        ascending(old(codes)@),
    ensures
        ascending(final(codes)@),
        final(codes)@.to_set() == old(codes)@.to_set().union(in_chords(chords@, mouse@)),
{
    let ghost before = codes@.to_set();
    let mut i: usize = 0;
    assert(codes@.to_set() =~= before.union(in_chords(chords@.take(0), mouse@)));
    while i < chords.len()
        invariant
            i <= chords.len(),
            ascending(codes@),
            codes@.to_set() == before.union(in_chords(chords@.take(i as int), mouse@)),
        decreases chords.len() - i,
    {
        let chord = &chords[i];
        let ghost start = codes@.to_set();
        let mut j: usize = 0;
        while j < chord.len()
            invariant
                j <= chord.len(),
                ascending(codes@),
                codes@.to_set() =~= start.union(
                    chord@.take(j as int).to_set().filter(|c: u16| !mouse@.contains(c)),
                ),
            decreases chord.len() - j,
        {
            proof {
                let was = chord@.take(j as int);
                let now = chord@.take(j + 1);
                assert(now =~= was.push(chord@[j as int]));
                assert forall|c: u16| now.contains(c) == (was.contains(c) || c == chord@[j as int])
                    by {
                    if was.contains(c) {
                        let k = choose|k: int| 0 <= k < was.len() && was[k] == c;
                        assert(now[k] == c);
                    }
                    assert(now[j as int] == chord@[j as int]);
                }
                assert(now.to_set() =~= was.to_set().insert(chord@[j as int]));
            }
            if !has_code(mouse, chord[j]) {
                insert_sorted(codes, chord[j]);
            }
            j += 1;
        }
        proof {
            assert(chord@.take(j as int) =~= chord@);
            let now = chords@.take(i + 1);
            let was = chords@.take(i as int);
            assert forall|c: u16| codes@.to_set().contains(c) == before.union(
                in_chords(now, mouse@),
            ).contains(c) by {
                if in_chords(was, mouse@).contains(c) {
                    let k = choose|k: int| 0 <= k < was.len() && (#[trigger] was[k])@.contains(c);
                    assert(now[k] == was[k]);
                }
                assert(now[i as int] == chord);
                if in_chords(now, mouse@).contains(c) {
                    let k = choose|k: int| 0 <= k < now.len() && (#[trigger] now[k])@.contains(c);
                    if k < i {
                        assert(was[k] == now[k]);
                    }
                }
            }
            assert(codes@.to_set() =~= before.union(in_chords(now, mouse@)));
        }
        i += 1;
    }
    assert(chords@.take(i as int) =~= chords@);
}

impl Runtime {
    /// Keep the keyboard codes to watch current, and say whether they changed: only then are the
    /// keyboards reopened. Reopening on every edit would drop and reacquire devices for a change
    /// that had nothing to do with bindings.
    pub fn rewatch_keyboards(&mut self) -> (r: bool)
        ensures
            *final(self) == (Runtime { watched_keys: final(self).watched_keys, ..*old(self) }),
            ascending(final(self).watched_keys@),
            final(self).watched_keys@.to_set() == wanted(
                old(self).modes@.slots,
                old(self).buttons.mouse@,
            ),
            r == (final(self).watched_keys@ != old(self).watched_keys@),
    {
        let codes = wanted_keys(self.modes.slots(), &self.buttons.mouse);
        let mut same = codes.len() == self.watched_keys.len();
        let mut i: usize = 0;
        while same && i < codes.len()
            invariant
                i <= codes.len(),
                same ==> codes@.len() == self.watched_keys@.len(),
                same ==> codes@.take(i as int) == self.watched_keys@.take(i as int),
                !same ==> codes@ != self.watched_keys@,
            decreases codes.len() - i,
        {
            if codes[i] != self.watched_keys[i] {
                same = false;
            } else {
                proof {
                    assert(codes@.take(i + 1) =~= self.watched_keys@.take(i + 1)) by {
                        assert(codes@.take(i as int).push(codes@[i as int]) =~= codes@.take(i + 1));
                        assert(self.watched_keys@.take(i as int).push(self.watched_keys@[i as int])
                            =~= self.watched_keys@.take(i + 1));
                    }
                }
            }
            i += 1;
        }
        proof {
            if same {
                assert(codes@.take(i as int) =~= codes@);
                assert(self.watched_keys@.take(i as int) =~= self.watched_keys@);
            }
        }
        if same {
            return false;
        }
        self.watched_keys = codes;
        true
    }
}

/// The keyboard codes that some mode binds, in order.
pub fn wanted_keys(modes: &Vec<Mode>, mouse: &Vec<u16>) -> (r: Vec<u16>)
    ensures
        ascending(r@),
        r@.to_set() == wanted(modes@, mouse@),
{
    let mut r: Vec<u16> = Vec::new();
    let mut i: usize = 0;
    assert(r@.to_set() =~= wanted(modes@.take(0), mouse@));
    while i < modes.len()
        invariant
            i <= modes.len(),
            ascending(r@),
            r@.to_set() == wanted(modes@.take(i as int), mouse@),
        decreases modes.len() - i,
    {
        insert_chords(&mut r, &modes[i].modifier, mouse);
        insert_chords(&mut r, &modes[i].scroll_button, mouse);
        proof {
            let now = modes@.take(i + 1);
            let was = modes@.take(i as int);
            assert forall|c: u16| r@.to_set().contains(c) == wanted(now, mouse@).contains(c) by {
                assert(now[i as int] == modes@[i as int]);
                if wanted(was, mouse@).contains(c) {
                    let k = choose|k: int| 0 <= k < was.len() && binds(#[trigger] was[k], c);
                    assert(now[k] == was[k]);
                }
                if wanted(now, mouse@).contains(c) {
                    let k = choose|k: int| 0 <= k < now.len() && binds(#[trigger] now[k], c);
                    if k < i {
                        assert(was[k] == now[k]);
                    }
                }
            }
            assert(r@.to_set() =~= wanted(now, mouse@));
        }
        i += 1;
    }
    assert(modes@.take(i as int) =~= modes@);
    r
}

/// Two ascending lists of the same codes are the same list, so the codes to watch change exactly
/// when the set of bound codes does.
pub proof fn law_the_watched_list_is_fixed_by_its_codes(a: Seq<u16>, b: Seq<u16>)
    requires
        ascending(a),
        ascending(b),
        a.to_set() == b.to_set(),
    ensures
        a == b,
    decreases a.len(),
{
    if a.len() == 0 {
        if b.len() > 0 {
            assert(b.to_set().contains(b[0]));
            assert(a.to_set().contains(b[0]));
        }
        assert(a =~= b);
    } else {
        assert(a.to_set().contains(a.last()));
        assert(b.contains(a.last()));
        assert(b.to_set().contains(b.last()));
        assert(a.contains(b.last()));
        assert(a.last() == b.last());
        let x = a.last();
        assert forall|c: u16| a.drop_last().to_set().contains(c) == b.drop_last().to_set().contains(
            c,
        ) by {
            lemma_all_but_last(a, c);
            lemma_all_but_last(b, c);
            assert(a.to_set().contains(c) == a.contains(c));
            assert(b.to_set().contains(c) == b.contains(c));
            assert(a.drop_last().to_set().contains(c) == a.drop_last().contains(c));
            assert(b.drop_last().to_set().contains(c) == b.drop_last().contains(c));
        }
        assert(a.drop_last().to_set() =~= b.drop_last().to_set());
        law_the_watched_list_is_fixed_by_its_codes(a.drop_last(), b.drop_last());
        assert(a =~= a.drop_last().push(x));
        assert(b =~= b.drop_last().push(x));
    }
}

proof fn lemma_all_but_last(a: Seq<u16>, c: u16)
    requires
        ascending(a),
        a.len() > 0,
    ensures
        a.drop_last().contains(c) == (a.contains(c) && c != a.last()),
{
    if a.drop_last().contains(c) {
        let k = choose|k: int| 0 <= k < a.drop_last().len() && a.drop_last()[k] == c;
        assert(a[k] == c);
    }
    if a.contains(c) && c != a.last() {
        let k = choose|k: int| 0 <= k < a.len() && a[k] == c;
        assert(a.drop_last()[k] == c);
    }
}

/// While a binding is captured a report goes no further: buttons, stroke, mode and transport stay
/// as they were. What a report can change at all is the capture, the buttons, the stroke and the
/// transport.
pub proof fn law_a_captured_report_goes_no_further(
    r: Begun,
    before: Runtime,
    after: Runtime,
    report: Report,
    now: u64,
    under: Under,
)
    requires
        is_begun(r, before, after, report, now, under),
    ensures
        r is Consumed <==> before.capture.until is Some && now < before.capture.until->0,
        r is Consumed ==> after.buttons == before.buttons && after.stroke_active
            == before.stroke_active && after.last_transport == before.last_transport,
        after.modes == before.modes,
        after.auto == before.auto,
        after.inert == before.inert,
        after.freeze == before.freeze,
        after.buttons.pen == before.buttons.pen,
        after.buttons.mouse == before.buttons.mouse,
        after.buttons.keys == before.buttons.keys,
{
}

/// A report is routed for the mode that is current. It goes where that mode goes over the window,
/// with every transition that is neither withheld nor the release of a swallowed press; the
/// constraint and the scroll gesture go by their own bindings; and buttons and stroke are left as
/// the last transition of each says.
pub proof fn law_a_report_is_routed_for_its_mode(
    r: Begun,
    before: Runtime,
    after: Runtime,
    report: Report,
    now: u64,
    under: Under,
    code: u16,
    pressed: bool,
)
    requires
        is_begun(r, before, after, report, now, under),
        !(r is Consumed),
        before.modes@.slots.len() > 0,
    ensures
        r is Ready,
        ({
            let p = r->Ready_0;
            let m = before.modes@.slots[before.modes@.current];
            let takes_pen = verdict(
                under.class@,
                under.signal,
                entry_views(before.tablet_overrides@),
            ).0;
            &&& p.output == if m.output == Output::Tablet && !takes_pen {
                Output::Mouse
            } else {
                m.output
            }
            &&& p.fallback <==> m.output == Output::Tablet && !takes_pen
            &&& p.keys@ == report.keys@.filter(
                |k: (u16, bool)|
                    (Some(m) is None || !is_withheld(after.buttons, Some(m)->0, k.0)) && (k.1
                        || !swallowed(
                        captured_report(before.capture@, report.keys@, now).swallow,
                        report.keys@,
                    ).1.contains(k.0)),
            )
            &&& p.constrain <==> exists|i: int|
                0 <= i < m.modifier@.len() && (#[trigger] m.modifier@[i])@.len() > 0
                    && m.modifier@[i]@.to_set().subset_of(held_codes(after.buttons))
            &&& p.scrolling <==> exists|i: int|
                0 <= i < m.scroll_button@.len() && (#[trigger] m.scroll_button@[i])@.len() > 0
                    && m.scroll_button@[i]@.to_set().subset_of(held_codes(after.buttons))
            &&& p.scroll_partial <==> exists|i: int|
                0 <= i < m.scroll_button@.len() && !(
                #[trigger] m.scroll_button@[i])@.to_set().disjoint(held_codes(after.buttons))
            &&& p.scroll_bound <==> m.scroll_button@.len() > 0
            &&& after.last_transport == Some(p.output)
            &&& p.notice is None <==> before.last_transport == Some(p.output)
        }),
        report.keys@.len() > 0 && report.keys@.last() == (code, pressed) ==> (
        after.buttons.held@.contains(code) <==> pressed),
        report.keys@.len() > 0 && report.keys@.last() == (before.buttons.pen, pressed)
            ==> after.stroke_active == pressed,
        (forall|i: int| 0 <= i < report.keys@.len() ==> (#[trigger] report.keys@[i]).0 != code)
            ==> after.buttons.held@.contains(code) == before.buttons.held@.contains(code),
        (forall|i: int|
            0 <= i < report.keys@.len() ==> (#[trigger] report.keys@[i]).0 != before.buttons.pen)
            ==> after.stroke_active == before.stroke_active,
{
    let m = before.modes@.slots[before.modes@.current];
    let seen = captured_report(before.capture@, report.keys@, now);
    let gone = swallowed(seen.swallow, report.keys@).1;
    law_what_reaches_the_application(after.buttons, Some(m), gone, report.keys@);
    law_a_chord_needs_every_part(after.buttons, m.modifier@);
    law_a_chord_needs_every_part(after.buttons, m.scroll_button@);
    let held = before.buttons.held@.to_set();
    law_the_last_transition_counts(held, before.stroke_active, report.keys@, code);
    law_the_last_transition_counts(
        held,
        before.stroke_active,
        report.keys@,
        before.buttons.pen,
    );
    assert(after.buttons.held@.contains(code) == after.buttons.held@.to_set().contains(code));
    assert(before.buttons.held@.contains(code) == held.contains(code));
    if report.keys@.len() > 0 {
        assert(report.keys@[report.keys@.len() - 1] == report.keys@.last());
    }
}

/// What a report carries leaves whole once the filters have run. The wheel goes on as a stage left
/// it, then what the gesture scrolls, by the pointer where it is ready, else by the mouse; a pen
/// that is down keeps the wheel back. Only a pen can be held still, and only by a freeze that
/// runs; nothing but that freeze changes.
pub proof fn law_a_report_leaves_whole(
    steps: Seq<Step>,
    before: Runtime,
    after: Runtime,
    prepared: Prepared,
    report: Report,
    outcome: Outcome,
    class: Seq<char>,
    now: u64,
)
    requires
        is_finished(steps, before, after, prepared, report, outcome, class, now),
    ensures
        ({
            let sink = if outcome.pointer_ready && prepared.output != Output::Relative {
                Sink::Pointer
            } else {
                Sink::Mouse
            };
            let pen = prepared.output == Output::Tablet;
            let wheel = if pen && before.stroke_active {
                Seq::<(u16, i32)>::empty()
            } else {
                wheel_axes_left(report.other_relative@, outcome.taken)
            };
            let keys = if pen && !before.tablet_clicks {
                Seq::<(u16, bool)>::empty()
            } else {
                prepared.keys@
            };
            &&& axes_sent(steps) == axes_by(sink, wheel + scroll_axes(outcome.gesture))
            &&& buttons_sent(steps) == buttons_by(sink, keys)
            &&& pen ==> steps[0] == (Step::AdvancePen { frozen: after.freeze.until is Some })
            &&& pen ==> barrel_sent(steps) == barrel_of(prepared.keys@)
            &&& !pen && outcome.in_proximity ==> steps[0] == Step::LiftAll
            &&& !pen ==> after.freeze.until == before.freeze.until
        }),
        after.modes == before.modes,
        after.stroke_active == before.stroke_active,
        after.capture == before.capture,
        after.buttons == before.buttons,
        after.freeze.length_us == before.freeze.length_us,
        after.freeze.overrides == before.freeze.overrides,
        after.freeze.by_default == before.freeze.by_default,
{
    let d = choose|d: Delivery|
        {
            &&& #[trigger] steps_of(d) == steps
            &&& d.output == prepared.output
            &&& d.fallback == prepared.fallback
            &&& d.keys@ == prepared.keys@
            &&& d.wheel@ == wheel_axes_left(report.other_relative@, outcome.taken)
            &&& d.gesture == outcome.gesture
            &&& d.stroke_active == before.stroke_active
            &&& d.frozen == (prepared.output == Output::Tablet && after.freeze.until is Some)
            &&& d.tablet_clicks == before.tablet_clicks
            &&& d.in_proximity == outcome.in_proximity
            &&& d.pointer_ready == outcome.pointer_ready
        };
    match d.output {
        Output::Mouse => law_what_the_pointer_is_sent(d),
        Output::Relative => law_what_raw_deltas_send(d),
        Output::Tablet => law_what_the_pen_is_sent(d),
    }
}

/// A request to switch goes to the slot that it names, at once where no stroke is drawn and once
/// the stroke ends where one is; over a window with rules it overrules them there.
pub proof fn law_a_request_switches_where_it_says(
    r: Reaction,
    before: Runtime,
    after: Runtime,
    command: Command,
    now: u64,
    class: Seq<char>,
    has_device: bool,
    to: int,
)
    requires
        is_answer(r, before, after, Request::Command(command), now, class, has_device),
        in_range(before.modes@),
        0 <= to < before.modes@.slots.len(),
        to != before.modes@.current,
        command == Command::Mode((to + 1) as usize) && to < usize::MAX || (command == Command::Cycle
            && to == if before.modes@.current + 1 < before.modes@.slots.len() {
            before.modes@.current + 1
        } else {
            0
        }) || (command == Command::CyclePrev && to == if before.modes@.current > 0 {
            before.modes@.current - 1
        } else {
            before.modes@.slots.len() - 1
        }) || (command == Command::Flip && before.modes@.last_used == Some(to)),
    ensures
        r is Switch,
        !before.stroke_active ==> after.modes@.current == to && after.modes@.last_used == Some(
            before.modes@.current,
        ) && r->Switch_0 is Done && r->Switch_0->Done_0.to == to && r->Switch_0->Done_0.from
            == before.modes@.current,
        before.stroke_active ==> after.modes@.current == before.modes@.current
            && after.modes@.pending == Some(to) && r->Switch_0 is Queued,
        after.modes@.slots == before.modes@.slots,
        before.auto@.rules.len() > 0 && class.len() > 0 ==> after.auto@.overruled == Some(class),
        after.inert == before.inert,
        after.stroke_active == before.stroke_active,
        after.capture == before.capture,
        after.reload_requested == before.reload_requested,
{
    let s = before.modes@;
    law_an_action_goes_where_it_says(s, (to + 1) as usize);
}

/// The other requests do what they are named after and nothing else: stopping and starting set the
/// filtering state, a panic turns it round, a reload and a change of profile are noted, a capture
/// runs for eight seconds and begins with nothing, cancelling ends it, and asking for the status or
/// for the end changes nothing.
pub proof fn law_a_request_does_what_it_is_named_after(
    r: Reaction,
    before: Runtime,
    after: Runtime,
    request: Request,
    now: u64,
    class: Seq<char>,
    has_device: bool,
)
    requires
        is_answer(r, before, after, request, now, class, has_device),
        now + 8_000_000 <= u64::MAX,
    ensures
        request == Request::Command(Command::Quit) ==> r is Quit && after == before,
        request == Request::Command(Command::Status) ==> r is PrintStatus && after == before,
        request == Request::Command(Command::Reload) ==> after.reload_requested
            && after.requested_profile == before.requested_profile,
        request matches Request::Profile(name) ==> after.reload_requested
            && after.requested_profile == Some(name),
        request == Request::Command(Command::SetEnabled(false)) ==> after.inert,
        request == Request::Command(Command::SetEnabled(true)) && !has_device ==> !after.inert,
        request == Request::Command(Command::SetEnabled(true)) && !before.inert ==> after == before,
        request == Request::Command(Command::SetEnabled(true)) && before.inert && has_device
            ==> r->Inert_0 == InertStep::TryGrab && after == before,
        request == Request::Command(Command::Panic) && !before.inert ==> after.inert
            && r->Inert_0 == InertStep::Release,
        request == Request::Command(Command::Panic) && before.inert && !has_device ==> !after.inert,
        request == Request::Command(Command::Panic) && before.inert && has_device ==> r->Inert_0
            == InertStep::TryGrab,
        request is CaptureBinding ==> after.capture@.chord.len() == 0 && after.capture@.down == 0
            && after.capture@.captured == before.capture@.captured && after.capture@.until == Some(
            (now + 8_000_000) as u64,
        ) && after.capture@.swallow.len() == 0,
        request is CancelCapture ==> after.capture@.until is None && after.capture@.chord.len()
            == 0 && after.capture@.captured == before.capture@.captured,
        !(request is Command) ==> after.modes == before.modes && after.inert == before.inert,
        (request matches Request::Command(c) ==> !(c is Cycle) && !(c is CyclePrev) && !(c is Flip)
            && !(c is Mode)) ==> after.modes == before.modes && after.stroke_active
            == before.stroke_active && after.buttons == before.buttons,
{
}

/// The loop looks for its device once a second while that is gone, ticks every two milliseconds
/// while anything is outstanding, and else looks at an unwatched config every 400 milliseconds.
pub proof fn law_how_long_the_loop_waits(outstanding: bool, watching: bool)
    ensures
        longest_wait(false, outstanding, watching) == Some(1_000_000u64),
        longest_wait(true, true, watching) == Some(2_000u64),
        longest_wait(true, false, false) == Some(400_000u64),
{
}

/// A wake reads what it reports and nothing else: the device at place zero, the control socket at
/// place one, and each keyboard at its own place behind them and the config watch. A device that
/// is gone is looked for on every wake that was not interrupted.
pub proof fn law_a_wake_reads_what_it_reports(
    w: Wake,
    has_device: bool,
    watching: bool,
    keyboards: int,
    k: usize,
)
    requires
        0 <= keyboards <= usize::MAX,
    ensures
        jobs_of(w, has_device, watching, keyboards).contains(Job::Device) <==> reports(w, 0),
        jobs_of(w, has_device, watching, keyboards).contains(Job::Control) <==> reports(w, 1),
        jobs_of(w, has_device, watching, keyboards).contains(Job::Keyboard(k)) <==> k < keyboards
            && reports(
            w,
            k + if watching {
                3int
            } else {
                2int
            },
        ),
        jobs_of(w, has_device, watching, keyboards).contains(Job::Reopen) <==> !has_device && !(
        w is Interrupted),
{
    let all = jobs_of(w, has_device, watching, keyboards);
    let from = first_keyboard(watching);
    let boards = ready_keyboards(w, from, keyboards);
    keyboards_are_keyboards(w, from, keyboards);
    lemma_keyboard_is_ready(w, from, keyboards, k);
    let lead: int = if has_device || w is Interrupted {
        0
    } else {
        1
    };
    if lead == 1 {
        assert(all[0] == Job::Reopen);
    }
    if boards.contains(Job::Keyboard(k)) {
        let i = choose|i: int| 0 <= i < boards.len() && boards[i] == Job::Keyboard(k);
        assert(all[lead + i] == Job::Keyboard(k));
    }
    if all.contains(Job::Keyboard(k)) {
        let i = choose|i: int| 0 <= i < all.len() && all[i] == Job::Keyboard(k);
        assert(boards[i - lead] == Job::Keyboard(k));
    }
    if reports(w, 1) {
        assert(all[lead + boards.len()] == Job::Control);
    }
    if reports(w, 0) {
        assert(all[all.len() - 1] == Job::Device);
    }
}

proof fn lemma_keyboard_is_ready(w: Wake, from: int, n: int, k: usize)
    requires
        n <= usize::MAX,
    ensures
        ready_keyboards(w, from, n).contains(Job::Keyboard(k)) <==> k < n && reports(w, from + k),
    decreases n,
{
    if n > 0 {
        lemma_keyboard_is_ready(w, from, n - 1, k);
        let rest = ready_keyboards(w, from, n - 1);
        let all = ready_keyboards(w, from, n);
        if rest.contains(Job::Keyboard(k)) {
            let i = choose|i: int| 0 <= i < rest.len() && rest[i] == Job::Keyboard(k);
            assert(all[i] == Job::Keyboard(k));
        }
        if k == n - 1 && reports(w, from + k) {
            assert(all[rest.len() as int] == Job::Keyboard(k));
        }
    }
}

/// The keyboard keys that are watched are those that some chord of a modifier or of a scroll
/// button of some mode names, and no mouse button.
pub proof fn law_exactly_the_bound_keys_are_watched(
    modes: Seq<Mode>,
    mouse: Seq<u16>,
    code: u16,
    i: int,
    chord: Vec<u16>,
)
    ensures
        mouse.contains(code) ==> !wanted(modes, mouse).contains(code),
        !mouse.contains(code) && 0 <= i < modes.len() && (modes[i].modifier@.contains(chord)
            || modes[i].scroll_button@.contains(chord)) && chord@.contains(code) ==> wanted(
            modes,
            mouse,
        ).contains(code),
        wanted(modes, mouse).contains(code) ==> exists|j: int, c: Vec<u16>|
            #![trigger modes[j], c@.contains(code)]
            0 <= j < modes.len() && (modes[j].modifier@.contains(c)
                || modes[j].scroll_button@.contains(c)) && c@.contains(code),
{
    if wanted(modes, mouse).contains(code) {
        let j = choose|j: int| 0 <= j < modes.len() && binds(#[trigger] modes[j], code);
        let m = modes[j];
        if exists|k: int| 0 <= k < m.modifier@.len() && (#[trigger] m.modifier@[k])@.contains(code) {
            let k = choose|k: int|
                0 <= k < m.modifier@.len() && (#[trigger] m.modifier@[k])@.contains(code);
            let c = m.modifier@[k];
            assert(modes[j].modifier@.contains(c) && c@.contains(code));
        } else {
            let k = choose|k: int|
                0 <= k < m.scroll_button@.len() && (#[trigger] m.scroll_button@[k])@.contains(code);
            let c = m.scroll_button@[k];
            assert(modes[j].scroll_button@.contains(c) && c@.contains(code));
        }
    }
    if !mouse.contains(code) && 0 <= i < modes.len() && chord@.contains(code) {
        if modes[i].modifier@.contains(chord) {
            let k = choose|k: int|
                0 <= k < modes[i].modifier@.len() && modes[i].modifier@[k] == chord;
            assert(modes[i].modifier@[k]@.contains(code));
            assert(binds(modes[i], code));
        } else if modes[i].scroll_button@.contains(chord) {
            let k = choose|k: int|
                0 <= k < modes[i].scroll_button@.len() && modes[i].scroll_button@[k] == chord;
            assert(modes[i].scroll_button@[k]@.contains(code));
            assert(binds(modes[i], code));
        }
    }
}

/// A time in milliseconds is a thousand times as many microseconds, as far as they can be counted.
pub proof fn law_milliseconds_are_a_thousand_microseconds(ms: u64)
    ensures
        ms <= 18_446_744_073_709_551 ==> micros(ms) == 1000 * ms,
        ms > 18_446_744_073_709_551 ==> micros(ms) == 0xffff_ffff_ffff_ffff,
{
}

/// Each kind of change has an announcement of its own.
pub proof fn law_each_change_is_announced_as_itself(c: Change)
    ensures
        announce_of(c) == Announce::Mode <==> c == Change::Mode,
        announce_of(c) == Announce::Enabled <==> c == Change::Enabled,
        announce_of(c) == Announce::Config <==> c == Change::Config,
{
}

/// The time of a report: the source's own where it is later than the last, else just after it.
pub open spec fn time_of_report(last: u64, t_us: u64) -> u64 {
    if last == u64::MAX {
        u64::MAX
    } else if t_us > last {
        t_us
    } else {
        (last + 1) as u64
    }
}

/// The time of a synthesised tick.
pub open spec fn time_of_tick(last: u64) -> u64 {
    if last + TICK_US <= u64::MAX {
        (last + TICK_US) as u64
    } else {
        u64::MAX
    }
}

/// Time never stands still or runs back: a report is later than all before it, keeps the source's
/// time wherever that is so, and a tick is two milliseconds later.
pub proof fn law_time_runs_on(last: u64, t_us: u64)
    ensures
        last < u64::MAX ==> time_of_report(last, t_us) > last,
        t_us > last ==> time_of_report(last, t_us) == t_us,
        t_us <= last < u64::MAX ==> time_of_report(last, t_us) == last + 1,
        last <= u64::MAX - 2_000 ==> time_of_tick(last) == last + 2_000,
        time_of_tick(last) >= last,
{
}

/// Whether `r` is what the rules make of the window under the position.
pub open spec fn is_auto_switch(
    r: Switched,
    before: Runtime,
    after: Runtime,
    class: Seq<char>,
) -> bool {
    &&& after == (Runtime { modes: after.modes, auto: after.auto, ..before })
    &&& before.inert || before.stroke_active ==> r is Nothing && after == before
    &&& !(before.inert || before.stroke_active) ==> {
        &&& after.auto@ == entered(before.auto@, class)
        &&& match asked(before.auto@, class) {
            None => r is Nothing && after.modes == before.modes,
            Some(slot) => is_switch(
                r,
                before.modes@,
                after.modes@,
                Action::Select(slot),
                false,
            ),
        }
    }
}

/// Arriving at a window switches to the slot that its rule names, once: not during a stroke, not
/// while filtering is stopped, not where the slot is current already or is not there.
pub proof fn law_a_window_switches_to_its_slot(
    r: Switched,
    before: Runtime,
    after: Runtime,
    class: Seq<char>,
    slot: usize,
)
    requires
        is_auto_switch(r, before, after, class),
        in_range(before.modes@),
    ensures
        before.inert || before.stroke_active ==> after == before && r is Nothing,
        !before.inert && !before.stroke_active && asked(before.auto@, class) == Some(slot) && 1
            <= slot <= before.modes@.slots.len() && slot != before.modes@.current + 1 ==> r is Done
            && after.modes@.current == slot - 1 && after.modes@.last_used == Some(
            before.modes@.current,
        ),
        asked(before.auto@, class) is None ==> after.modes@ == before.modes@ && r is Nothing,
        asked(before.auto@, class) == Some(slot) && (slot == 0 || slot > before.modes@.slots.len()
            || slot == before.modes@.current + 1) ==> after.modes@ == before.modes@,
        !before.inert && !before.stroke_active && before.auto@.rules.len() > 0 && class.len() > 0
            ==> asked(after.auto@, class) is None,
        after.stroke_active == before.stroke_active,
        after.buttons == before.buttons,
        after.inert == before.inert,
{
    if before.modes@.slots.len() > 1 {
        law_an_action_goes_where_it_says(before.modes@, slot);
    }
}

/// Whether `r` is what becomes of a switch that waits.
pub open spec fn is_flush(r: Option<Applied>, before: Runtime, after: Runtime) -> bool {
    &&& after == (Runtime { modes: after.modes, ..before })
    &&& before.stroke_active ==> r is None && after == before
    &&& !before.stroke_active ==> {
        &&& r is Some <==> before.modes@.pending is Some
        &&& r is None ==> after.modes@ == before.modes@
        &&& r matches Some(a) ==> {
            let to = before.modes@.pending->0;
            &&& is_applied(a, before.modes@, to)
            &&& after.modes@ == switched(ModesState { pending: None, ..before.modes@ }, to)
        }
    }
}

/// A switch that waits is made once the stroke has ended, and then waits no longer; during the
/// stroke nothing changes.
pub proof fn law_a_waiting_switch_is_made_once(
    r: Option<Applied>,
    before: Runtime,
    after: Runtime,
    to: int,
)
    requires
        is_flush(r, before, after),
    ensures
        before.stroke_active ==> after == before && r is None,
        !before.stroke_active && before.modes@.pending == Some(to) ==> {
            &&& after.modes@.current == to
            &&& after.modes@.last_used == Some(before.modes@.current)
            &&& after.modes@.pending is None
            &&& r is Some && r->0.to == to && r->0.from == before.modes@.current
        },
        before.modes@.pending is None ==> after.modes@ == before.modes@ && r is None,
        after.modes@.slots == before.modes@.slots,
        after.stroke_active == before.stroke_active,
{
}

/// Whether `r` is what a look at the transport finds.
pub open spec fn is_fallback_check(
    r: (bool, bool),
    before: Runtime,
    after: Runtime,
    under: Under,
) -> bool {
    &&& r.0 == is_falling_back(
        current_mode(before.modes@),
        transport(current_mode(before.modes@), under, entry_views(before.tablet_overrides@)),
    )
    &&& r.1 == (r.0 != before.was_falling_back)
    &&& after == (Runtime { was_falling_back: r.0, ..before })
}

/// The mode falls back exactly where it draws and the window takes no pen, and that is news only
/// the first time it is seen.
pub proof fn law_a_fallback_is_news_once(
    r: (bool, bool),
    again: (bool, bool),
    before: Runtime,
    after: Runtime,
    later: Runtime,
    under: Under,
)
    requires
        is_fallback_check(r, before, after, under),
        is_fallback_check(again, after, later, under),
        before.modes@.slots.len() > 0,
    ensures
        r.0 <==> before.modes@.slots[before.modes@.current].output == Output::Tablet && !verdict(
            under.class@,
            under.signal,
            entry_views(before.tablet_overrides@),
        ).0,
        r.1 <==> r.0 != before.was_falling_back,
        again.0 == r.0,
        !again.1,
        later == after,
{
}

/// The loop's state once it has adopted a reloaded config.
pub open spec fn adopted(before: Runtime, fresh: Reloaded) -> Runtime {
    Runtime {
        modes: fresh.modes,
        tablet_clicks: fresh.tablet_emits_mouse_clicks,
        freeze: ScrollFreeze {
            by_default: fresh.freeze_position_while_scrolling,
            overrides: fresh.scroll_freeze,
            length_us: micros(fresh.scroll_freeze_ms),
            until: before.freeze.until,
        },
        ..before
    }
}

/// A reload brings its modes, its clicks and its freeze, each as the config has it, and leaves what
/// the hand is doing alone: buttons, stroke, capture, time and a freeze that runs.
pub proof fn law_a_reload_leaves_the_hand_alone(before: Runtime, fresh: Reloaded)
    ensures
        adopted(before, fresh).modes == fresh.modes,
        adopted(before, fresh).tablet_clicks == fresh.tablet_emits_mouse_clicks,
        adopted(before, fresh).freeze.by_default == fresh.freeze_position_while_scrolling,
        adopted(before, fresh).freeze.overrides == fresh.scroll_freeze,
        fresh.scroll_freeze_ms <= 1_000_000_000 ==> adopted(before, fresh).freeze.length_us == 1000
            * fresh.scroll_freeze_ms,
        adopted(before, fresh).freeze.until == before.freeze.until,
        adopted(before, fresh).buttons == before.buttons,
        adopted(before, fresh).stroke_active == before.stroke_active,
        adopted(before, fresh).capture == before.capture,
        adopted(before, fresh).last_t_us == before.last_t_us,
        adopted(before, fresh).inert == before.inert,
        adopted(before, fresh).auto == before.auto,
{
}

/// Whether `after` is what is published of a run.
pub open spec fn is_publication(
    run: Runtime,
    before: Snapshot,
    after: Snapshot,
    tablets: u32,
    tablets_placed: bool,
) -> bool {
    &&& after.mode_slot == (run.modes@.current + 1) as u32
    &&& after.mode_name@ == (match current_mode(run.modes@) {
        Some(m) => m.name@,
        None => Seq::<char>::empty(),
    })
    &&& after.modes@.len() == run.modes@.slots.len()
    &&& forall|i: int|
        0 <= i < after.modes@.len() ==> is_info(#[trigger] after.modes@[i], run.modes@.slots[i], i)
    &&& after == (Snapshot {
        mode_slot: after.mode_slot,
        mode_name: after.mode_name,
        modes: after.modes,
        panicked: run.inert,
        enabled: !run.inert,
        tablets,
        tablets_placed,
        ..before
    })
}

/// What is published is what is so: the current slot, counted from one, under its own name, every
/// slot with its name, output and preset, and whether filtering runs; the rest stays.
pub proof fn law_what_is_published_is_so(
    run: Runtime,
    before: Snapshot,
    after: Snapshot,
    tablets: u32,
    tablets_placed: bool,
    i: int,
)
    requires
        is_publication(run, before, after, tablets, tablets_placed),
        in_range(run.modes@),
        0 <= i < run.modes@.slots.len() < u32::MAX,
    ensures
        after.mode_slot == run.modes@.current + 1,
        after.mode_name@ == run.modes@.slots[run.modes@.current].name@,
        after.modes@[i].slot == i + 1,
        after.modes@[i].name@ == run.modes@.slots[i].name@,
        after.modes@[i].preset@ == run.modes@.slots[i].preset@,
        after.modes@[i].output@ == "tablet"@ <==> run.modes@.slots[i].output == Output::Tablet,
        after.modes@[i].output@ == "relative"@ <==> run.modes@.slots[i].output == Output::Relative,
        after.panicked <==> run.inert,
        after.enabled <==> !run.inert,
        after.tablets == tablets,
        after.tablets_placed == tablets_placed,
        after.profile == before.profile,
        after.profile_slug == before.profile_slug,
        after.degraded == before.degraded,
        after.devices == before.devices,
        after.tablet_overrides == before.tablet_overrides,
{
    assert(is_info(after.modes@[i], run.modes@.slots[i], i));
    law_outputs_are_told_apart(run.modes@.slots[i].output, Output::Tablet);
}

/// Whether `r` is the reload that is due, with the profile that was asked for.
pub open spec fn is_reload(
    r: Option<Option<String>>,
    before: Runtime,
    after: Runtime,
    edited: bool,
    has_dir: bool,
) -> bool {
    &&& r is Some <==> (edited || before.reload_requested) && has_dir
    &&& r matches Some(wanted) ==> {
        &&& wanted == before.requested_profile
        &&& after == (Runtime { reload_requested: false, requested_profile: None, ..before })
    }
    &&& r is None ==> after == before
}

/// A request for a reload is met once, with the profile that was asked for with it, and waits until
/// there is a directory to load; an edit is reason enough.
pub proof fn law_a_reload_is_asked_for_once(
    r: Option<Option<String>>,
    again: Option<Option<String>>,
    before: Runtime,
    after: Runtime,
    later: Runtime,
)
    requires
        is_reload(r, before, after, false, true),
        is_reload(again, after, later, false, true),
    ensures
        before.reload_requested <==> r is Some,
        before.reload_requested ==> r == Some(before.requested_profile),
        again is None,
        later == after,
        !after.reload_requested,
        before.reload_requested ==> after.requested_profile is None,
        after.modes == before.modes,
        is_reload(None, before, before, true, false),
        !is_reload(None, before, after, true, true),
{
}

/// The loop's state without its device.
pub open spec fn without_device(before: Runtime) -> Runtime {
    Runtime {
        stroke_active: false,
        freeze: ScrollFreeze { until: None, ..before.freeze },
        ..before
    }
}

/// Losing the device ends the stroke and a freeze, and nothing else.
pub proof fn law_losing_the_device_ends_the_stroke(before: Runtime)
    ensures
        !without_device(before).stroke_active,
        without_device(before).freeze.until is None,
        without_device(before).freeze.length_us == before.freeze.length_us,
        without_device(before).modes == before.modes,
        without_device(before).inert == before.inert,
        without_device(before).buttons == before.buttons,
        without_device(before).capture == before.capture,
{
}

/// Whether a tick is due.
pub open spec fn is_tick(wake: Wake, outstanding: bool, inert: bool) -> bool {
    wake is Timeout && outstanding && !inert
}

/// A wait that ran out is a tick exactly while filters run and have something left to do.
pub proof fn law_only_a_wait_that_ran_out_ticks(wake: Wake, outstanding: bool, inert: bool)
    ensures
        is_tick(Wake::Timeout, true, false),
        !is_tick(wake, false, inert),
        !is_tick(wake, outstanding, true),
        !(wake is Timeout) ==> !is_tick(wake, outstanding, inert),
{
}

/// Whether a cursor report is adopted.
pub open spec fn is_settled_cursor(any_in_proximity: bool, now: u64, last_emit: u64) -> bool {
    !any_in_proximity && now - last_emit >= ADOPT_IDLE_US
}

/// The cursor is adopted once nothing was emitted for 150 milliseconds, and never under a pen.
pub proof fn law_the_cursor_is_adopted_once_it_rests(now: u64, last_emit: u64)
    ensures
        !is_settled_cursor(true, now, last_emit),
        now - last_emit >= 150_000 ==> is_settled_cursor(false, now, last_emit),
        now - last_emit < 150_000 ==> !is_settled_cursor(false, now, last_emit),
{
}

/// Whether it is time to look at the config again.
pub open spec fn is_look_due(last_check: u64, now: u64) -> bool {
    now - last_check >= CONFIG_POLL_US
}

/// The config is looked at every 400 milliseconds and no more often.
pub proof fn law_looks_are_spaced(last_check: u64, now: u64)
    ensures
        is_look_due(last_check, now) <==> now - last_check >= 400_000,
        !is_look_due(now, now),
{
}

/// What a batch of motion gives a stall to report, and the watch after it.
pub open spec fn looked_at(w: StallWatch, now: u64, emitted: bool, beyond: bool) -> (
    Option<u64>,
    StallWatch,
) {
    let since = match w.input_since {
        Some(t) => t,
        None => now,
    };
    if emitted {
        (None, StallWatch { input_since: None, reported: false })
    } else if !w.reported && now - since > STALL_REPORT_US && beyond {
        (Some((now - since) as u64), StallWatch { input_since: Some(since), reported: true })
    } else {
        (None, StallWatch { input_since: Some(since), ..w })
    }
}

/// Silence is reported once it has lasted more than 600 milliseconds and the hand has gone further
/// than a filter holds back, once, with how long it has lasted; whatever is emitted ends it.
pub proof fn law_a_silence_is_reported_once(
    w: StallWatch,
    start: u64,
    now: u64,
    later: u64,
    beyond: bool,
)
    requires
        start <= now <= later,
    ensures
        looked_at(w, now, true, beyond).0 is None,
        looked_at(w, now, true, beyond).1.input_since is None,
        !looked_at(w, now, true, beyond).1.reported,
        w.input_since is None ==> looked_at(w, now, false, beyond).0 is None && looked_at(
            w,
            now,
            false,
            beyond,
        ).1.input_since == Some(now),
        w.input_since == Some(start) && !w.reported && now - start > 600_000 ==> looked_at(
            w,
            now,
            false,
            true,
        ).0 == Some((now - start) as u64),
        w.input_since == Some(start) && now - start <= 600_000 ==> looked_at(w, now, false, beyond).0
            is None,
        looked_at(w, now, false, false).0 is None,
        looked_at(w, now, false, beyond).0 is Some ==> looked_at(
            looked_at(w, now, false, beyond).1,
            later,
            false,
            true,
        ).0 is None,
        w.input_since == Some(start) ==> looked_at(w, now, false, beyond).1.input_since == Some(
            start,
        ),
{
}

/// The loop's state once grabbing the device again was tried.
pub open spec fn resumed(before: Runtime, ok: bool) -> Runtime {
    Runtime { inert: before.inert && !ok, ..before }
}

/// Filtering resumes where the device was grabbed and stays stopped where it was not.
pub proof fn law_filtering_resumes_where_the_grab_succeeds(before: Runtime)
    ensures
        !resumed(before, true).inert,
        resumed(before, false) == before,
        resumed(before, true).modes == before.modes,
        resumed(before, true).buttons == before.buttons,
{
}

/// The status begins with the current slot, says that it panicked exactly where filtering is
/// stopped, and has a line for every slot and the lines about the tablets.
pub proof fn law_the_status_has_every_slot(m: ModesState, inert: bool, t: TabletStatus, i: int)
    requires
        in_range(m),
        0 <= i < m.slots.len(),
    ensures
        status_lines(m, inert, t).len() == 1 + m.slots.len() + tablet_lines(t).len(),
        status_lines(m, inert, t)[1 + i] == "  "@ + slot_line(m.slots[i], i),
        status_lines(m, inert, t)[0] == "mode "@ + decimal((m.current + 1) as nat) + " — "@
            + m.slots[m.current].name@ + " ("@ + (if inert {
            "PANICKED"@
        } else {
            "active"@
        }) + ")"@,
        tablet_lines(t).len() == if t.per_screen && !t.placed {
            2int
        } else {
            1
        },
{
}

} // verus!
