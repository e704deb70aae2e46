//! What a run starts with, and what a reload puts in its place.

use crate::config::assemble::PlannedStage;
use crate::config::cascade::{is_view_of, DeviceView};
use crate::config::schema::{scroll_freeze_default, Identity, Profile};
use crate::config::store::{startup_slug, Store};
use crate::daemon::auto::{rule_views, AutoState, AutoSwitch};
use crate::daemon::buttons::Buttons;
use crate::daemon::capture::BindingCapture;
use crate::daemon::focus::entry_views;
use crate::daemon::modes::{is_info, Mode, Modes};
use crate::daemon::routing::ScrollFreeze;
use crate::daemon::runtime::{current_mode, micros, Reloaded, Runtime};
use crate::daemon::service::{Degraded, Snapshot};
use crate::daemon::setup::{
    ModePlan, active_profile, are_plans, build_modes, law_every_mode_has_its_slot, str_view,
};
use crate::dict::Dict;
use crate::text::{decimal, number, owned, views};
use vstd::prelude::*;
use vstd::string::*;

verus! {

/// The left button, which counts as pen-down in tablet mode.
pub const BTN_LEFT: u16 = 0x110;

/// The axes of the pointer's motion.
pub const REL_X: u16 = 0x00;

pub const REL_Y: u16 = 0x01;

/// The choices of a profile that the loop runs by.
#[derive(Debug, Clone, Copy, PartialEq, Eq, Structural)]
pub struct Settings {
    pub destroy_tablet_on_leave: bool,
    pub tablet_emits_mouse_clicks: bool,
    pub freeze_position_while_scrolling: bool,
    pub scroll_freeze_ms: u64,
}

/// The choices of the profile for startup. Without one everything is off.
pub open spec fn settings_of(profile: Option<Profile>) -> Settings {
    match profile {
        Some(p) => Settings {
            destroy_tablet_on_leave: p.destroy_tablet_on_leave,
            tablet_emits_mouse_clicks: p.tablet_emits_mouse_clicks,
            freeze_position_while_scrolling: p.freeze_position_while_scrolling,
            scroll_freeze_ms: p.scroll_freeze_ms,
        },
        None => Settings {
            destroy_tablet_on_leave: false,
            tablet_emits_mouse_clicks: false,
            freeze_position_while_scrolling: false,
            scroll_freeze_ms: 250,
        },
    }
}

/// The choices that the loop runs by.
pub fn settings(store: &Store) -> (r: Settings)
    ensures
        r == settings_of(active_profile(*store, None)),
{
    match store.startup_profile() {
        Some(p) => Settings {
            destroy_tablet_on_leave: p.destroy_tablet_on_leave,
            tablet_emits_mouse_clicks: p.tablet_emits_mouse_clicks,
            freeze_position_while_scrolling: p.freeze_position_while_scrolling,
            scroll_freeze_ms: p.scroll_freeze_ms,
        },
        None => Settings {
            destroy_tablet_on_leave: false,
            tablet_emits_mouse_clicks: false,
            freeze_position_while_scrolling: false,
            scroll_freeze_ms: scroll_freeze_default(),
        },
    }
}

/// The entries of a list of window classes, in order.
pub fn entries_of(d: &Dict<bool>) -> (r: Vec<(String, bool)>)
    ensures
        entry_views(r@) == d.listed(),
{
    let mut r: Vec<(String, bool)> = Vec::new();
    let mut i: usize = 0;
    assert(entry_views(r@) =~= d.listed().take(0));
    while i < d.len()
        invariant
            i <= d.listed().len(),
            entry_views(r@) == d.listed().take(i as int),
        decreases d.listed().len() - i,
    {
        let ghost before = r@;
        r.push((owned(d.key(i)), *d.value(i)));
        proof {
            assert(entry_views(r@) =~= entry_views(before).push(d.listed()[i as int]));
            assert(d.listed().take(i + 1) =~= d.listed().take(i as int).push(d.listed()[i as int]));
        }
        i += 1;
    }
    assert(d.listed().take(i as int) =~= d.listed());
    r
}

/// The `auto_activate` rules of a profile. Opt-in: an absent section means no auto-switching.
pub open spec fn rules_of(profile: Option<Profile>) -> Seq<(Seq<char>, usize)> {
    match profile {
        Some(p) => Seq::new(
            p.auto_activate@.len(),
            |i: int| (p.auto_activate@[i].app@, p.auto_activate@[i].mode),
        ),
        None => seq![],
    }
}

/// The rules to switch modes by.
pub fn auto_rules(store: &Store) -> (r: Vec<(String, usize)>)
    ensures
        rule_views(r@) == rules_of(active_profile(*store, None)),
{
    let mut r: Vec<(String, usize)> = Vec::new();
    if let Some(p) = store.startup_profile() {
        let rules = &p.auto_activate;
        let mut i: usize = 0;
        while i < rules.len()
            invariant
                i <= rules.len(),
                r@.len() == i,
                forall|k: int|
                    0 <= k < i ==> (#[trigger] r@[k]).0@ == rules@[k].app@ && r@[k].1
                        == rules@[k].mode,
            decreases rules.len() - i,
        {
            r.push((owned(rules[i].app.as_str()), rules[i].mode));
            i += 1;
        }
    }
    assert(rule_views(r@) =~= rules_of(active_profile(*store, None)));
    r
}

/// The rules in words, separated by commas.
pub open spec fn rule_list(rules: Seq<(Seq<char>, usize)>) -> Seq<char>
    decreases rules.len(),
{
    if rules.len() == 0 {
        seq![]
    } else {
        let last = rules.last().0 + " → mode "@ + decimal(rules.last().1 as nat);
        if rules.len() == 1 {
            last
        } else {
            rule_list(rules.drop_last()) + ", "@ + last
        }
    }
}

/// The line about the rules. A rule that quietly does not fire is indistinguishable from a rule
/// that is not there, so they are stated.
pub fn rules_line(rules: &Vec<(String, usize)>) -> (r: String)
    ensures
        r@ == "  auto-switch: "@ + decimal(rules@.len()) + " rule(s) — "@ + rule_list(
            rule_views(rules@),
        ),
{
    let ghost all = rule_views(rules@);
    let mut list = String::new();
    let mut i: usize = 0;
    assert(list@ =~= rule_list(all.take(0)));
    while i < rules.len()
        invariant
            i <= rules.len(),
            all == rule_views(rules@),
            list@ == rule_list(all.take(i as int)),
        decreases rules.len() - i,
    {
        proof {
            assert(all.take(i + 1).drop_last() =~= all.take(i as int));
            assert(all.take(i + 1).last() == all[i as int]);
        }
        let one = owned(rules[i].0.as_str()).concat(" → mode ").concat(
            number(rules[i].1 as u64).as_str(),
        );
        if i == 0 {
            list = one;
        } else {
            list = list.concat(", ").concat(one.as_str());
        }
        i += 1;
    }
    assert(all.take(i as int) =~= all);
    owned("  auto-switch: ").concat(number(rules.len() as u64).as_str()).concat(
        " rule(s) — ",
    ).concat(list.as_str())
}

/// The source's axes minus its motion axes, for the absolute pointer. A device that declares both
/// relative and absolute motion invites being taken for something other than an absolute mouse.
pub fn wheel_axes(source: &Vec<u16>) -> (r: Vec<u16>)
    ensures
        r@ == source@.filter(|a: u16| a != REL_X && a != REL_Y),
{
    let ghost keep = |a: u16| a != REL_X && a != REL_Y;
    let mut r: Vec<u16> = Vec::new();
    let mut i: usize = 0;
    proof {
        reveal(Seq::filter);
        assert(source@.take(0).filter(keep) =~= Seq::<u16>::empty());
    }
    while i < source.len()
        invariant
            i <= source.len(),
            keep == (|a: u16| a != REL_X && a != REL_Y),
            r@ == source@.take(i as int).filter(keep),
        decreases source.len() - i,
    {
        proof {
            reveal(Seq::filter);
            let now = source@.take(i + 1);
            assert(now.drop_last() =~= source@.take(i as int));
            assert(now.last() == source@[i as int]);
        }
        if source[i] != REL_X && source[i] != REL_Y {
            r.push(source[i]);
        }
        i += 1;
    }
    assert(source@.take(i as int) =~= source@);
    r
}

/// The profile's name as it is published first: what was asked for, else what the startup profile
/// calls itself.
pub open spec fn first_name(store: Store, asked: Option<Seq<char>>) -> Seq<char> {
    match asked {
        Some(s) => s,
        None => match active_profile(store, None) {
            Some(p) => match p.display_name {
                Some(s) => s@,
                None => "default"@,
            },
            None => "default"@,
        },
    }
}

/// What is published before the loop begins.
pub fn first_snapshot(
    store: &Store,
    profile: Option<&str>,
    start_index: usize,
    modes: &Modes,
    tablets: u32,
    tablets_placed: bool,
) -> (r: Snapshot)
    requires
        start_index < usize::MAX,
    ensures
        r.profile@ == first_name(*store, str_view(profile)),
        r.profile_slug@ == Seq::<char>::empty(),
        r.mode_slot == (start_index + 1) as u32,
        r.mode_name@ == (match current_mode(modes@) {
            Some(m) => m.name@,
            None => Seq::<char>::empty(),
        }),
        r.enabled,
        !r.panicked,
        r.modes@.len() == modes@.slots.len(),
        forall|i: int|
            0 <= i < r.modes@.len() ==> is_info(#[trigger] r.modes@[i], modes@.slots[i], i),
        r.devices@.len() == 0,
        !r.degraded.degraded,
        r.degraded.reason@ == Seq::<char>::empty(),
        r.tablets == tablets,
        r.tablets_placed == tablets_placed,
        entry_views(r.tablet_overrides@) == store.root.typed().tablet_support.listed(),
{
    let name = match profile {
        Some(s) => owned(s),
        None => match store.startup_profile() {
            Some(p) => match &p.display_name {
                Some(s) => owned(s.as_str()),
                None => owned("default"),
            },
            None => owned("default"),
        },
    };
    let slot: usize = start_index + 1;
    Snapshot {
        profile: name,
        profile_slug: String::new(),
        mode_slot: #[verifier::truncate] (slot as u32),
        mode_name: match modes.current() {
            Some(m) => owned(m.name.as_str()),
            None => String::new(),
        },
        enabled: true,
        panicked: false,
        modes: modes.infos(),
        devices: Vec::new(),
        degraded: Degraded::default(),
        tablets,
        tablets_placed,
        tablet_overrides: entries_of(&store.root.data().tablet_support),
    }
}

/// What stands between the slots of a set of plans and the rest of them.
#[derive(Debug)]
pub struct Pipelines {
    /// The stages of each slot.
    pub stages: Vec<Vec<PlannedStage>>,
    /// What is wrong with the slots, in order.
    pub notices: Vec<String>,
}

/// The notices of plans, in order.
pub open spec fn notices_of(plans: Seq<ModePlan>) -> Seq<Seq<char>>
    decreases plans.len(),
{
    if plans.len() == 0 {
        seq![]
    } else {
        notices_of(plans.drop_last()) + views(plans.last().notices@)
    }
}

/// Plans, taken apart: the slots to switch between, and what runs in each.
pub fn take_apart(plans: Vec<ModePlan>) -> (r: (Vec<Mode>, Pipelines))
    ensures
        r.0@ == plans@.map_values(|p: ModePlan| p.mode),
        r.1.stages@ == plans@.map_values(|p: ModePlan| p.stages),
        views(r.1.notices@) == notices_of(plans@),
{
    let ghost all = plans@;
    let mut plans = plans;
    let mut slots: Vec<Mode> = Vec::new();
    let mut stages: Vec<Vec<PlannedStage>> = Vec::new();
    let mut notices: Vec<String> = Vec::new();
    proof {
        assert(all.skip(0) =~= all);
        assert(all.take(0) =~= Seq::<ModePlan>::empty());
        assert(views(notices@) =~= notices_of(all.take(0)));
    }
    while plans.len() > 0
        invariant
            slots@.len() + plans@.len() == all.len(),
            stages@.len() == slots@.len(),
            plans@ == all.skip(slots@.len() as int),
            forall|k: int| 0 <= k < slots@.len() ==> #[trigger] slots@[k] == all[k].mode,
            forall|k: int| 0 <= k < slots@.len() ==> #[trigger] stages@[k] == all[k].stages,
            views(notices@) == notices_of(all.take(slots@.len() as int)),
        decreases plans@.len(),
    {
        let ghost n = slots@.len() as int;
        let ghost before = plans@;
        let plan = plans.remove(0);
        let mut more = plan.notices;
        let ghost so_far = notices@;
        let ghost added = more@;
        proof {
            assert(before[0] == all[n]);
            assert(plans@ =~= all.skip(n + 1));
            assert(all.take(n + 1).drop_last() =~= all.take(n));
            assert(all.take(n + 1).last() == all[n]);
        }
        notices.append(&mut more);
        assert(views(notices@) =~= views(so_far) + views(added));
        slots.push(plan.mode);
        stages.push(plan.stages);
    }
    proof {
        assert(slots@ =~= all.map_values(|p: ModePlan| p.mode));
        assert(stages@ =~= all.map_values(|p: ModePlan| p.stages));
        assert(all.take(slots@.len() as int) =~= all);
    }
    (slots, Pipelines { stages, notices })
}

/// The slug that a run settles on: what was asked for, if it is there, else the startup profile's.
pub open spec fn settled_slug(store: Store, asked: Option<Seq<char>>) -> Option<Seq<char>> {
    if asked is Some && store.profiles.map().contains_key(asked->0) {
        asked
    } else {
        startup_slug(store)
    }
}

/// What the live profile is called: what it calls itself, else its slug.
pub open spec fn settled_name(store: Store, asked: Option<Seq<char>>) -> Seq<char> {
    match active_profile(store, asked) {
        Some(p) => match p.display_name {
            Some(s) => s@,
            None => settled_slug(store, asked)->0,
        },
        None => "default"@,
    }
}

/// Whether slots and pipelines are those that a store's profile gives the device of an identity,
/// one for each mode of the profile, and the notices what there is to say about them.
pub open spec fn is_run(
    slots: Seq<Mode>,
    pipelines: Pipelines,
    store: Store,
    asked: Option<Seq<char>>,
    identity: Identity,
) -> bool {
    exists|plans: Seq<ModePlan>, view: DeviceView|
        {
            &&& #[trigger] are_plans(plans, store, asked, &view)
            &&& #[trigger] is_view_of(view, store.root.typed(), identity)
            &&& slots == plans.map_values(|p: ModePlan| p.mode)
            &&& pipelines.stages@ == plans.map_values(|p: ModePlan| p.stages)
            &&& views(pipelines.notices@) == notices_of(plans)
        }
}

/// Whether a store's profile has no mode to run.
pub open spec fn has_no_mode(store: Store, asked: Option<Seq<char>>) -> bool {
    active_profile(store, asked) matches Some(p) && p.modes@.len() == 0
}

/// The slots to start with and what runs in them, or what to say where the profile has none: the
/// daemon does not start without a mode, and says so before it takes the device.
pub fn first_modes(store: &Store, profile: Option<&str>, identity: &Identity) -> (r: Result<
    (Vec<Mode>, Pipelines),
    String,
>)
    ensures
        r is Err <==> has_no_mode(*store, str_view(profile)),
        r matches Ok((slots, pipelines)) ==> is_run(
            slots@,
            pipelines,
            *store,
            str_view(profile),
            *identity,
        ),
        r matches Err(message) ==> message@ == "no usable mode found. Check that "@ + store.dir@
            + " has a profile with at least one [[mode]]"@,
{
    let plans = build_modes(store, profile, identity);
    if plans.len() == 0 {
        return Err(
            owned("no usable mode found. Check that ").concat(store.dir()).concat(
                " has a profile with at least one [[mode]]",
            ),
        );
    }
    Ok(take_apart(plans))
}

/// Whether a reload is what a store's profile gives the device of an identity.
pub open spec fn is_reloaded(
    fresh: Reloaded,
    pipelines: Pipelines,
    store: Store,
    asked: Option<Seq<char>>,
    identity: Identity,
) -> bool {
    let choices = settings_of(active_profile(store, None));
    &&& fresh.modes@.current == 0
    &&& fresh.modes@.last_used is None
    &&& fresh.modes@.pending is None
    &&& is_run(fresh.modes@.slots, pipelines, store, asked, identity)
    &&& fresh.destroy_tablet_on_leave == choices.destroy_tablet_on_leave
    &&& fresh.tablet_emits_mouse_clicks == choices.tablet_emits_mouse_clicks
    &&& fresh.freeze_position_while_scrolling == choices.freeze_position_while_scrolling
    &&& fresh.scroll_freeze_ms == choices.scroll_freeze_ms
    &&& entry_views(fresh.scroll_freeze@) == store.root.typed().scroll_freeze.listed()
    &&& fresh.profile_slug@ == (match settled_slug(store, asked) {
        Some(s) => s,
        None => Seq::<char>::empty(),
    })
    &&& fresh.profile_name@ == settled_name(store, asked)
}

/// What a reload of the config produces, or `None` where it has no usable mode: the running modes
/// stay then, rather than dropping to passthrough mid-stroke.
///
/// `wanted` is a profile that was asked for since, `running` the one that the run began with.
pub fn reload(
    store: &Store,
    wanted: Option<&str>,
    running: Option<&str>,
    identity: &Identity,
) -> (r: Option<(Reloaded, Pipelines)>)
    ensures
        r is None <==> has_no_mode(*store, str_view(asked_for(wanted, running))),
        r matches Some((fresh, pipelines)) ==> is_reloaded(
            fresh,
            pipelines,
            *store,
            str_view(asked_for(wanted, running)),
            *identity,
        ),
{
    let asked = match wanted {
        Some(_) => wanted,
        None => running,
    };
    let (slots, pipelines) = match first_modes(store, asked, identity) {
        Ok(run) => run,
        Err(_) => {
            return None;
        },
    };
    let choices = settings(store);
    let slug = slug_of(store, asked);
    let name = match crate::daemon::setup::profile_to_run(store, asked) {
        Some(p) => match &p.display_name {
            Some(s) => owned(s.as_str()),
            None => match &slug {
                Some(s) => owned(s.as_str()),
                None => owned("default"),
            },
        },
        None => owned("default"),
    };
    let modes = Modes::new(slots, 0);
    Some(
        (
            Reloaded {
                modes,
                destroy_tablet_on_leave: choices.destroy_tablet_on_leave,
                tablet_emits_mouse_clicks: choices.tablet_emits_mouse_clicks,
                freeze_position_while_scrolling: choices.freeze_position_while_scrolling,
                scroll_freeze_ms: choices.scroll_freeze_ms,
                scroll_freeze: entries_of(&store.root.data().scroll_freeze),
                profile_slug: match slug {
                    Some(s) => s,
                    None => String::new(),
                },
                profile_name: name,
            },
            pipelines,
        ),
    )
}

pub open spec fn asked_for<'b>(wanted: Option<&'b str>, running: Option<&'b str>) -> Option<
    &'b str,
> {
    match wanted {
        Some(_) => wanted,
        None => running,
    }
}

/// The slug that a run settles on.
fn slug_of(store: &Store, asked: Option<&str>) -> (r: Option<String>)
    ensures
        r is Some <==> settled_slug(*store, str_view(asked)) is Some,
        r matches Some(s) ==> settled_slug(*store, str_view(asked)) == Some(s@),
{
    if let Some(slug) = asked {
        if store.profile(slug).is_some() {
            return Some(owned(slug));
        }
    }
    store.default_profile_slug()
}

/// Whether a loop's state is the one that a run begins with.
pub open spec fn is_first_runtime(
    r: Runtime,
    store: Store,
    modes: Modes,
    mouse_buttons: Vec<u16>,
) -> bool {
    &&& r.modes == modes
    &&& r.auto@ == (AutoState {
        rules: rules_of(active_profile(store, None)),
        last_class: None,
        overruled: None,
    })
    &&& r.buttons.pen == BTN_LEFT
    &&& r.buttons.mouse == mouse_buttons
    &&& r.buttons.held@.len() == 0
    &&& r.buttons.keys@.len() == 0
    &&& r.capture.until is None
    &&& r.capture.chord@.len() == 0
    &&& r.capture.down == 0
    &&& r.capture.captured is None
    &&& r.capture.swallow@.len() == 0
    &&& r.freeze.by_default == settings_of(
        active_profile(store, None),
    ).freeze_position_while_scrolling
    &&& entry_views(r.freeze.overrides@) == store.root.typed().scroll_freeze.listed()
    &&& r.freeze.length_us == micros(settings_of(active_profile(store, None)).scroll_freeze_ms)
    &&& r.freeze.until is None
    &&& entry_views(r.tablet_overrides@) == store.root.typed().tablet_support.listed()
    &&& r.tablet_clicks == settings_of(active_profile(store, None)).tablet_emits_mouse_clicks
    &&& r.last_transport is None
    &&& !r.was_falling_back
    &&& r.requested_profile is None
    &&& !r.reload_requested
    &&& r.watched_keys@.len() == 0
    &&& !r.stroke_active
    &&& r.last_t_us == 0
    &&& !r.inert
}

/// The loop's state before its first report.
pub fn first_runtime(store: &Store, modes: Modes, mouse_buttons: Vec<u16>) -> (r: Runtime)
    ensures
        r.wf(),
        is_first_runtime(r, *store, modes, mouse_buttons),
{
    let choices = settings(store);
    let length_us: u64 = if choices.scroll_freeze_ms <= u64::MAX / 1000 {
        choices.scroll_freeze_ms * 1000
    } else {
        u64::MAX
    };
    Runtime {
        modes,
        auto: AutoSwitch::new(auto_rules(store)),
        buttons: Buttons {
            pen: BTN_LEFT,
            mouse: mouse_buttons,
            held: Vec::new(),
            keys: Vec::new(),
        },
        capture: BindingCapture::default(),
        freeze: ScrollFreeze {
            by_default: choices.freeze_position_while_scrolling,
            overrides: entries_of(&store.root.data().scroll_freeze),
            length_us,
            until: None,
        },
        tablet_overrides: entries_of(&store.root.data().tablet_support),
        tablet_clicks: choices.tablet_emits_mouse_clicks,
        last_transport: None,
        was_falling_back: false,
        requested_profile: None,
        reload_requested: false,
        watched_keys: Vec::new(),
        stroke_active: false,
        last_t_us: 0,
        inert: false,
    }
}

/// A run goes by what its profile says of each choice; without one everything is off and a freeze
/// would last a quarter of a second.
pub proof fn law_the_profile_decides_each_choice(p: Profile)
    ensures
        settings_of(Some(p)).destroy_tablet_on_leave == p.destroy_tablet_on_leave,
        settings_of(Some(p)).tablet_emits_mouse_clicks == p.tablet_emits_mouse_clicks,
        settings_of(Some(p)).freeze_position_while_scrolling == p.freeze_position_while_scrolling,
        settings_of(Some(p)).scroll_freeze_ms == p.scroll_freeze_ms,
        !settings_of(None).destroy_tablet_on_leave,
        !settings_of(None).tablet_emits_mouse_clicks,
        !settings_of(None).freeze_position_while_scrolling,
        settings_of(None).scroll_freeze_ms == 250,
{
}

/// The rules are those of the profile, in order, each application with its slot.
pub proof fn law_the_rules_are_the_profiles(p: Profile, i: int)
    ensures
        rules_of(Some(p)).len() == p.auto_activate@.len(),
        0 <= i < p.auto_activate@.len() ==> rules_of(Some(p))[i].0 == p.auto_activate@[i].app@
            && rules_of(Some(p))[i].1 == p.auto_activate@[i].mode,
        rules_of(None).len() == 0,
{
}

/// A run settles on the profile that was asked for where it is there, else on that for startup,
/// under the name that the profile gives itself, else under its slug.
pub proof fn law_a_run_settles_on_what_was_asked_for(store: Store, asked: Option<Seq<char>>)
    ensures
        asked matches Some(s) && store.profiles.map().contains_key(s) ==> settled_slug(store, asked)
            == asked,
        asked is None || !store.profiles.map().contains_key(asked->0) ==> settled_slug(store, asked)
            == startup_slug(store),
        active_profile(store, asked) is Some && active_profile(store, asked)->0.display_name is Some
            ==> settled_name(store, asked) == active_profile(store, asked)->0.display_name->0@,
        active_profile(store, asked) is Some && active_profile(store, asked)->0.display_name is None
            ==> settled_name(
            store,
            asked,
        ) == settled_slug(store, asked)->0,
        asked is Some ==> first_name(store, asked) == asked->0,
        settled_slug(store, asked) matches Some(s) && (startup_slug(store) matches Some(t)
            ==> store.profiles.map().contains_key(t)) ==> active_profile(store, asked) == Some(
            store.profiles.map()[settled_slug(store, asked)->0].typed(),
        ),
{
}

/// A run has a slot and a pipeline for every mode of its profile, in order, each under its own
/// name and with its own output.
pub proof fn law_a_run_has_every_mode(
    slots: Seq<Mode>,
    pipelines: Pipelines,
    store: Store,
    asked: Option<Seq<char>>,
    identity: Identity,
    i: int,
)
    requires
        is_run(slots, pipelines, store, asked, identity),
    ensures
        pipelines.stages@.len() == slots.len(),
        active_profile(store, asked) matches Some(p) ==> slots.len() == p.modes@.len() && (0 <= i
            < slots.len() ==> slots[i].name@ == p.modes@[i].name@ && slots[i].output
            == p.modes@[i].output && slots[i].preset@ == p.modes@[i].preset@),
        active_profile(store, asked) is None ==> slots.len() == 1 && slots[0].output
            == crate::config::schema::Output::Mouse && pipelines.stages@[0]@.len() == 0,
        has_no_mode(store, asked) <==> slots.len() == 0,
{
    let (plans, view) = choose|plans: Seq<ModePlan>, view: DeviceView|
        {
            &&& #[trigger] are_plans(plans, store, asked, &view)
            &&& #[trigger] is_view_of(view, store.root.typed(), identity)
            &&& slots == plans.map_values(|p: ModePlan| p.mode)
            &&& pipelines.stages@ == plans.map_values(|p: ModePlan| p.stages)
            &&& views(pipelines.notices@) == notices_of(plans)
        };
    law_every_mode_has_its_slot(plans, store, asked, &view, i);
    if plans.len() > 0 {
        assert(slots[0] == plans[0].mode);
        assert(pipelines.stages@[0] == plans[0].stages);
    }
    if 0 <= i < slots.len() {
        assert(slots[i] == plans[i].mode);
    }
}

/// What is said about a list of slots is what is said about each, in their order.
pub proof fn law_every_notice_is_passed_on(a: Seq<ModePlan>, b: Seq<ModePlan>)
    ensures
        notices_of(a + b) == notices_of(a) + notices_of(b),
        a.len() == 1 ==> notices_of(a) == views(a[0].notices@),
    decreases b.len(),
{
    if b.len() == 0 {
        assert(a + b =~= a);
        assert(notices_of(a) + notices_of(b) =~= notices_of(a));
    } else {
        law_every_notice_is_passed_on(a, b.drop_last());
        assert((a + b).drop_last() =~= a + b.drop_last());
        assert((a + b).last() == b.last());
        assert(notices_of(a + b) =~= notices_of(a) + notices_of(b));
    }
    if a.len() == 1 {
        assert(a.drop_last() =~= Seq::<ModePlan>::empty());
        assert(notices_of(a.drop_last()) =~= Seq::<Seq<char>>::empty());
        assert(notices_of(a) =~= views(a[0].notices@));
    }
}

/// A profile that was asked for since counts before the one that the run began with.
pub proof fn law_the_latest_wish_counts<'b>(wanted: &'b str, running: Option<&'b str>)
    ensures
        asked_for(Some(wanted), running) == Some(wanted),
        asked_for(None, running) == running,
{
}

/// A run begins with filtering on, nothing held, no stroke, no capture and no freeze; the left
/// button draws; and each choice is as the profile and the config have it.
pub proof fn law_a_run_begins_at_rest(
    r: Runtime,
    store: Store,
    modes: Modes,
    mouse_buttons: Vec<u16>,
    p: Profile,
)
    requires
        is_first_runtime(r, store, modes, mouse_buttons),
        active_profile(store, None) == Some(p),
    ensures
        !r.inert,
        !r.stroke_active,
        r.buttons.pen == 0x110,
        r.buttons.mouse == mouse_buttons,
        r.buttons.held@.len() == 0 && r.buttons.keys@.len() == 0,
        r.capture.until is None,
        r.freeze.until is None,
        r.modes == modes,
        r.auto@.rules.len() == p.auto_activate@.len(),
        r.auto@.last_class is None && r.auto@.overruled is None,
        r.tablet_clicks == p.tablet_emits_mouse_clicks,
        r.freeze.by_default == p.freeze_position_while_scrolling,
        p.scroll_freeze_ms <= 1_000_000_000 ==> r.freeze.length_us == 1000 * p.scroll_freeze_ms,
        entry_views(r.tablet_overrides@) == store.root.typed().tablet_support.listed(),
        entry_views(r.freeze.overrides@) == store.root.typed().scroll_freeze.listed(),
        !r.reload_requested && r.requested_profile is None,
{
}

/// A reload starts over in the first slot of the profile that was asked for, with one slot and one
/// pipeline for each of its modes, goes by the choices of the profile for startup, and says which
/// profile it settled on.
pub proof fn law_a_reload_is_of_the_profile_asked_for(
    fresh: Reloaded,
    pipelines: Pipelines,
    store: Store,
    slug: Seq<char>,
    identity: Identity,
    i: int,
)
    requires
        is_reloaded(fresh, pipelines, store, Some(slug), identity),
        store.profiles.map().contains_key(slug),
    ensures
        ({
            let p = store.profiles.map()[slug].typed();
            &&& fresh.profile_slug@ == slug
            &&& p.display_name matches Some(n) ==> fresh.profile_name@ == n@
            &&& p.display_name is None ==> fresh.profile_name@ == slug
            &&& fresh.modes@.current == 0
            &&& fresh.modes@.slots.len() == p.modes@.len()
            &&& pipelines.stages@.len() == p.modes@.len()
            &&& 0 <= i < p.modes@.len() ==> fresh.modes@.slots[i].name@ == p.modes@[i].name@
                && fresh.modes@.slots[i].output == p.modes@[i].output
            &&& active_profile(store, None) matches Some(q) ==> fresh.destroy_tablet_on_leave
                == q.destroy_tablet_on_leave && fresh.tablet_emits_mouse_clicks
                == q.tablet_emits_mouse_clicks && fresh.freeze_position_while_scrolling
                == q.freeze_position_while_scrolling && fresh.scroll_freeze_ms
                == q.scroll_freeze_ms
            &&& entry_views(fresh.scroll_freeze@) == store.root.typed().scroll_freeze.listed()
        }),
{
    law_a_run_has_every_mode(fresh.modes@.slots, pipelines, store, Some(slug), identity, i);
}

} // verus!
