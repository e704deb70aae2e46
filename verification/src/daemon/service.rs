//! What the bus is told, and what it may ask for.
//!
//! A status call never touches the input loop: it reads a [`Snapshot`] that the loop publishes on
//! change. Commands go the other way, over the socket that the loop already polls.

use crate::daemon::control::Command;
use crate::daemon::focus::{entry_views, supports_tablet, verdict, Signal, Under};
use crate::daemon::modes::ModeInfo;
use crate::dict::Dict;
use crate::text::{
    chars_of, eq_ignoring_case, owned, parse_u32, same_ignoring_case, same_text, string_of, trim,
    trimmed, unsigned,
};
use vstd::prelude::*;
use vstd::string::*;

verus! {

/// Whether output is limited, and why.
#[derive(Debug)]
pub struct Degraded {
    pub degraded: bool,
    pub reason: String,
}

impl Default for Degraded {
    fn default() -> (r: Self)
        ensures
            !r.degraded,
            r.reason@ == Seq::<char>::empty(),
    {
        Degraded { degraded: false, reason: String::new() }
    }
}

/// An input device, as the bus describes it.
#[derive(Debug)]
pub struct DeviceInfo {
    pub id: String,
    pub name: String,
    pub managed: bool,
}

/// What the daemon publishes about itself.
#[derive(Debug)]
pub struct Snapshot {
    pub profile: String,
    pub profile_slug: String,
    pub mode_slot: u32,
    pub mode_name: String,
    pub enabled: bool,
    pub panicked: bool,
    pub modes: Vec<ModeInfo>,
    pub devices: Vec<DeviceInfo>,
    pub degraded: Degraded,
    pub tablets: u32,
    pub tablets_placed: bool,
    /// Config's tablet-support overrides, so status agrees with the input loop.
    pub tablet_overrides: Vec<(String, bool)>,
}

impl Default for Snapshot {
    fn default() -> (r: Self)
        ensures
            r.profile@ == Seq::<char>::empty(),
            r.profile_slug@ == Seq::<char>::empty(),
            r.mode_slot == 0,
            r.mode_name@ == Seq::<char>::empty(),
            !r.enabled,
            !r.panicked,
            r.modes@.len() == 0,
            r.devices@.len() == 0,
            !r.degraded.degraded,
            r.degraded.reason@ == Seq::<char>::empty(),
            r.tablets == 0,
            !r.tablets_placed,
            r.tablet_overrides@.len() == 0,
    {
        Snapshot {
            profile: String::new(),
            profile_slug: String::new(),
            mode_slot: 0,
            mode_name: String::new(),
            enabled: false,
            panicked: false,
            modes: Vec::new(),
            devices: Vec::new(),
            degraded: Degraded::default(),
            tablets: 0,
            tablets_placed: false,
            tablet_overrides: Vec::new(),
        }
    }
}

/// What the input loop announces. Emitting the matching signal is somebody else's job.
#[derive(Debug, Clone, Copy, PartialEq, Eq, Structural)]
pub enum Announce {
    Mode,
    Enabled,
    Config,
    Degraded,
}

/// What the input loop can be asked for: a command of the control vocabulary, or something that
/// needs more than one line of it.
#[derive(Debug)]
pub enum Request {
    Command(Command),
    /// Switch to a profile by slug, through the reload that the config watch uses.
    Profile(String),
    /// Report the next button pressed rather than acting on it.
    CaptureBinding,
    /// End a capture that the frontend finished by other means.
    CancelCapture,
}

/// Why a call was refused: its arguments make no sense.
#[derive(Debug)]
pub struct InvalidArgs {
    pub message: String,
}

/// The `Debug` form of a text: in quotes, with escapes.
pub uninterp spec fn debug_text(s: Seq<char>) -> Seq<char>;

/// `<str as std::fmt::Debug>::fmt`: the text in quotes, with escapes.
#[verifier::external_body]
pub(crate) fn quoted(s: &str) -> (r: String)
    ensures
        r@ == debug_text(s@),
{
    format!("{:?}", s)
}

/// The command that jumps to a slot, if there can be such a slot.
pub open spec fn slot_command(slot: u32) -> Option<Command> {
    if slot == 0 {
        None
    } else {
        Some(Command::Mode(slot as usize))
    }
}

/// Jump to a slot. Slots are 1-based everywhere the user can see them, so zero is a caller
/// mistake rather than something to silently coerce.
pub fn set_mode(slot: u32) -> (r: Result<Command, InvalidArgs>)
    ensures
        r is Ok <==> slot != 0,
        r matches Ok(c) ==> c == Command::Mode(slot as usize),
        r matches Err(e) ==> e.message@ == "mode slots are 1-based"@,
        r is Ok <==> slot_command(slot) is Some,
        r matches Ok(c) ==> slot_command(slot) == Some(c),
{
    if slot == 0 {
        return Err(InvalidArgs { message: owned("mode slots are 1-based") });
    }
    Ok(Command::Mode(slot as usize))
}

/// The slot of the first mode of a name, in any case.
pub open spec fn slot_named(modes: Seq<ModeInfo>, name: Seq<char>) -> Option<u32>
    decreases modes.len(),
{
    if modes.len() == 0 {
        None
    } else if same_ignoring_case(modes[0].name@, name) {
        Some(modes[0].slot)
    } else {
        slot_named(modes.drop_first(), name)
    }
}

/// The names of modes, separated by commas.
pub open spec fn name_list(modes: Seq<ModeInfo>) -> Seq<char>
    decreases modes.len(),
{
    if modes.len() == 0 {
        seq![]
    } else if modes.len() == 1 {
        modes[0].name@
    } else {
        name_list(modes.drop_last()) + ", "@ + modes.last().name@
    }
}

fn list_names(modes: &Vec<ModeInfo>) -> (s: String)
    ensures
        s@ == name_list(modes@),
{
    if modes.len() == 0 {
        let s = String::new();
        assert(s@ =~= name_list(modes@));
        return s;
    }
    let mut s = owned(modes[0].name.as_str());
    let mut i: usize = 1;
    assert(name_list(modes@.take(1)) == modes@[0].name@);
    while i < modes.len()
        invariant
            1 <= i <= modes.len(),
            s@ == name_list(modes@.take(i as int)),
        decreases modes.len() - i,
    {
        proof {
            assert(modes@.take(i + 1).drop_last() =~= modes@.take(i as int));
            assert(modes@.take(i + 1).last() == modes@[i as int]);
        }
        s = s.concat(", ").concat(modes[i].name.as_str());
        i += 1;
    }
    assert(modes@.take(i as int) =~= modes@);
    s
}

/// Jump to the slot of a mode, by its name in any case. A name that matches nothing is answered
/// with those that exist: the usual cause is a typo, or a stale name from another profile.
pub fn set_mode_by_name(s: &Snapshot, name: &str) -> (r: Result<Command, InvalidArgs>)
    ensures
        r is Ok <==> slot_named(s.modes@, trim(name@)) is Some,
        r matches Ok(c) ==> c == Command::Mode(slot_named(s.modes@, trim(name@))->0 as usize),
        r matches Err(e) ==> e.message@ == "no mode named "@ + debug_text(name@)
            + "; this profile has "@ + name_list(s.modes@),
{
    let wanted = string_of(&trimmed(&chars_of(name)));
    let modes = &s.modes;
    let mut i: usize = 0;
    assert(modes@.skip(0) =~= modes@);
    while i < modes.len()
        invariant
            i <= modes.len(),
            *modes == s.modes,
            wanted@ == trim(name@),
            slot_named(modes@.skip(i as int), wanted@) == slot_named(modes@, wanted@),
        decreases modes.len() - i,
    {
        assert(modes@.skip(i as int)[0] == modes@[i as int]);
        assert(modes@.skip(i as int).drop_first() =~= modes@.skip(i + 1));
        if eq_ignoring_case(modes[i].name.as_str(), wanted.as_str()) {
            return Ok(Command::Mode(modes[i].slot as usize));
        }
        i += 1;
    }
    Err(
        InvalidArgs {
            message: owned("no mode named ").concat(quoted(name).as_str()).concat(
                "; this profile has ",
            ).concat(list_names(&s.modes).as_str()),
        },
    )
}

/// The slot that a cycle lands on: the one after the current, the first after the last.
pub open spec fn cycled_slot(slot: u32, total: int) -> int {
    slot as int % (if total > 0 {
        total
    } else {
        1
    }) + 1
}

/// The slot that a toggle lands on, computed from the published order rather than waiting for the
/// loop to confirm. The command that goes with it is [`Command::Cycle`].
pub fn toggle_mode(s: &Snapshot) -> (r: u32)
    requires
        s.modes@.len() <= u32::MAX,
    ensures
        r == cycled_slot(s.mode_slot, s.modes@.len() as int),
{
    let total: u32 = if s.modes.len() > 0 {
        s.modes.len() as u32
    } else {
        1
    };
    s.mode_slot % total + 1
}

/// Toggling advances by one and wraps at the last slot.
pub proof fn law_toggling_advances_and_wraps(slot: u32, total: int)
    requires
        1 <= slot <= total,
    ensures
        cycled_slot(slot, total) == if slot == total {
            1
        } else {
            slot + 1
        },
{
    if slot < total {
        assert(slot as int % total == slot as int) by (nonlinear_arith)
            requires
                0 <= slot as int,
                (slot as int) < total,
        ;
    } else {
        assert(total % total == 0) by (nonlinear_arith)
            requires
                total > 0,
        ;
    }
}

/// Switch to a profile.
pub fn set_profile(name: &str) -> (r: Result<Request, InvalidArgs>)
    ensures
        r is Ok <==> trim(name@).len() > 0,
        r matches Ok(q) ==> q matches Request::Profile(slug) && slug@ == name@,
        r matches Err(e) ==> e.message@ == "a profile slug is required"@,
{
    if trimmed(&chars_of(name)).len() == 0 {
        return Err(InvalidArgs { message: owned("a profile slug is required") });
    }
    Ok(Request::Profile(owned(name)))
}

/// The process number in a report about a window. It arrives as text, and zero stands for one
/// that cannot be read.
pub fn window_pid(pid: &str) -> (r: u32)
    ensures
        r == (match unsigned(trim(pid@), u32::MAX as nat) {
            Some(n) => n as u32,
            None => 0,
        }),
{
    match parse_u32(&trimmed(&chars_of(pid))) {
        Some(n) => n,
        None => 0,
    }
}

/// What is known of a class once it was looked at, and what is remembered from then on.
pub open spec fn remembered(
    cache: Map<Seq<char>, Option<Signal>>,
    class: Seq<char>,
    found: Option<Signal>,
) -> (Option<Signal>, Map<Seq<char>, Option<Signal>>) {
    if cache.contains_key(class) {
        (cache[class], cache)
    } else {
        (found, cache.insert(class, found))
    }
}

/// What inspection established about a window class: what is remembered of the class, else what
/// was found now, which is remembered from then on.
pub fn class_signal(
    cache: &mut Dict<Option<Signal>>,
    class: &str,
    found: Option<Signal>,
) -> (r: Option<Signal>)
    ensures
        (r, final(cache).map()) == remembered(old(cache).map(), class@, found),
{
    if let Some(known) = cache.get(class) {
        return *known;
    }
    cache.insert(owned(class), found);
    found
}

/// The output of the slot that is current, if there is such a slot.
pub open spec fn output_of_slot(modes: Seq<ModeInfo>, slot: u32) -> Option<Seq<char>>
    decreases modes.len(),
{
    if modes.len() == 0 {
        None
    } else if modes[0].slot == slot {
        Some(modes[0].output@)
    } else {
        output_of_slot(modes.drop_first(), slot)
    }
}

/// Whether the current mode is a tablet mode over a window that takes no pen.
pub open spec fn shows_fallback(s: Snapshot, under: Under) -> bool {
    &&& output_of_slot(s.modes@, s.mode_slot) == Some("tablet"@)
    &&& !verdict(under.class@, under.signal, entry_views(s.tablet_overrides@)).0
}

fn current_is_tablet(s: &Snapshot) -> (b: bool)
    ensures
        b == (output_of_slot(s.modes@, s.mode_slot) == Some("tablet"@)),
{
    let modes = &s.modes;
    let mut i: usize = 0;
    assert(modes@.skip(0) =~= modes@);
    while i < modes.len()
        invariant
            i <= modes.len(),
            *modes == s.modes,
            output_of_slot(modes@.skip(i as int), s.mode_slot) == output_of_slot(
                modes@,
                s.mode_slot,
            ),
        decreases modes.len() - i,
    {
        assert(modes@.skip(i as int)[0] == modes@[i as int]);
        assert(modes@.skip(i as int).drop_first() =~= modes@.skip(i + 1));
        if modes[i].slot == s.mode_slot {
            return same_text(modes[i].output.as_str(), "tablet");
        }
        i += 1;
    }
    false
}

/// Whether the current mode is delivering through its second choice. Computed on demand: the
/// input loop sleeps while nothing happens, so a focus change does not wake it, and a value it
/// published earlier would be stale exactly when someone asks.
pub fn is_fallback(s: &Snapshot, under: &Under) -> (b: bool)
    ensures
        b == shows_fallback(*s, *under),
{
    current_is_tablet(s) && !supports_tablet(under, &s.tablet_overrides)
}

/// A value of the status report.
#[derive(Debug)]
pub enum StatusValue {
    Text(String),
    Number(u32),
    Flag(bool),
}

/// The view of a [`StatusValue`].
pub enum StatusView {
    Text(Seq<char>),
    Number(u32),
    Flag(bool),
}

impl View for StatusValue {
    type V = StatusView;

    open spec fn view(&self) -> StatusView {
        match *self {
            StatusValue::Text(s) => StatusView::Text(s@),
            StatusValue::Number(n) => StatusView::Number(n),
            StatusValue::Flag(b) => StatusView::Flag(b),
        }
    }
}

pub open spec fn status_views(list: Seq<(&str, StatusValue)>) -> Seq<(Seq<char>, StatusView)> {
    list.map_values(|e: (&str, StatusValue)| (e.0@, e.1@))
}

/// The status report.
pub open spec fn status_of(s: Snapshot, under: Under, version: Seq<char>) -> Seq<
    (Seq<char>, StatusView),
> {
    seq![
        ("profile"@, StatusView::Text(s.profile@)),
        ("mode_slot"@, StatusView::Number(s.mode_slot)),
        ("mode_name"@, StatusView::Text(s.mode_name@)),
        ("enabled"@, StatusView::Flag(s.enabled)),
        ("panicked"@, StatusView::Flag(s.panicked)),
        ("degraded"@, StatusView::Flag(s.degraded.degraded)),
        ("degraded_reason"@, StatusView::Text(s.degraded.reason@)),
        ("tablets"@, StatusView::Number(s.tablets)),
        ("tablets_placed"@, StatusView::Flag(s.tablets_placed)),
        ("fallback"@, StatusView::Flag(shows_fallback(s, under))),
        ("focused_app"@, StatusView::Text(under.class@)),
        ("version"@, StatusView::Text(version)),
    ]
}

/// The status report, by name.
pub fn get_status(s: &Snapshot, under: &Under, version: &str) -> (r: Vec<
    (&'static str, StatusValue),
>)
    ensures
        status_views(r@) == status_of(*s, *under, version@),
{
    let fallback = is_fallback(s, under);
    let r = vec![
        ("profile", StatusValue::Text(owned(s.profile.as_str()))),
        ("mode_slot", StatusValue::Number(s.mode_slot)),
        ("mode_name", StatusValue::Text(owned(s.mode_name.as_str()))),
        ("enabled", StatusValue::Flag(s.enabled)),
        ("panicked", StatusValue::Flag(s.panicked)),
        ("degraded", StatusValue::Flag(s.degraded.degraded)),
        ("degraded_reason", StatusValue::Text(owned(s.degraded.reason.as_str()))),
        ("tablets", StatusValue::Number(s.tablets)),
        ("tablets_placed", StatusValue::Flag(s.tablets_placed)),
        ("fallback", StatusValue::Flag(fallback)),
        ("focused_app", StatusValue::Text(owned(under.class.as_str()))),
        ("version", StatusValue::Text(owned(version))),
    ];
    assert(status_views(r@) =~= status_of(*s, *under, version@));
    r
}

/// The presets of the profile's modes, as pairs of a slug and a name.
pub fn list_presets(s: &Snapshot) -> (r: Vec<(String, String)>)
    ensures
        r@.len() == s.modes@.len(),
        forall|i: int|
            0 <= i < r@.len() ==> (#[trigger] r@[i]).0@ == s.modes@[i].preset@ && r@[i].1@
                == s.modes@[i].preset@,
{
    let mut r: Vec<(String, String)> = Vec::new();
    let mut i: usize = 0;
    while i < s.modes.len()
        invariant
            i <= s.modes.len(),
            r@.len() == i,
            forall|j: int|
                0 <= j < i ==> (#[trigger] r@[j]).0@ == s.modes@[j].preset@ && r@[j].1@
                    == s.modes@[j].preset@,
        decreases s.modes.len() - i,
    {
        let p = s.modes[i].preset.as_str();
        r.push((owned(p), owned(p)));
        i += 1;
    }
    r
}

/// A mode is found by its name in any case: the slot is that of the first mode of that name, and
/// there is none where no mode has it.
pub proof fn law_a_mode_is_found_by_its_name(modes: Seq<ModeInfo>, name: Seq<char>, i: int)
    ensures
        (0 <= i < modes.len() && same_ignoring_case(modes[i].name@, name) && forall|j: int|
            0 <= j < i ==> !same_ignoring_case((#[trigger] modes[j]).name@, name)) ==> slot_named(
            modes,
            name,
        ) == Some(modes[i].slot),
        (forall|j: int|
            0 <= j < modes.len() ==> !same_ignoring_case((#[trigger] modes[j]).name@, name))
            ==> slot_named(modes, name) is None,
    decreases modes.len(),
{
    if modes.len() > 0 {
        let rest = modes.drop_first();
        law_a_mode_is_found_by_its_name(rest, name, i - 1);
        if 0 < i < modes.len() && forall|j: int|
            0 <= j < i ==> !same_ignoring_case((#[trigger] modes[j]).name@, name) {
            assert(!same_ignoring_case(modes[0].name@, name));
            assert forall|j: int| 0 <= j < i - 1 implies !same_ignoring_case(
                (#[trigger] rest[j]).name@,
                name,
            ) by {
                assert(rest[j] == modes[j + 1]);
            }
        }
        if forall|j: int|
            0 <= j < modes.len() ==> !same_ignoring_case((#[trigger] modes[j]).name@, name) {
            assert(!same_ignoring_case(modes[0].name@, name));
            assert forall|j: int| 0 <= j < rest.len() implies !same_ignoring_case(
                (#[trigger] rest[j]).name@,
                name,
            ) by {
                assert(rest[j] == modes[j + 1]);
            }
        }
    }
}

/// A fallback is shown exactly where the slot that is current draws and the window takes no pen.
pub proof fn law_a_fallback_is_shown_for_the_current_slot(s: Snapshot, under: Under, i: int)
    requires
        0 <= i < s.modes@.len(),
        s.modes@[i].slot == s.mode_slot,
        forall|j: int| 0 <= j < i ==> (#[trigger] s.modes@[j]).slot != s.mode_slot,
    ensures
        shows_fallback(s, under) <==> s.modes@[i].output@ == "tablet"@ && !verdict(
            under.class@,
            under.signal,
            entry_views(s.tablet_overrides@),
        ).0,
{
    lemma_output_of_slot(s.modes@, s.mode_slot, i);
}

proof fn lemma_output_of_slot(modes: Seq<ModeInfo>, slot: u32, i: int)
    requires
        0 <= i < modes.len(),
        modes[i].slot == slot,
        forall|j: int| 0 <= j < i ==> (#[trigger] modes[j]).slot != slot,
    ensures
        output_of_slot(modes, slot) == Some(modes[i].output@),
    decreases modes.len(),
{
    if i > 0 {
        let rest = modes.drop_first();
        assert(modes[0].slot != slot);
        assert forall|j: int| 0 <= j < i - 1 implies (#[trigger] rest[j]).slot != slot by {
            assert(rest[j] == modes[j + 1]);
        }
        lemma_output_of_slot(rest, slot, i - 1);
    }
}

/// The status says of each thing what is so, under that thing's own name.
pub proof fn law_the_status_says_what_is_so(s: Snapshot, under: Under, version: Seq<char>)
    ensures
        ({
            let all = status_of(s, under, version);
            &&& all.len() == 12
            &&& all.contains(("profile"@, StatusView::Text(s.profile@)))
            &&& all.contains(("mode_slot"@, StatusView::Number(s.mode_slot)))
            &&& all.contains(("mode_name"@, StatusView::Text(s.mode_name@)))
            &&& all.contains(("enabled"@, StatusView::Flag(s.enabled)))
            &&& all.contains(("panicked"@, StatusView::Flag(s.panicked)))
            &&& all.contains(("degraded"@, StatusView::Flag(s.degraded.degraded)))
            &&& all.contains(("degraded_reason"@, StatusView::Text(s.degraded.reason@)))
            &&& all.contains(("tablets"@, StatusView::Number(s.tablets)))
            &&& all.contains(("tablets_placed"@, StatusView::Flag(s.tablets_placed)))
            &&& all.contains(("fallback"@, StatusView::Flag(shows_fallback(s, under))))
            &&& all.contains(("focused_app"@, StatusView::Text(under.class@)))
            &&& all.contains(("version"@, StatusView::Text(version)))
        }),
{
    let all = status_of(s, under, version);
    assert(all[0] == ("profile"@, StatusView::Text(s.profile@)));
    assert(all[1] == ("mode_slot"@, StatusView::Number(s.mode_slot)));
    assert(all[2] == ("mode_name"@, StatusView::Text(s.mode_name@)));
    assert(all[3] == ("enabled"@, StatusView::Flag(s.enabled)));
    assert(all[4] == ("panicked"@, StatusView::Flag(s.panicked)));
    assert(all[5] == ("degraded"@, StatusView::Flag(s.degraded.degraded)));
    assert(all[6] == ("degraded_reason"@, StatusView::Text(s.degraded.reason@)));
    assert(all[7] == ("tablets"@, StatusView::Number(s.tablets)));
    assert(all[8] == ("tablets_placed"@, StatusView::Flag(s.tablets_placed)));
    assert(all[9] == ("fallback"@, StatusView::Flag(shows_fallback(s, under))));
    assert(all[10] == ("focused_app"@, StatusView::Text(under.class@)));
    assert(all[11] == ("version"@, StatusView::Text(version)));
}

/// A class is inspected once: what was found first is remembered, whatever is found later, and
/// nothing is forgotten of another class.
pub proof fn law_a_class_is_inspected_once(
    cache: Map<Seq<char>, Option<Signal>>,
    class: Seq<char>,
    found: Option<Signal>,
    later: Option<Signal>,
    other: Seq<char>,
)
    ensures
        !cache.contains_key(class) ==> remembered(cache, class, found).0 == found,
        remembered(remembered(cache, class, found).1, class, later) == remembered(
            cache,
            class,
            found,
        ),
        other != class ==> (remembered(cache, class, found).1.contains_key(other)
            == cache.contains_key(other) && remembered(cache, class, found).1[other]
            == cache[other]),
{
}

/// Jumping to a slot is the command for the slot of that number, and there is no slot zero.
pub proof fn law_a_jump_goes_to_its_slot(slot: u32)
    ensures
        slot_command(0) is None,
        slot >= 1 ==> slot_command(slot) == Some(Command::Mode(slot as usize)),
{
}

} // verus!
