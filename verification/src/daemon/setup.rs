//! What the daemon settles before it runs: which device to take, and what each mode is.

use crate::config::assemble::{
    assemble, number_of, pipeline_order, stages_of, warnings_of, Number, PlannedStage, StagePlan,
};
use crate::config::cascade::{
    is_best, is_view_of, law_the_best_entry_is_unique, resolved, DeviceView,
};
use crate::config::schema::{
    specificity_of, Datum, Identity, Output, Passthrough, Preset, Profile, Root, StageEntry,
};
use crate::config::store::{preset_for, startup_slug, Store, RAW};
use crate::daemon::bindings::{alternatives, binding, chord_views, chords_of, nameless};
use crate::daemon::modes::Mode;
use crate::dict::in_key_order;
use crate::filter::scroll::Mode as ScrollMode;
use crate::text::{
    chars_of, decimal, number, opt_view, owned, same_text, slice_of, string_of, views,
};
use vstd::prelude::*;
use vstd::string::*;

verus! {

/// An input device as discovered.
#[derive(Debug)]
pub struct DeviceNode {
    pub path: String,
    pub name: String,
    pub identity: Identity,
    /// What sort of device it is, by name.
    pub kind: String,
    pub is_mouse: bool,
    pub is_keyboard_like: bool,
}

/// `s` cut to at most `max` characters, the last of them an ellipsis where something was cut.
pub open spec fn cut(s: Seq<char>, max: int) -> Seq<char> {
    if s.len() <= max {
        s
    } else {
        s.take(max - 1).push('…')
    }
}

/// `s` in at most `max` characters.
pub fn truncate(s: &str, max: usize) -> (r: String)
    requires
        max > 0 || s@.len() == 0,
    ensures
        r@ == cut(s@, max as int),
{
    let v = chars_of(s);
    if v.len() <= max {
        owned(s)
    } else {
        let mut head = slice_of(&v, 0, max - 1);
        assert(head@ =~= s@.take(max - 1));
        head.push('…');
        string_of(&head)
    }
}

/// A cut text fits, and a text that fits is left alone.
pub proof fn law_a_cut_text_fits(s: Seq<char>, max: int)
    requires
        max > 0,
    ensures
        cut(s, max).len() <= max,
        s.len() <= max ==> cut(s, max) == s,
        s.len() > max ==> cut(s, max).take(max - 1) == s.take(max - 1),
{
    if s.len() > max {
        assert(cut(s, max).take(max - 1) =~= s.take(max - 1));
    }
}

/// Which devices can be used, said plainly, so that nobody spends time trying to configure one
/// that can never be grabbed.
pub open spec fn treatment_text(is_mouse: bool, is_keyboard_like: bool) -> Seq<char> {
    if is_keyboard_like {
        "never grabbed (keyboard)"@
    } else if is_mouse {
        "usable as a source"@
    } else {
        "not a mouse"@
    }
}

pub fn treatment(d: &DeviceNode) -> (s: &'static str)
    ensures
        s@ == treatment_text(d.is_mouse, d.is_keyboard_like),
{
    if d.is_keyboard_like {
        "never grabbed (keyboard)"
    } else if d.is_mouse {
        "usable as a source"
    } else {
        "not a mouse"
    }
}

pub open spec fn id_part(o: Option<Seq<char>>) -> Seq<char> {
    match o {
        Some(s) => s,
        None => "????"@,
    }
}

fn part(o: &Option<String>) -> (s: String)
    ensures
        s@ == id_part(opt_view(*o)),
{
    match o {
        Some(s) => owned(s.as_str()),
        None => owned("????"),
    }
}

/// A device's ids as `vid:pid`, with question marks for one that is not known.
pub fn device_id(id: &Identity) -> (s: String)
    ensures
        s@ == id_part(opt_view(id.vid)) + ":"@ + id_part(opt_view(id.pid)),
{
    part(&id.vid).concat(":").concat(part(&id.pid).as_str())
}

/// Why there is no source device.
#[derive(Debug)]
pub enum NoSource {
    /// The device asked for is not there.
    NotADevice(String),
    /// No device that is there is managed.
    NoneManaged,
    /// The managed ones are no pointers.
    NoneUsable(Vec<usize>),
}

/// The source device, by its position, and how many distinct devices could have been meant.
#[derive(Debug)]
pub struct Source {
    pub index: usize,
    pub distinct: usize,
}

/// The position of the first device at `path`.
pub open spec fn device_at(devices: Seq<DeviceNode>, path: Seq<char>, i: int) -> bool {
    &&& 0 <= i < devices.len()
    &&& devices[i].path@ == path
    &&& forall|j: int| 0 <= j < i ==> (#[trigger] devices[j]).path@ != path
}

/// Whether a device can be a pointer source.
pub open spec fn is_usable(d: DeviceNode) -> bool {
    d.is_mouse && !d.is_keyboard_like
}

/// The positions of the managed devices, in order.
pub open spec fn managed_of(managed: Seq<bool>) -> Seq<int>
    decreases managed.len(),
{
    if managed.len() == 0 {
        seq![]
    } else if managed.last() {
        managed_of(managed.drop_last()).push(managed.len() - 1)
    } else {
        managed_of(managed.drop_last())
    }
}

pub open spec fn positions(list: Seq<usize>) -> Seq<int> {
    list.map_values(|i: usize| i as int)
}

/// What tells two devices apart. Sibling nodes of one mouse share it.
pub open spec fn identity_key(id: Identity) -> (
    Option<Seq<char>>,
    Option<Seq<char>>,
    Option<Seq<char>>,
) {
    (opt_view(id.vid), opt_view(id.pid), opt_view(id.serial))
}

/// The distinct identities of the usable devices among the managed.
pub open spec fn distinct_of(devices: Seq<DeviceNode>, managed: Seq<bool>) -> Seq<int>
    decreases managed.len(),
{
    if managed.len() == 0 {
        seq![]
    } else {
        let rest = distinct_of(devices, managed.drop_last());
        let i = managed.len() - 1;
        if managed.last() && is_usable(devices[i]) && !(exists|k: int|
            0 <= k < rest.len() && identity_key(devices[#[trigger] rest[k]].identity)
                == identity_key(devices[i].identity)) {
            rest.push(i)
        } else {
            rest
        }
    }
}

fn find_path(devices: &Vec<DeviceNode>, path: &str) -> (r: Option<usize>)
    ensures
        r matches Some(i) ==> device_at(devices@, path@, i as int),
        r is None ==> forall|j: int|
            0 <= j < devices@.len() ==> (#[trigger] devices@[j]).path@ != path@,
{
    let mut i: usize = 0;
    while i < devices.len()
        invariant
            i <= devices.len(),
            forall|j: int| 0 <= j < i ==> (#[trigger] devices@[j]).path@ != path@,
        decreases devices.len() - i,
    {
        if same_text(devices[i].path.as_str(), path) {
            return Some(i);
        }
        i += 1;
    }
    None
}

fn same_option(a: &Option<String>, b: &Option<String>) -> (r: bool)
    ensures
        r == (opt_view(*a) == opt_view(*b)),
{
    match (a, b) {
        (Some(x), Some(y)) => same_text(x.as_str(), y.as_str()),
        (None, None) => true,
        _ => false,
    }
}

fn same_identity(a: &Identity, b: &Identity) -> (r: bool)
    ensures
        r == (identity_key(*a) == identity_key(*b)),
{
    same_option(&a.vid, &b.vid) && same_option(&a.pid, &b.pid) && same_option(&a.serial, &b.serial)
}

/// Whether `r` is the source device, from which devices are managed.
///
/// A device asked for by path wins. Otherwise only managed devices are considered, and of those
/// only the ones usable as a pointer; the first of them is taken.
pub open spec fn is_choice(
    r: Result<Source, NoSource>,
    devices: Seq<DeviceNode>,
    managed: Seq<bool>,
    explicit: Option<Seq<char>>,
) -> bool {
    match explicit {
        Some(path) => match r {
            Ok(s) => device_at(devices, path, s.index as int) && s.distinct == 1,
            Err(NoSource::NotADevice(p)) => p@ == path && forall|j: int|
                0 <= j < devices.len() ==> (#[trigger] devices[j]).path@ != path,
            Err(_) => false,
        },
        None => match r {
            Ok(s) => {
                &&& s.index < devices.len()
                &&& managed[s.index as int]
                &&& is_usable(devices[s.index as int])
                &&& forall|j: int|
                    0 <= j < s.index ==> !(#[trigger] managed[j] && is_usable(devices[j]))
                &&& s.distinct == distinct_of(devices, managed).len()
            },
            Err(NoSource::NoneManaged) => forall|j: int|
                0 <= j < managed.len() ==> !#[trigger] managed[j],
            Err(NoSource::NoneUsable(list)) => {
                &&& positions(list@) == managed_of(managed)
                &&& list@.len() > 0
                &&& forall|j: int|
                    0 <= j < managed.len() ==> !(#[trigger] managed[j] && is_usable(devices[j]))
            },
            Err(NoSource::NotADevice(_)) => false,
        },
    }
}

/// Whether the config marks a device as managed: the entry that is for it says so.
pub open spec fn managed_by(root: Root, id: Identity) -> bool {
    exists|i: int| is_best(root.devices@, id, i) && (#[trigger] root.devices@[i]).managed
}

/// Which devices the config marks as managed.
pub open spec fn managed_flags(root: Root, devices: Seq<DeviceNode>) -> Seq<bool> {
    Seq::new(devices.len(), |i: int| managed_by(root, devices[i].identity))
}

fn flag_managed(root: &Root, devices: &Vec<DeviceNode>) -> (r: Vec<bool>)
    ensures
        r@ == managed_flags(*root, devices@),
{
    let mut r: Vec<bool> = Vec::new();
    let mut i: usize = 0;
    while i < devices.len()
        invariant
            i <= devices.len(),
            r@.len() == i,
            forall|k: int|
                0 <= k < i ==> #[trigger] r@[k] == managed_by(*root, devices@[k].identity),
        decreases devices.len() - i,
    {
        let view = root.view_for(&devices[i].identity);
        let managed = view.is_managed();
        proof {
            let id = devices@[i as int].identity;
            match view.device_entry() {
                Some(d) => {
                    let b = choose|b: int|
                        is_best(root.devices@, id, b) && d == #[trigger] root.devices@[b];
                    if managed_by(*root, id) {
                        let c = choose|c: int|
                            is_best(root.devices@, id, c) && (#[trigger] root.devices@[c]).managed;
                        law_the_best_entry_is_unique(root.devices@, id, b, c);
                    }
                    if managed {
                        assert(is_best(root.devices@, id, b) && root.devices@[b].managed);
                    }
                },
                None => {
                    if managed_by(*root, id) {
                        let c = choose|c: int|
                            is_best(root.devices@, id, c) && (#[trigger] root.devices@[c]).managed;
                        assert(specificity_of(root.devices@[c].matcher, id) is None);
                    }
                },
            }
        }
        r.push(managed);
        i += 1;
    }
    assert(r@ =~= managed_flags(*root, devices@));
    r
}

/// Choose the source device.
///
/// A device absent from config is never touched, unless it is asked for by its path: that is what
/// keeps trackpads and unrelated hardware safe. One physical mouse commonly presents several event
/// nodes that share its ids, a keyboard among them, so only those usable as a pointer count.
pub fn pick_source(store: &Store, devices: &Vec<DeviceNode>, explicit: Option<&str>) -> (r: Result<
    Source,
    NoSource,
>)
    ensures
        is_choice(r, devices@, managed_flags(store.root.typed(), devices@), str_view(explicit)),
{
    let managed = flag_managed(store.root.data(), devices);
    choose_source(devices, &managed, explicit)
}

fn choose_source(
    devices: &Vec<DeviceNode>,
    managed: &Vec<bool>,
    explicit: Option<&str>,
) -> (r: Result<Source, NoSource>)
    requires
        managed@.len() == devices@.len(),
    ensures
        is_choice(r, devices@, managed@, str_view(explicit)),
{
    if let Some(path) = explicit {
        return match find_path(devices, path) {
            Some(index) => Ok(Source { index, distinct: 1 }),
            None => Err(NoSource::NotADevice(owned(path))),
        };
    }
    let mut list: Vec<usize> = Vec::new();
    let mut kinds: Vec<usize> = Vec::new();
    let mut chosen: Option<usize> = None;
    let mut i: usize = 0;
    proof {
        assert(managed@.take(0) =~= Seq::<bool>::empty());
        assert(positions(list@) =~= managed_of(managed@.take(0)));
        assert(positions(kinds@) =~= distinct_of(devices@, managed@.take(0)));
    }
    while i < managed.len()
        invariant
            i <= managed.len(),
            managed@.len() == devices@.len(),
            positions(list@) == managed_of(managed@.take(i as int)),
            positions(kinds@) == distinct_of(devices@, managed@.take(i as int)),
            forall|k: int| 0 <= k < kinds@.len() ==> #[trigger] kinds@[k] < i,
            chosen matches Some(c) ==> c < i && managed@[c as int] && is_usable(devices@[c as int])
                && forall|j: int|
                0 <= j < c ==> !(#[trigger] managed@[j] && is_usable(devices@[j])),
            chosen is None ==> forall|j: int|
                0 <= j < i ==> !(#[trigger] managed@[j] && is_usable(devices@[j])),
            (list@.len() > 0) == exists|j: int| 0 <= j < i && #[trigger] managed@[j],
        decreases managed.len() - i,
    {
        let ghost now = managed@.take(i + 1);
        proof {
            assert(now.drop_last() =~= managed@.take(i as int));
            assert(now.last() == managed@[i as int]);
        }
        let ghost listed = list@;
        let ghost seen = kinds@;
        if managed[i] {
            list.push(i);
            assert(positions(list@) =~= positions(listed).push(i as int));
            if devices[i].is_mouse && !devices[i].is_keyboard_like {
                if chosen.is_none() {
                    chosen = Some(i);
                }
                let mut known = false;
                let mut k: usize = 0;
                while k < kinds.len()
                    invariant
                        k <= kinds.len(),
                        i < devices@.len(),
                        forall|n: int| 0 <= n < kinds@.len() ==> #[trigger] kinds@[n] < i,
                        known == exists|n: int|
                            0 <= n < k && identity_key(
                                devices@[#[trigger] positions(kinds@)[n]].identity,
                            ) == identity_key(devices@[i as int].identity),
                    decreases kinds.len() - k,
                {
                    assert(positions(kinds@)[k as int] == kinds@[k as int]);
                    if same_identity(&devices[kinds[k]].identity, &devices[i].identity) {
                        known = true;
                    }
                    k += 1;
                }
                if !known {
                    kinds.push(i);
                    assert(positions(kinds@) =~= positions(seen).push(i as int));
                }
            }
        }
        i += 1;
    }
    assert(managed@.take(i as int) =~= managed@);
    if list.len() == 0 {
        return Err(NoSource::NoneManaged);
    }
    match chosen {
        Some(index) => {
            assert(kinds@.len() == positions(kinds@).len());
            Ok(Source { index, distinct: kinds.len() })
        },
        None => Err(NoSource::NoneUsable(list)),
    }
}

/// A device that the config does not mark is never taken unless it is named.
pub proof fn law_an_unmanaged_device_is_never_picked(
    r: Result<Source, NoSource>,
    devices: Seq<DeviceNode>,
    managed: Seq<bool>,
)
    requires
        is_choice(r, devices, managed, None),
    ensures
        r matches Ok(s) ==> managed[s.index as int],
        r matches Err(NoSource::NoneUsable(list)) ==> forall|k: int|
            0 <= k < list@.len() ==> managed[#[trigger] list@[k] as int],
{
    if let Err(NoSource::NoneUsable(list)) = r {
        lemma_managed_of(managed);
        assert forall|k: int| 0 <= k < list@.len() implies managed[#[trigger] list@[k] as int] by {
            assert(positions(list@)[k] == list@[k]);
            assert(managed_of(managed)[k] == list@[k]);
        }
    }
}

proof fn lemma_managed_of(managed: Seq<bool>)
    ensures
        forall|k: int|
            0 <= k < managed_of(managed).len() ==> {
                let p = #[trigger] managed_of(managed)[k];
                0 <= p < managed.len() && managed[p]
            },
    decreases managed.len(),
{
    if managed.len() > 0 {
        let rest = managed.drop_last();
        lemma_managed_of(rest);
        assert forall|k: int| 0 <= k < managed_of(managed).len() implies {
            let p = #[trigger] managed_of(managed)[k];
            0 <= p < managed.len() && managed[p]
        } by {
            if k < managed_of(rest).len() {
                let p = managed_of(rest)[k];
                assert(rest[p] == managed[p]);
            }
        }
    }
}

/// What the user is told where there is no source device.
pub open spec fn kind_lines(devices: Seq<DeviceNode>, list: Seq<int>) -> Seq<char>
    decreases list.len(),
{
    if list.len() == 0 {
        seq![]
    } else {
        let d = devices[list.last()];
        let line = d.path@ + " is "@ + d.kind@;
        if list.len() == 1 {
            line
        } else {
            kind_lines(devices, list.drop_last()) + "; "@ + line
        }
    }
}

fn list_kinds(devices: &Vec<DeviceNode>, list: &Vec<usize>) -> (s: String)
    requires
        forall|k: int| 0 <= k < list@.len() ==> #[trigger] list@[k] < devices@.len(),
    ensures
        s@ == kind_lines(devices@, positions(list@)),
{
    let ghost all = positions(list@);
    let mut s = String::new();
    let mut i: usize = 0;
    proof {
        assert(all.take(0) =~= Seq::<int>::empty());
        assert(s@ =~= kind_lines(devices@, all.take(0)));
    }
    while i < list.len()
        invariant
            i <= list.len(),
            all == positions(list@),
            forall|k: int| 0 <= k < list@.len() ==> #[trigger] list@[k] < devices@.len(),
            s@ == kind_lines(devices@, all.take(i as int)),
        decreases list.len() - i,
    {
        let d = &devices[list[i]];
        proof {
            assert(all.take(i + 1).drop_last() =~= all.take(i as int));
            assert(all.take(i + 1).last() == list@[i as int] as int);
        }
        let line = owned(d.path.as_str()).concat(" is ").concat(d.kind.as_str());
        if i == 0 {
            s = line;
        } else {
            s = s.concat("; ").concat(line.as_str());
        }
        i += 1;
    }
    assert(all.take(i as int) =~= all);
    s
}

/// The message for a missing source device.
pub open spec fn no_source_text(e: NoSource, devices: Seq<DeviceNode>, dir: Seq<char>) -> Seq<
    char,
> {
    match e {
        NoSource::NotADevice(path) => path@ + " is not an evdev device"@,
        NoSource::NoneManaged => "no managed device found in "@ + dir
            + ". Run `stabmoused devices` to see what is available, then either add a [[device]] entry with `managed = true` or pass `--device <path>`"@,
        NoSource::NoneUsable(list) => decimal(list@.len())
            + " managed node(s) matched, but none is usable as a pointer source. "@ + kind_lines(
            devices,
            positions(list@),
        ) + " — pass `--device <path>` to name one explicitly"@,
    }
}

impl NoSource {
    pub fn message(&self, devices: &Vec<DeviceNode>, dir: &str) -> (s: String)
        requires
            self matches NoSource::NoneUsable(list) ==> forall|k: int|
                0 <= k < list@.len() ==> #[trigger] list@[k] < devices@.len(),
        ensures
            s@ == no_source_text(*self, devices@, dir@),
    {
        match self {
            NoSource::NotADevice(path) => owned(path.as_str()).concat(" is not an evdev device"),
            NoSource::NoneManaged => owned("no managed device found in ").concat(dir).concat(
                ". Run `stabmoused devices` to see what is available, then either add a [[device]] entry with `managed = true` or pass `--device <path>`",
            ),
            NoSource::NoneUsable(list) => number(list.len() as u64).concat(
                " managed node(s) matched, but none is usable as a pointer source. ",
            ).concat(list_kinds(devices, list).as_str()).concat(
                " — pass `--device <path>` to name one explicitly",
            ),
        }
    }
}

/// A mode to build: its slot, the stages of its pipeline, and what the user is told about it.
#[derive(Debug)]
pub struct ModePlan {
    pub mode: Mode,
    pub stages: Vec<PlannedStage>,
    pub notices: Vec<String>,
}

/// What the first stage of a kind says under a key, if there is such a stage and it says anything.
pub open spec fn first_says(
    stages: Seq<StageEntry>,
    kind: Seq<char>,
    key: Seq<char>,
) -> Option<Datum>
    decreases stages.len(),
{
    if stages.len() == 0 {
        None
    } else if stages[0].kind@ == kind {
        if stages[0].params.map().contains_key(key) {
            Some(stages[0].params.map()[key])
        } else {
            None
        }
    } else {
        first_says(stages.drop_first(), kind, key)
    }
}

fn said_by_first<'a>(stages: &'a Vec<StageEntry>, kind: &str, key: &str) -> (r: Option<&'a Datum>)
    ensures
        r is Some <==> first_says(stages@, kind@, key@) is Some,
        r matches Some(v) ==> first_says(stages@, kind@, key@) == Some(*v),
{
    let mut i: usize = 0;
    assert(stages@.skip(0) =~= stages@);
    while i < stages.len()
        invariant
            i <= stages.len(),
            first_says(stages@.skip(i as int), kind@, key@) == first_says(stages@, kind@, key@),
        decreases stages.len() - i,
    {
        assert(stages@.skip(i as int)[0] == stages@[i as int]);
        assert(stages@.skip(i as int).drop_first() =~= stages@.skip(i + 1));
        if same_text(stages[i].kind.as_str(), kind) {
            return stages[i].params.get(key);
        }
        i += 1;
    }
    None
}

/// The names that a preset binds under a key of the first stage of a kind.
pub open spec fn bound_names(
    stages: Seq<StageEntry>,
    kind: Seq<char>,
    key: Seq<char>,
) -> Seq<Seq<char>> {
    match first_says(stages, kind, key) {
        Some(v) => alternatives(v),
        None => seq![],
    }
}

/// What is wrong with the names of a binding.
pub open spec fn binding_notices(
    slug: Seq<char>,
    kind: Seq<char>,
    bad: Seq<Seq<char>>,
) -> Seq<Seq<char>> {
    bad.map_values(
        |n: Seq<char>|
            "preset '"@ + slug + "': '"@ + n + "' is not a key or button name; "@ + kind
                + " will not engage"@,
    )
}

/// The chords that a preset binds under a key of the first stage of a kind, and what is wrong
/// with its names.
///
/// Read from the preset rather than from its plan: resolving a name to a code is platform work.
/// The stage knows *whether* it waits for a binding; the daemon knows *which*.
fn stage_binding(preset: &Preset, slug: &str, kind: &str, key: &str) -> (r: (
    Vec<Vec<u16>>,
    Vec<String>,
))
    ensures
        chord_views(r.0@) == chords_of(bound_names(preset.stages@, kind@, key@)),
        views(r.1@) == binding_notices(
            slug@,
            kind@,
            nameless(bound_names(preset.stages@, kind@, key@)),
        ),
{
    let (chords, bad) = match said_by_first(&preset.stages, kind, key) {
        Some(v) => binding(v),
        None => {
            let chords: Vec<Vec<u16>> = Vec::new();
            let bad: Vec<String> = Vec::new();
            assert(chord_views(chords@) =~= Seq::<Seq<u16>>::empty());
            assert(views(bad@) =~= Seq::<Seq<char>>::empty());
            (chords, bad)
        },
    };
    let ghost all = views(bad@);
    let mut notices: Vec<String> = Vec::new();
    let mut i: usize = 0;
    assert(views(notices@) =~= binding_notices(slug@, kind@, all.take(0)));
    while i < bad.len()
        invariant
            i <= bad.len(),
            all == views(bad@),
            views(notices@) == binding_notices(slug@, kind@, all.take(i as int)),
        decreases bad.len() - i,
    {
        let line = owned("preset '").concat(slug).concat("': '").concat(bad[i].as_str()).concat(
            "' is not a key or button name; ",
        ).concat(kind).concat(" will not engage");
        let ghost before = notices@;
        notices.push(line);
        proof {
            assert(views(notices@) =~= views(before).push(line@));
            assert(views(notices@) =~= binding_notices(slug@, kind@, all.take(i + 1)));
        }
        i += 1;
    }
    assert(all.take(i as int) =~= all);
    (chords, notices)
}

/// The constrain modifier that a preset's `snap` stage binds, and what is wrong with it.
pub fn snap_modifier(preset: &Preset, slug: &str) -> (r: (Vec<Vec<u16>>, Vec<String>))
    ensures
        chord_views(r.0@) == chords_of(bound_names(preset.stages@, "snap"@, "modifier"@)),
        views(r.1@) == binding_notices(
            slug@,
            "snap"@,
            nameless(bound_names(preset.stages@, "snap"@, "modifier"@)),
        ),
{
    stage_binding(preset, slug, "snap", "modifier")
}

/// What engages the gesture of a preset's `scroll` stage, and what is wrong with it.
pub fn scroll_button(preset: &Preset, slug: &str) -> (r: (Vec<Vec<u16>>, Vec<String>))
    ensures
        chord_views(r.0@) == chords_of(bound_names(preset.stages@, "scroll"@, "button"@)),
        views(r.1@) == binding_notices(
            slug@,
            "scroll"@,
            nameless(bound_names(preset.stages@, "scroll"@, "button"@)),
        ),
{
    stage_binding(preset, slug, "scroll", "button")
}

/// What the first `scroll` stage of a pipeline says of the gesture's mode and of the buttons that
/// are bound to it, or what holds where there is none.
pub open spec fn scroll_choice(stages: Seq<PlannedStage>) -> (ScrollMode, Passthrough)
    decreases stages.len(),
{
    if stages.len() == 0 {
        (ScrollMode::Drag, Passthrough::UnlessActive)
    } else {
        match stages[0].plan {
            StagePlan::Scroll { mode, mouse_passthrough, .. } => (mode, mouse_passthrough),
            _ => scroll_choice(stages.drop_first()),
        }
    }
}

fn choice_of_scroll(stages: &Vec<PlannedStage>) -> (r: (ScrollMode, Passthrough))
    ensures
        r == scroll_choice(stages@),
{
    let mut i: usize = 0;
    assert(stages@.skip(0) =~= stages@);
    while i < stages.len()
        invariant
            i <= stages.len(),
            scroll_choice(stages@.skip(i as int)) == scroll_choice(stages@),
        decreases stages.len() - i,
    {
        assert(stages@.skip(i as int)[0] == stages@[i as int]);
        assert(stages@.skip(i as int).drop_first() =~= stages@.skip(i + 1));
        if let StagePlan::Scroll { mode, mouse_passthrough, .. } = stages[i].plan {
            return (mode, mouse_passthrough);
        }
        i += 1;
    }
    (ScrollMode::Drag, Passthrough::default())
}

fn copy_chords(chords: &Vec<Vec<u16>>) -> (r: Vec<Vec<u16>>)
    ensures
        chord_views(r@) == chord_views(chords@),
{
    let mut r: Vec<Vec<u16>> = Vec::new();
    let mut i: usize = 0;
    while i < chords.len()
        invariant
            i <= chords.len(),
            r@.len() == i,
            forall|k: int| 0 <= k < i ==> (#[trigger] r@[k])@ == chords@[k]@,
        decreases chords.len() - i,
    {
        let mut one: Vec<u16> = Vec::new();
        let mut k: usize = 0;
        while k < chords[i].len()
            invariant
                i < chords.len(),
                k <= chords@[i as int].len(),
                one@ =~= chords@[i as int]@.take(k as int),
            decreases chords@[i as int].len() - k,
        {
            one.push(chords[i][k]);
            k += 1;
        }
        r.push(one);
        i += 1;
    }
    assert(chord_views(r@) =~= chord_views(chords@));
    r
}

/// The profile to run: the one asked for, if it is there, else the one for startup.
pub open spec fn active_profile(store: Store, asked: Option<Seq<char>>) -> Option<Profile> {
    if asked is Some && store.profiles.map().contains_key(asked->0) {
        Some(store.profiles.map()[asked->0].typed())
    } else {
        match startup_slug(store) {
            Some(slug) => Some(store.profiles.map()[slug].typed()),
            None => None,
        }
    }
}

/// The profile to run.
pub fn profile_to_run<'a>(store: &'a Store, asked: Option<&str>) -> (r: Option<&'a Profile>)
    ensures
        r is Some <==> active_profile(*store, str_view(asked)) is Some,
        r matches Some(p) ==> active_profile(*store, str_view(asked)) == Some(*p),
{
    if let Some(slug) = asked {
        if let Some(p) = store.profile(slug) {
            return Some(p);
        }
    }
    store.startup_profile()
}

pub open spec fn str_view(s: Option<&str>) -> Option<Seq<char>> {
    match s {
        Some(s) => Some(s@),
        None => None,
    }
}

/// What a mode binds.
pub struct Bound {
    /// The chords of the constrain modifier.
    pub modifier: Seq<Seq<u16>>,
    /// The chords that engage the scroll gesture.
    pub scroll: Seq<Seq<u16>>,
    /// The chords that hand the wheel to the scroll stage.
    pub wheel: Seq<Seq<u16>>,
    pub passthrough: Passthrough,
}

/// A mode that binds nothing.
pub open spec fn unbound() -> Bound {
    Bound {
        modifier: seq![],
        scroll: seq![],
        wheel: seq![],
        passthrough: Passthrough::UnlessActive,
    }
}

/// What a preset binds. In `wheel` mode the scroll gesture's chords are what hands it the wheel.
pub open spec fn bound_by(preset: Preset, stages: Seq<PlannedStage>) -> Bound {
    let scroll = chords_of(bound_names(preset.stages@, "scroll"@, "button"@));
    Bound {
        modifier: chords_of(bound_names(preset.stages@, "snap"@, "modifier"@)),
        scroll,
        wheel: if scroll_choice(stages).0 == ScrollMode::Wheel {
            scroll
        } else {
            seq![]
        },
        passthrough: scroll_choice(stages).1,
    }
}

/// Whether a plan has a slot of that name and output, and nothing bound but what is given.
pub open spec fn is_slot(
    p: ModePlan,
    name: Seq<char>,
    output: Output,
    preset: Seq<char>,
    bound: Bound,
) -> bool {
    &&& p.mode.name@ == name
    &&& p.mode.output == output
    &&& p.mode.preset@ == preset
    &&& chord_views(p.mode.scroll_button@) == bound.scroll
    &&& chord_views(p.mode.wheel_binding@) == bound.wheel
    &&& chord_views(p.mode.modifier@) == bound.modifier
    &&& p.mode.passthrough == bound.passthrough
}

/// What a mode of a profile becomes. A missing preset falls back to raw passthrough for that slot
/// and says so: never a silent substitution.
pub open spec fn is_plan(
    p: ModePlan,
    m: crate::config::schema::Mode,
    store: Store,
    view: &DeviceView,
) -> bool {
    match preset_for(store, m.preset@) {
        None => {
            &&& is_slot(p, m.name@, m.output, m.preset@, unbound())
            &&& p.stages@.len() == 0
            &&& views(p.notices@) == seq![
                "mode '"@ + m.name@ + "' references preset '"@ + m.preset@
                    + "', which does not exist; this slot is raw passthrough"@,
            ]
        },
        Some(preset) => {
            let stages = stages_of(
                preset.stages@,
                pipeline_order(preset.stages@),
                m.preset@,
                Some(view),
            );
            &&& is_slot(p, m.name@, m.output, m.preset@, bound_by(preset, stages))
            &&& p.stages@ == stages
            &&& views(p.notices@) == warnings_of(
                preset.stages@,
                pipeline_order(preset.stages@),
                m.preset@,
                Some(view),
            ) + binding_notices(
                m.preset@,
                "snap"@,
                nameless(bound_names(preset.stages@, "snap"@, "modifier"@)),
            ) + binding_notices(
                m.preset@,
                "scroll"@,
                nameless(bound_names(preset.stages@, "scroll"@, "button"@)),
            )
        },
    }
}

/// What runs where no profile is configured: one mode that does nothing to the pointer.
pub open spec fn is_passthrough(p: ModePlan) -> bool {
    &&& is_slot(p, "Passthrough"@, Output::Mouse, RAW@, unbound())
    &&& p.stages@.len() == 0
    &&& views(p.notices@) == seq![
        "no profile configured; running raw passthrough on a single mode"@,
    ]
}

/// A slot that is raw passthrough, and why.
fn raw_slot(name: &str, output: Output, preset: &str, line: String) -> (p: ModePlan)
    ensures
        is_slot(p, name@, output, preset@, unbound()),
        p.stages@.len() == 0,
        views(p.notices@) == seq![line@],
{
    let plan = ModePlan {
        mode: Mode {
            name: owned(name),
            output,
            preset: owned(preset),
            scroll_button: Vec::new(),
            modifier: Vec::new(),
            wheel_binding: Vec::new(),
            passthrough: Passthrough::default(),
        },
        stages: Vec::new(),
        notices: vec![line],
    };
    proof {
        assert(chord_views(plan.mode.scroll_button@) =~= Seq::<Seq<u16>>::empty());
        assert(chord_views(plan.mode.wheel_binding@) =~= Seq::<Seq<u16>>::empty());
        assert(chord_views(plan.mode.modifier@) =~= Seq::<Seq<u16>>::empty());
        assert(views(plan.notices@) =~= seq![line@]);
    }
    plan
}

fn plan_slot<'a>(
    m: &crate::config::schema::Mode,
    store: &'a Store,
    view: &DeviceView<'a>,
) -> (p: ModePlan)
    ensures
        is_plan(p, *m, *store, view),
{
    let preset = match store.preset(m.preset.as_str()) {
        None => {
            let line = owned("mode '").concat(m.name.as_str()).concat(
                "' references preset '",
            ).concat(m.preset.as_str()).concat(
                "', which does not exist; this slot is raw passthrough",
            );
            return raw_slot(m.name.as_str(), m.output, m.preset.as_str(), line);
        },
        Some(preset) => preset,
    };
    let assembly = assemble(preset, m.preset.as_str(), Some(view));
    let (modifier, mut of_snap) = snap_modifier(preset, m.preset.as_str());
    let (scroll, mut of_scroll) = scroll_button(preset, m.preset.as_str());
    let (mode, passthrough) = choice_of_scroll(&assembly.stages);
    let wheel_binding: Vec<Vec<u16>> = if mode == ScrollMode::Wheel {
        copy_chords(&scroll)
    } else {
        let none: Vec<Vec<u16>> = Vec::new();
        assert(chord_views(none@) =~= Seq::<Seq<u16>>::empty());
        none
    };
    let mut notices = assembly.warnings;
    let ghost first = notices@;
    let ghost second = of_snap@;
    let ghost third = of_scroll@;
    notices.append(&mut of_snap);
    notices.append(&mut of_scroll);
    assert(views(first + second + third) =~= views(first) + views(second) + views(third));
    ModePlan {
        mode: Mode {
            name: owned(m.name.as_str()),
            output: m.output,
            preset: owned(m.preset.as_str()),
            scroll_button: scroll,
            modifier,
            wheel_binding,
            passthrough,
        },
        stages: assembly.stages,
        notices,
    }
}

/// What a store's profile becomes for a device: a plan for every mode slot.
pub open spec fn are_plans(
    plans: Seq<ModePlan>,
    store: Store,
    asked: Option<Seq<char>>,
    view: &DeviceView,
) -> bool {
    match active_profile(store, asked) {
        None => plans.len() == 1 && is_passthrough(plans[0]),
        Some(profile) => {
            &&& plans.len() == profile.modes@.len()
            &&& forall|i: int|
                0 <= i < plans.len() ==> is_plan(
                    #[trigger] plans[i],
                    profile.modes@[i],
                    store,
                    view,
                )
        },
    }
}

/// A plan for every mode slot in the active profile, as the device behind `view` needs it.
pub fn plan_modes<'a>(
    store: &'a Store,
    profile_slug: Option<&str>,
    view: &DeviceView<'a>,
) -> (r: Vec<ModePlan>)
    ensures
        are_plans(r@, *store, str_view(profile_slug), view),
{
    let mut out: Vec<ModePlan> = Vec::new();
    let profile = match profile_to_run(store, profile_slug) {
        Some(p) => p,
        None => {
            let line = owned("no profile configured; running raw passthrough on a single mode");
            out.push(raw_slot("Passthrough", Output::Mouse, RAW, line));
            return out;
        },
    };
    let mut i: usize = 0;
    while i < profile.modes.len()
        invariant
            i <= profile.modes.len(),
            out@.len() == i,
            forall|j: int|
                0 <= j < i ==> is_plan(#[trigger] out@[j], profile.modes@[j], *store, view),
        decreases profile.modes.len() - i,
    {
        out.push(plan_slot(&profile.modes[i], store, view));
        i += 1;
    }
    out
}

/// A plan for every mode slot in the active profile, for the device of that identity.
///
/// All of them, up front: mode switching must be an index change, not a config load.
pub fn build_modes(store: &Store, profile_slug: Option<&str>, identity: &Identity) -> (r: Vec<
    ModePlan,
>)
    ensures
        exists|view: DeviceView|
            #![trigger is_view_of(view, store.root.typed(), *identity)]
            is_view_of(view, store.root.typed(), *identity) && are_plans(
                r@,
                *store,
                str_view(profile_slug),
                &view,
            ),
{
    let view = store.root.data().view_for(identity);
    plan_modes(store, profile_slug, &view)
}

/// The slot to start in: the one asked for, 1-based, else the profile's own default.
pub open spec fn start_of(asked: Option<usize>, startup: Option<Profile>) -> int {
    let one_based = match asked {
        Some(n) => n as int,
        None => match startup {
            Some(p) => p.default_mode as int,
            None => 1,
        },
    };
    if one_based > 0 {
        one_based - 1
    } else {
        0
    }
}

/// The slot to start in, counted from zero.
pub fn start_index(store: &Store, asked: Option<usize>) -> (r: usize)
    ensures
        r == start_of(asked, active_profile(*store, None)),
{
    let one_based: usize = match asked {
        Some(n) => n,
        None => match store.startup_profile() {
            Some(p) => p.default_mode,
            None => 1,
        },
    };
    if one_based > 0 {
        one_based - 1
    } else {
        0
    }
}

/// What a device's overrides say of its resolution under the slugs, in order.
pub open spec fn overridden_dpi(view: DeviceView, slugs: Seq<Seq<char>>) -> Option<Number>
    decreases slugs.len(),
{
    if slugs.len() == 0 {
        None
    } else {
        match resolved(view, slugs[0] + ".normalize.dpi"@) {
            Some((Datum::Integer(i), _)) => Some(Number::Integer(i)),
            Some((Datum::Float(f), _)) => Some(Number::Float(f)),
            _ => overridden_dpi(view, slugs.drop_first()),
        }
    }
}

/// The resolution that a list of stages states first.
pub open spec fn stated_dpi(stages: Seq<StageEntry>) -> Option<Number>
    decreases stages.len(),
{
    if stages.len() == 0 {
        None
    } else if stages[0].kind@ == "normalize"@ && number_of(stages[0].params.map(), "dpi"@) is Some {
        number_of(stages[0].params.map(), "dpi"@)
    } else {
        stated_dpi(stages.drop_first())
    }
}

/// The resolution that the presets behind the slugs state first.
pub open spec fn preset_dpi(store: Store, slugs: Seq<Seq<char>>) -> Option<Number>
    decreases slugs.len(),
{
    if slugs.len() == 0 {
        None
    } else {
        let own = match preset_for(store, slugs[0]) {
            Some(p) => stated_dpi(p.stages@),
            None => None,
        };
        if own is Some {
            own
        } else {
            preset_dpi(store, slugs.drop_first())
        }
    }
}

/// The source's resolution: what its overrides say, else what a preset states. `None` stands for
/// the resolution that an unknown device is assumed to have.
pub open spec fn dpi_of(store: Store, view: DeviceView) -> Option<Number> {
    let slugs = in_key_order(store.presets.map().dom().insert(RAW@));
    match overridden_dpi(view, slugs) {
        Some(n) => Some(n),
        None => preset_dpi(store, slugs),
    }
}

fn as_number(v: &Datum) -> (r: Option<Number>)
    ensures
        r == (match *v {
            Datum::Integer(i) => Some(Number::Integer(i)),
            Datum::Float(f) => Some(Number::Float(f)),
            _ => None,
        }),
{
    match v {
        Datum::Integer(i) => Some(Number::Integer(*i)),
        Datum::Float(f) => Some(Number::Float(*f)),
        _ => None,
    }
}

fn find_stated_dpi(stages: &Vec<StageEntry>) -> (r: Option<Number>)
    ensures
        r == stated_dpi(stages@),
{
    let mut i: usize = 0;
    assert(stages@.skip(0) =~= stages@);
    while i < stages.len()
        invariant
            i <= stages.len(),
            stated_dpi(stages@.skip(i as int)) == stated_dpi(stages@),
        decreases stages.len() - i,
    {
        assert(stages@.skip(i as int)[0] == stages@[i as int]);
        assert(stages@.skip(i as int).drop_first() =~= stages@.skip(i + 1));
        if same_text(stages[i].kind.as_str(), "normalize") {
            if let Some(v) = stages[i].params.get("dpi") {
                if let Some(n) = as_number(v) {
                    return Some(n);
                }
            }
        }
        i += 1;
    }
    None
}

/// The resolution of the device of that identity. The output should match it, so that a unit
/// multiplier is exactly transparent rather than subtly rescaling.
pub fn source_dpi(store: &Store, identity: &Identity) -> (r: Option<Number>)
    ensures
        exists|view: DeviceView|
            #![trigger is_view_of(view, store.root.typed(), *identity)]
            is_view_of(view, store.root.typed(), *identity) && r == dpi_of(*store, view),
{
    let view = store.root.data().view_for(identity);
    viewed_dpi(store, &view)
}

fn viewed_dpi(store: &Store, view: &DeviceView) -> (r: Option<Number>)
    ensures
        r == dpi_of(*store, *view),
{
    let slugs = store.preset_slugs();
    let ghost all = views(slugs@);
    let mut i: usize = 0;
    assert(all.skip(0) =~= all);
    while i < slugs.len()
        invariant
            i <= slugs.len(),
            all == views(slugs@),
            all == in_key_order(store.presets.map().dom().insert(RAW@)),
            overridden_dpi(*view, all.skip(i as int)) == overridden_dpi(*view, all),
        decreases slugs.len() - i,
    {
        assert(all.skip(i as int)[0] == all[i as int]);
        assert(all.skip(i as int).drop_first() =~= all.skip(i + 1));
        let key = owned(slugs[i].as_str()).concat(".normalize.dpi");
        if let Some(r) = view.resolve(key.as_str()) {
            if let Some(n) = as_number(r.value) {
                return Some(n);
            }
        }
        i += 1;
    }
    assert(overridden_dpi(*view, all) is None);
    let mut k: usize = 0;
    while k < slugs.len()
        invariant
            k <= slugs.len(),
            all == views(slugs@),
            all == in_key_order(store.presets.map().dom().insert(RAW@)),
            overridden_dpi(*view, all) is None,
            preset_dpi(*store, all.skip(k as int)) == preset_dpi(*store, all),
        decreases slugs.len() - k,
    {
        assert(all.skip(k as int)[0] == all[k as int]);
        assert(all.skip(k as int).drop_first() =~= all.skip(k + 1));
        if let Some(preset) = store.preset(slugs[k].as_str()) {
            if let Some(n) = find_stated_dpi(&preset.stages) {
                return Some(n);
            }
        }
        k += 1;
    }
    None
}

/// The source is the first device that is managed, is a mouse and is no keyboard; there is one
/// wherever any device is all of that. A device that is asked for by its path is taken whatever
/// the config says of it, and no other is.
pub proof fn law_the_first_usable_managed_device_is_taken(
    r: Result<Source, NoSource>,
    devices: Seq<DeviceNode>,
    managed: Seq<bool>,
    asked: Option<Seq<char>>,
    i: int,
)
    requires
        is_choice(r, devices, managed, asked),
        managed.len() == devices.len(),
        0 <= i < devices.len(),
    ensures
        asked is None && managed[i] && devices[i].is_mouse && !devices[i].is_keyboard_like
            ==> r is Ok && r->Ok_0.index <= i,
        asked is None && r is Ok ==> {
            let d = devices[r->Ok_0.index as int];
            managed[r->Ok_0.index as int] && d.is_mouse && !d.is_keyboard_like
        },
        asked matches Some(path) && devices[i].path@ == path ==> r is Ok && r->Ok_0.index <= i,
        asked matches Some(path) && r is Ok ==> devices[r->Ok_0.index as int].path@
            == asked->0,
        asked is None && r is Err && managed[i] ==> !(r->Err_0 is NoneManaged),
        asked is Some && r is Err ==> r->Err_0 is NotADevice,
{
    if asked is None {
        assert(managed[i] == managed[i]);
    } else {
        assert(devices[i].path@ == devices[i].path@);
    }
}

/// Nodes that share their ids count as one device, and nodes that differ in one of them as two.
pub proof fn law_siblings_count_as_one_device(
    devices: Seq<DeviceNode>,
    managed: Seq<bool>,
    i: int,
    j: int,
)
    requires
        managed.len() <= devices.len(),
        0 <= i < managed.len() && managed[i] && devices[i].is_mouse && !devices[i].is_keyboard_like,
        0 <= j < managed.len() && managed[j] && devices[j].is_mouse && !devices[j].is_keyboard_like,
    ensures
        distinct_of(devices, managed).len() >= 1,
        opt_view(devices[i].identity.vid) != opt_view(devices[j].identity.vid) || opt_view(
            devices[i].identity.pid,
        ) != opt_view(devices[j].identity.pid) || opt_view(devices[i].identity.serial) != opt_view(
            devices[j].identity.serial,
        ) ==> distinct_of(devices, managed).len() >= 2,
        (forall|k: int|
            0 <= k < managed.len() && #[trigger] managed[k] && devices[k].is_mouse
                && !devices[k].is_keyboard_like ==> opt_view(devices[k].identity.vid) == opt_view(
                devices[i].identity.vid,
            ) && opt_view(devices[k].identity.pid) == opt_view(devices[i].identity.pid)
                && opt_view(devices[k].identity.serial) == opt_view(devices[i].identity.serial))
            ==> distinct_of(devices, managed).len() == 1,
{
    lemma_distinct(devices, managed);
    let d = distinct_of(devices, managed);
    let a = choose|a: int|
        0 <= a < d.len() && identity_key(devices[#[trigger] d[a]].identity) == identity_key(
            devices[i].identity,
        );
    let b = choose|b: int|
        0 <= b < d.len() && identity_key(devices[#[trigger] d[b]].identity) == identity_key(
            devices[j].identity,
        );
    assert(is_usable(devices[i]) && is_usable(devices[j]));
    if d.len() >= 2 {
        assert(identity_key(devices[d[0]].identity) != identity_key(devices[d[1]].identity));
        assert(managed[d[0]] && managed[d[1]]);
    }
}

proof fn lemma_distinct(devices: Seq<DeviceNode>, managed: Seq<bool>)
    requires
        managed.len() <= devices.len(),
    ensures
        ({
            let d = distinct_of(devices, managed);
            &&& forall|a: int|
                0 <= a < d.len() ==> 0 <= #[trigger] d[a] < managed.len() && managed[d[a]]
                    && is_usable(devices[d[a]])
            &&& forall|a: int, b: int|
                #![trigger d[a], d[b]]
                0 <= a < b < d.len() ==> identity_key(devices[d[a]].identity) != identity_key(
                    devices[d[b]].identity,
                )
            &&& forall|i: int|
                0 <= i < managed.len() && #[trigger] managed[i] && is_usable(devices[i])
                    ==> exists|a: int|
                    0 <= a < d.len() && identity_key(devices[#[trigger] d[a]].identity)
                        == identity_key(devices[i].identity)
        }),
    decreases managed.len(),
{
    if managed.len() > 0 {
        let shorter = managed.drop_last();
        lemma_distinct(devices, shorter);
        let rest = distinct_of(devices, shorter);
        let d = distinct_of(devices, managed);
        let last = managed.len() - 1;
        assert forall|a: int| 0 <= a < d.len() implies 0 <= #[trigger] d[a] < managed.len()
            && managed[d[a]] && is_usable(devices[d[a]]) by {
            if a < rest.len() {
                assert(d[a] == rest[a]);
                assert(shorter[rest[a]] == managed[rest[a]]);
            }
        }
        assert forall|a: int, b: int|
            #![trigger d[a], d[b]]
            0 <= a < b < d.len() implies identity_key(devices[d[a]].identity) != identity_key(
            devices[d[b]].identity,
        ) by {
            assert(d[a] == rest[a]);
            if b < rest.len() {
                assert(d[b] == rest[b]);
            }
        }
        assert forall|i: int|
            0 <= i < managed.len() && #[trigger] managed[i] && is_usable(
                devices[i],
            ) implies exists|a: int|
            0 <= a < d.len() && identity_key(devices[#[trigger] d[a]].identity) == identity_key(
                devices[i].identity,
            ) by {
            if i < last {
                assert(shorter[i]);
                let a = choose|a: int|
                    0 <= a < rest.len() && identity_key(devices[#[trigger] rest[a]].identity)
                        == identity_key(devices[i].identity);
                assert(d[a] == rest[a]);
            } else if d.len() > rest.len() {
                assert(d[rest.len() as int] == i);
            } else {
                let a = choose|a: int|
                    0 <= a < rest.len() && identity_key(devices[#[trigger] rest[a]].identity)
                        == identity_key(devices[i].identity);
                assert(d[a] == rest[a]);
            }
        }
    }
}

/// A device is managed exactly where the closest entry that matches it says so; one that no entry
/// matches never is.
pub proof fn law_the_closest_entry_decides_management(root: Root, id: Identity, i: int)
    ensures
        is_best(root.devices@, id, i) ==> (managed_by(root, id) <==> root.devices@[i].managed),
        (forall|j: int|
            0 <= j < root.devices@.len() ==> specificity_of(
                (#[trigger] root.devices@[j]).matcher,
                id,
            ) is None) ==> !managed_by(root, id),
{
    if managed_by(root, id) {
        let c = choose|c: int|
            is_best(root.devices@, id, c) && (#[trigger] root.devices@[c]).managed;
        if is_best(root.devices@, id, i) {
            law_the_best_entry_is_unique(root.devices@, id, i, c);
        }
        assert(specificity_of(root.devices@[c].matcher, id) is Some);
    }
    if is_best(root.devices@, id, i) && root.devices@[i].managed {
        assert(root.devices@[i].managed);
    }
}

/// A binding is read from the first stage of its kind, under its own key; later ones of that kind
/// do not count.
pub proof fn law_the_first_stage_of_a_kind_binds(
    stages: Seq<StageEntry>,
    kind: Seq<char>,
    key: Seq<char>,
    i: int,
    v: Datum,
)
    requires
        0 <= i < stages.len(),
        stages[i].kind@ == kind,
        forall|j: int| 0 <= j < i ==> (#[trigger] stages[j]).kind@ != kind,
    ensures
        stages[i].params.map().contains_pair(key, v) ==> first_says(stages, kind, key) == Some(v)
            && bound_names(stages, kind, key) == alternatives(v),
        !stages[i].params.map().contains_key(key) ==> first_says(stages, kind, key) is None
            && bound_names(stages, kind, key).len() == 0,
    decreases stages.len(),
{
    if i > 0 {
        let rest = stages.drop_first();
        assert(stages[0].kind@ != kind);
        assert(rest[i - 1] == stages[i]);
        assert forall|j: int| 0 <= j < i - 1 implies (#[trigger] rest[j]).kind@ != kind by {
            assert(rest[j] == stages[j + 1]);
        }
        law_the_first_stage_of_a_kind_binds(rest, kind, key, i - 1, v);
    }
}

/// What a pipeline says of scrolling is what its first `scroll` stage says.
pub proof fn law_the_first_scroll_stage_decides(stages: Seq<PlannedStage>, i: int)
    ensures
        0 <= i < stages.len() && stages[i].plan is Scroll && (forall|j: int|
            0 <= j < i ==> !((#[trigger] stages[j]).plan is Scroll)) ==> scroll_choice(stages) == (
            stages[i].plan->Scroll_mode,
            stages[i].plan->mouse_passthrough,
        ),
        (forall|j: int| 0 <= j < stages.len() ==> !((#[trigger] stages[j]).plan is Scroll))
            ==> scroll_choice(stages) == (ScrollMode::Drag, Passthrough::UnlessActive),
    decreases stages.len(),
{
    if stages.len() > 0 {
        let rest = stages.drop_first();
        law_the_first_scroll_stage_decides(rest, i - 1);
        if 0 < i < stages.len() && forall|j: int|
            0 <= j < i ==> !((#[trigger] stages[j]).plan is Scroll) {
            assert(!(stages[0].plan is Scroll));
            assert(rest[i - 1] == stages[i]);
            assert forall|j: int| 0 <= j < i - 1 implies !((#[trigger] rest[j]).plan is Scroll) by {
                assert(rest[j] == stages[j + 1]);
            }
        }
        if forall|j: int| 0 <= j < stages.len() ==> !((#[trigger] stages[j]).plan is Scroll) {
            assert(!(stages[0].plan is Scroll));
            assert forall|j: int| 0 <= j < rest.len() implies !((#[trigger] rest[j]).plan is Scroll) by {
                assert(rest[j] == stages[j + 1]);
            }
        }
    }
}

/// A slot keeps the name, the output and the preset of its mode. With its preset there, it has the
/// stages of the preset as the device has them, the chords that the preset binds to the
/// constraint and to the scroll gesture, and the latter for the wheel too exactly in `wheel` mode.
/// Without it the slot does nothing to the pointer, binds nothing and says so.
pub proof fn law_a_slot_is_what_its_mode_says(
    p: ModePlan,
    m: crate::config::schema::Mode,
    store: Store,
    view: &DeviceView,
)
    requires
        is_plan(p, m, store, view),
    ensures
        p.mode.name@ == m.name@,
        p.mode.output == m.output,
        p.mode.preset@ == m.preset@,
        preset_for(store, m.preset@) matches Some(preset) ==> {
            let wheel = scroll_choice(p.stages@).0 == ScrollMode::Wheel;
            &&& p.stages@ == stages_of(
                preset.stages@,
                pipeline_order(preset.stages@),
                m.preset@,
                Some(view),
            )
            &&& chord_views(p.mode.modifier@) == chords_of(
                bound_names(preset.stages@, "snap"@, "modifier"@),
            )
            &&& chord_views(p.mode.scroll_button@) == chords_of(
                bound_names(preset.stages@, "scroll"@, "button"@),
            )
            &&& wheel ==> chord_views(p.mode.wheel_binding@) == chord_views(p.mode.scroll_button@)
            &&& !wheel ==> p.mode.wheel_binding@.len() == 0
            &&& p.mode.passthrough == scroll_choice(p.stages@).1
        },
        preset_for(store, m.preset@) is None ==> {
            &&& p.stages@.len() == 0
            &&& p.mode.modifier@.len() == 0
            &&& p.mode.scroll_button@.len() == 0
            &&& p.mode.wheel_binding@.len() == 0
            &&& p.notices@.len() == 1
        },
{
    assert(chord_views(p.mode.modifier@).len() == p.mode.modifier@.len());
    assert(chord_views(p.mode.scroll_button@).len() == p.mode.scroll_button@.len());
    assert(chord_views(p.mode.wheel_binding@).len() == p.mode.wheel_binding@.len());
    assert(views(p.notices@).len() == p.notices@.len());
}

/// There is one slot for every mode of the profile that runs, in its order, and a single one that
/// does nothing where there is no profile.
pub proof fn law_every_mode_has_its_slot(
    plans: Seq<ModePlan>,
    store: Store,
    asked: Option<Seq<char>>,
    view: &DeviceView,
    i: int,
)
    requires
        are_plans(plans, store, asked, view),
    ensures
        active_profile(store, asked) matches Some(profile) ==> plans.len() == profile.modes@.len()
            && (0 <= i < plans.len() ==> plans[i].mode.name@ == profile.modes@[i].name@
            && plans[i].mode.output == profile.modes@[i].output && plans[i].mode.preset@
            == profile.modes@[i].preset@),
        active_profile(store, asked) is None ==> plans.len() == 1 && plans[0].stages@.len() == 0
            && plans[0].mode.output == Output::Mouse,
        asked matches Some(slug) && store.profiles.map().contains_key(slug) ==> active_profile(
            store,
            asked,
        ) == Some(store.profiles.map()[asked->0].typed()),
        asked is None || !store.profiles.map().contains_key(asked->0) ==> active_profile(
            store,
            asked,
        ) == active_profile(store, None),
{
    if active_profile(store, asked) is Some && 0 <= i < plans.len() {
        let profile = active_profile(store, asked)->0;
        assert(is_plan(plans[i], profile.modes@[i], store, view));
        law_a_slot_is_what_its_mode_says(plans[i], profile.modes@[i], store, view);
    }
}

/// A run starts in the slot that is asked for, counted from one, else in the profile's own, and
/// in the first where neither says.
pub proof fn law_a_run_starts_where_it_is_told_to(n: usize, startup: Option<Profile>)
    ensures
        n >= 1 ==> start_of(Some(n), startup) == n - 1,
        start_of(Some(0usize), startup) == 0,
        startup matches Some(p) ==> p.default_mode >= 1 ==> start_of(None, startup)
            == p.default_mode - 1,
        start_of(None, None) == 0,
{
}

/// A device's own resolution counts before any that a preset states. Of the presets, in order, the
/// first counts that has one; a preset has that of its first `normalize` stage with a number.
pub proof fn law_the_device_knows_its_resolution_best(
    view: DeviceView,
    store: Store,
    slugs: Seq<Seq<char>>,
)
    requires
        slugs.len() > 0,
    ensures
        resolved(view, slugs[0] + ".normalize.dpi"@) matches Some((Datum::Integer(_), _))
            ==> overridden_dpi(view, slugs) == Some(
            Number::Integer((resolved(view, slugs[0] + ".normalize.dpi"@)->0).0->Integer_0),
        ),
        resolved(view, slugs[0] + ".normalize.dpi"@) is None ==> overridden_dpi(view, slugs)
            == overridden_dpi(view, slugs.drop_first()),
        preset_for(store, slugs[0]) is None ==> preset_dpi(store, slugs) == preset_dpi(
            store,
            slugs.drop_first(),
        ),
        preset_for(store, slugs[0]) matches Some(p) ==> stated_dpi(p.stages@) is Some ==> preset_dpi(
            store,
            slugs,
        ) == stated_dpi(preset_for(store, slugs[0])->0.stages@),
        overridden_dpi(view, in_key_order(store.presets.map().dom().insert(RAW@))) is Some
            ==> dpi_of(store, view) == overridden_dpi(
            view,
            in_key_order(store.presets.map().dom().insert(RAW@)),
        ),
        overridden_dpi(view, in_key_order(store.presets.map().dom().insert(RAW@))) is None
            ==> dpi_of(store, view) == preset_dpi(
            store,
            in_key_order(store.presets.map().dom().insert(RAW@)),
        ),
{
}

/// A preset's resolution is the number under `dpi` of the first `normalize` stage that has one.
pub proof fn law_a_preset_states_its_resolution_once(stages: Seq<StageEntry>, i: int)
    requires
        0 <= i < stages.len(),
        stages[i].kind@ == "normalize"@,
        number_of(stages[i].params.map(), "dpi"@) is Some,
        forall|j: int|
            0 <= j < i ==> (#[trigger] stages[j]).kind@ != "normalize"@ || number_of(
                stages[j].params.map(),
                "dpi"@,
            ) is None,
    ensures
        stated_dpi(stages) == number_of(stages[i].params.map(), "dpi"@),
    decreases stages.len(),
{
    if i > 0 {
        let rest = stages.drop_first();
        assert(rest[i - 1] == stages[i]);
        assert(stages[0].kind@ != "normalize"@ || number_of(stages[0].params.map(), "dpi"@) is None);
        assert forall|j: int| 0 <= j < i - 1 implies (#[trigger] rest[j]).kind@ != "normalize"@
            || number_of(rest[j].params.map(), "dpi"@) is None by {
            assert(rest[j] == stages[j + 1]);
        }
        law_a_preset_states_its_resolution_once(rest, i - 1);
    }
}

/// A device is said to be usable exactly where it is a mouse and no keyboard, and never to be
/// grabbed where it is a keyboard.
pub proof fn law_only_a_mouse_is_said_to_be_usable(is_mouse: bool, is_keyboard_like: bool)
    ensures
        treatment_text(is_mouse, is_keyboard_like) == "usable as a source"@ <==> is_mouse
            && !is_keyboard_like,
        treatment_text(is_mouse, is_keyboard_like) == "never grabbed (keyboard)"@
            <==> is_keyboard_like,
{
    reveal_strlit("usable as a source");
    reveal_strlit("never grabbed (keyboard)");
    reveal_strlit("not a mouse");
    assert("usable as a source"@.len() == 18 && "never grabbed (keyboard)"@.len() == 24
        && "not a mouse"@.len() == 11);
}

} // verus!
