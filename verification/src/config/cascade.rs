//! Resolving a parameter for a specific device, and saying where the value came from.
//!
//! Three levels, most specific winning: **device, group, defaults**. Overrides are sparse: a
//! device names only what it changes, so this is a lookup chain rather than a merge of whole
//! sections.

use crate::config::error::{Error, ErrorView};
use crate::config::schema::{specificity_of, Device, Group, Identity, Match, Params, Root, Datum};
use crate::dict::{key_at, Dict};
use crate::text::{
    char_views, chars_of, law_pieces_rejoin, law_what_was_joined_comes_apart, owned, pieces,
    rejoined, split_at, string_of,
};
use vstd::prelude::*;
use vstd::string::*;

verus! {

/// Which level supplied a value.
#[derive(Debug, Clone, PartialEq, Eq)]
pub enum Origin {
    /// The preset's own value; no override applies.
    Preset,
    Defaults,
    Group(String),
    Device(String),
}

/// The view of an [`Origin`].
pub enum Source {
    Preset,
    Defaults,
    Group(Seq<char>),
    Device(Seq<char>),
}

impl View for Origin {
    type V = Source;

    open spec fn view(&self) -> Source {
        match *self {
            Origin::Preset => Source::Preset,
            Origin::Defaults => Source::Defaults,
            Origin::Group(name) => Source::Group(name@),
            Origin::Device(name) => Source::Device(name@),
        }
    }
}

/// How a level is named to the user.
pub open spec fn source_text(s: Source) -> Seq<char> {
    match s {
        Source::Preset => "preset"@,
        Source::Defaults => "default"@,
        Source::Group(name) => "group: "@ + name,
        Source::Device(name) => "device: "@ + name,
    }
}

impl Origin {
    /// The level's name.
    pub fn message(&self) -> (s: String)
        ensures
            s@ == source_text(self@),
    {
        match self {
            Origin::Preset => owned("preset"),
            Origin::Defaults => owned("default"),
            Origin::Group(name) => owned("group: ").concat(name.as_str()),
            Origin::Device(name) => owned("device: ").concat(name.as_str()),
        }
    }
}

#[derive(Debug)]
pub struct Resolved<'a> {
    pub value: &'a Datum,
    pub origin: Origin,
}

/// An override key: `<preset>.<stage>.<param>`.
#[derive(Debug, Clone, PartialEq, Eq)]
pub struct OverrideKey {
    pub preset: String,
    pub stage: String,
    pub param: String,
}

/// Whether the pieces of a key are three, none of them empty.
pub open spec fn three_segments(p: Seq<Seq<char>>) -> bool {
    &&& p.len() == 3
    &&& p[0].len() > 0
    &&& p[1].len() > 0
    &&& p[2].len() > 0
}

/// Whether a key is what a text says: its three parts, with a point between each two of them, none
/// of them empty and none with a point in it.
pub open spec fn is_key_of(k: OverrideKey, text: Seq<char>) -> bool {
    &&& text == k.preset@ + seq!['.'] + k.stage@ + seq!['.'] + k.param@
    &&& k.preset@.len() > 0 && k.stage@.len() > 0 && k.param@.len() > 0
    &&& !k.preset@.contains('.') && !k.stage@.contains('.') && !k.param@.contains('.')
}

impl OverrideKey {
    pub fn parse(key: &str) -> (r: Result<Self, Error>)
        ensures
            r is Ok <==> three_segments(pieces(key@, '.')),
            r matches Ok(k) ==> seq![k.preset@, k.stage@, k.param@] == pieces(key@, '.'),
            r matches Ok(k) ==> is_key_of(k, key@),
            r matches Err(e) ==> e@ == (ErrorView::BadOverrideKey { key: key@ }),
    {
        let v = chars_of(key);
        let parts = split_at(&v, '.');
        let ghost p = pieces(key@, '.');
        assert(char_views(parts@) == p);
        assert(parts@.len() == char_views(parts@).len());
        if parts.len() != 3 {
            return Err(Error::BadOverrideKey { key: owned(key) });
        }
        assert(parts@[0]@ == p[0] && parts@[1]@ == p[1] && parts@[2]@ == p[2]);
        if parts[0].len() == 0 || parts[1].len() == 0 || parts[2].len() == 0 {
            return Err(Error::BadOverrideKey { key: owned(key) });
        }
        let k = OverrideKey {
            preset: string_of(&parts[0]),
            stage: string_of(&parts[1]),
            param: string_of(&parts[2]),
        };
        assert(seq![k.preset@, k.stage@, k.param@] =~= p);
        proof {
            law_pieces_rejoin(key@, '.');
            assert(p.drop_first() =~= seq![k.stage@, k.param@]);
            assert(p.drop_first().drop_first() =~= seq![k.param@]);
            reveal_with_fuel(rejoined, 3);
            assert(key@ =~= k.preset@ + seq!['.'] + k.stage@ + seq!['.'] + k.param@);
            assert(!p[0].contains('.') && !p[1].contains('.') && !p[2].contains('.'));
        }
        Ok(k)
    }
}

/// How a device entry without a label is named.
pub open spec fn description(m: Match) -> Seq<char> {
    match (m.serial, m.vid, m.pid) {
        (Some(s), _, _) => "serial "@ + s@,
        (None, Some(v), Some(p)) => v@ + ":"@ + p@,
        (None, Some(v), None) => "vid "@ + v@,
        (None, None, Some(p)) => "pid "@ + p@,
        (None, None, None) => "unmatched"@,
    }
}

/// The name of a device entry: its label, or what it matches.
pub open spec fn name_of(d: Device) -> Seq<char> {
    match d.label {
        Some(l) => l@,
        None => description(d.matcher),
    }
}

fn describe(d: &Device) -> (s: String)
    ensures
        s@ == description(d.matcher),
{
    match (&d.matcher.serial, &d.matcher.vid, &d.matcher.pid) {
        (Some(s), _, _) => owned("serial ").concat(s.as_str()),
        (None, Some(v), Some(p)) => owned(v.as_str()).concat(":").concat(p.as_str()),
        (None, Some(v), None) => owned("vid ").concat(v.as_str()),
        (None, None, Some(p)) => owned("pid ").concat(p.as_str()),
        (None, None, None) => owned("unmatched"),
    }
}

fn who(d: &Device) -> (s: String)
    ensures
        s@ == name_of(*d),
{
    match &d.label {
        Some(l) => owned(l.as_str()),
        None => describe(d),
    }
}

/// The override chain that applies to one device.
pub struct DeviceView<'a> {
    device: Option<&'a Device>,
    group: Option<&'a Group>,
    defaults: &'a Params,
}

/// The override for `key` and the level it comes from: the device's, else the group's, else the
/// global one.
pub open spec fn resolved(view: DeviceView, key: Seq<char>) -> Option<(Datum, Source)> {
    if view.device_entry() is Some && view.device_entry()->0.overrides.map().contains_key(key) {
        Some(
            (
                view.device_entry()->0.overrides.map()[key],
                Source::Device(name_of(view.device_entry()->0)),
            ),
        )
    } else if view.group_entry() is Some && view.group_entry()->0.overrides.map().contains_key(
        key,
    ) {
        Some(
            (
                view.group_entry()->0.overrides.map()[key],
                Source::Group(view.group_entry()->0.name@),
            ),
        )
    } else if view.default_entries().map().contains_key(key) {
        Some((view.default_entries().map()[key], Source::Defaults))
    } else {
        None
    }
}

/// The resolutions that `d` holds agree with those of `want`.
pub open spec fn holds_resolutions(
    d: Map<Seq<char>, Resolved>,
    want: spec_fn(Seq<char>) -> Option<(Datum, Source)>,
) -> bool {
    forall|key: Seq<char>|
        {
            &&& #[trigger] d.contains_key(key) <==> want(key) is Some
            &&& d.contains_key(key) ==> want(key) == Some((*d[key].value, d[key].origin@))
        }
}

impl<'a> DeviceView<'a> {
    pub closed spec fn device_entry(&self) -> Option<Device> {
        match self.device {
            Some(d) => Some(*d),
            None => None,
        }
    }

    pub closed spec fn group_entry(&self) -> Option<Group> {
        match self.group {
            Some(g) => Some(*g),
            None => None,
        }
    }

    pub closed spec fn default_entries(&self) -> Params {
        *self.defaults
    }

    /// Whether this device is opted in. Absent from config means no.
    pub fn is_managed(&self) -> (r: bool)
        ensures
            r == (self.device_entry() is Some && self.device_entry()->0.managed),
    {
        match self.device {
            Some(d) => d.managed,
            None => false,
        }
    }

    pub fn label(&self) -> (r: Option<&str>)
        ensures
            r is Some <==> self.device_entry() is Some && self.device_entry()->0.label is Some,
            r matches Some(l) ==> l@ == self.device_entry()->0.label->0@,
    {
        match self.device {
            Some(d) => match &d.label {
                Some(l) => Some(l.as_str()),
                None => None,
            },
            None => None,
        }
    }

    pub fn group_name(&self) -> (r: Option<&str>)
        ensures
            r is Some <==> self.group_entry() is Some,
            r matches Some(n) ==> n@ == self.group_entry()->0.name@,
    {
        match self.group {
            Some(g) => Some(g.name.as_str()),
            None => None,
        }
    }

    /// The effective override for `key`, if any level sets one.
    ///
    /// `None` means no override applies and the preset's own value stands.
    pub fn resolve(&self, key: &str) -> (r: Option<Resolved<'a>>)
        ensures
            r is Some <==> resolved(*self, key@) is Some,
            r matches Some(x) ==> resolved(*self, key@) == Some((*x.value, x.origin@)),
    {
        if let Some(device) = self.device {
            if let Some(v) = device.overrides.get(key) {
                return Some(Resolved { value: v, origin: Origin::Device(who(device)) });
            }
        }
        if let Some(group) = self.group {
            if let Some(v) = group.overrides.get(key) {
                return Some(
                    Resolved { value: v, origin: Origin::Group(owned(group.name.as_str())) },
                );
            }
        }
        match self.defaults.get(key) {
            Some(v) => Some(Resolved { value: v, origin: Origin::Defaults }),
            None => None,
        }
    }

    /// Every override in effect, keyed as `<preset>.<stage>.<param>`: exactly the keys that
    /// [`DeviceView::resolve`] finds, with what it finds.
    pub fn effective_overrides(&self) -> (r: Dict<Resolved<'a>>)
        ensures
            holds_resolutions(r.map(), |key: Seq<char>| resolved(*self, key)),
    {
        let mut out: Dict<Resolved<'a>> = Dict::new();
        // Least specific first, so more specific levels overwrite.
        layer(&mut out, self.defaults, &Origin::Defaults);
        if let Some(group) = self.group {
            layer(&mut out, &group.overrides, &Origin::Group(owned(group.name.as_str())));
        }
        if let Some(device) = self.device {
            layer(&mut out, &device.overrides, &Origin::Device(who(device)));
        }
        out
    }
}

fn same_origin(origin: &Origin) -> (r: Origin)
    ensures
        r@ == origin@,
{
    match origin {
        Origin::Preset => Origin::Preset,
        Origin::Defaults => Origin::Defaults,
        Origin::Group(n) => Origin::Group(owned(n.as_str())),
        Origin::Device(n) => Origin::Device(owned(n.as_str())),
    }
}

/// Lay the entries of `level` over `out`.
fn layer<'a>(out: &mut Dict<Resolved<'a>>, level: &'a Params, origin: &Origin)
    ensures
        forall|key: Seq<char>|
            {
                &&& #[trigger] final(out).map().contains_key(key) <==> (old(out).map().contains_key(
                    key,
                ) || level.map().contains_key(key))
                &&& level.map().contains_key(key) ==> *final(out).map()[key].value
                    == level.map()[key] && final(out).map()[key].origin@ == origin@
                &&& old(out).map().contains_key(key) && !level.map().contains_key(key) ==> final(out).map()[key] == old(out).map()[key]
            },
{
    level.in_order();
    let mut i: usize = 0;
    while i < level.len()
        invariant
            i <= level.listed().len(),
            forall|key: Seq<char>, j: int| #[trigger]
                key_at(level.listed(), key, j) ==> level.map().contains_key(key)
                    && level.map()[key] == level.listed()[j].1,
            forall|key: Seq<char>|
                {
                    &&& #[trigger] out.map().contains_key(key) <==> (old(out).map().contains_key(
                        key,
                    ) || exists|j: int| j < i && key_at(level.listed(), key, j))
                    &&& (exists|j: int| j < i && key_at(level.listed(), key, j))
                        ==> *out.map()[key].value == level.map()[key] && out.map()[key].origin@
                        == origin@
                    &&& old(out).map().contains_key(key) && !(exists|j: int|
                        j < i && key_at(level.listed(), key, j)) ==> out.map()[key] == old(out).map()[key]
                },
        decreases level.listed().len() - i,
    {
        let key = owned(level.key(i));
        let value = level.value(i);
        let ghost before = out.map();
        let ghost k = key@;
        let ghost r = Resolved { value, origin: *origin };
        assert(key_at(level.listed(), k, i as int));
        out.insert(key, Resolved { value, origin: same_origin(origin) });
        proof {
            assert forall|key: Seq<char>| {
                &&& #[trigger] out.map().contains_key(key) <==> (old(out).map().contains_key(key)
                    || exists|j: int| j < i + 1 && key_at(level.listed(), key, j))
                &&& (exists|j: int| j < i + 1 && key_at(level.listed(), key, j))
                    ==> *out.map()[key].value == level.map()[key] && out.map()[key].origin@
                    == origin@
                &&& old(out).map().contains_key(key) && !(exists|j: int|
                    j < i + 1 && key_at(level.listed(), key, j)) ==> out.map()[key] == old(out).map()[key]
            } by {
                assert(before.contains_key(key) <==> (old(out).map().contains_key(key) || exists|
                    j: int,
                | j < i && key_at(level.listed(), key, j)));
                if exists|j: int| j < i + 1 && key_at(level.listed(), key, j) {
                    let j = choose|j: int| j < i + 1 && key_at(level.listed(), key, j);
                    if j == i {
                        assert(key == k);
                    }
                }
            }
        }
        i += 1;
    }
    proof {
        assert forall|key: Seq<char>| #[trigger] level.map().contains_key(key) implies exists|
            j: int,
        | j < i && key_at(level.listed(), key, j) by {
            let j = choose|j: int| key_at(level.listed(), key, j);
            assert(j < i && key_at(level.listed(), key, j));
        }
    }
}

/// Whether the `i`th entry is the one for a device: it matches, no other matches more
/// specifically, and of equals it is the last.
pub open spec fn is_best(devices: Seq<Device>, id: Identity, i: int) -> bool {
    &&& 0 <= i < devices.len()
    &&& specificity_of(devices[i].matcher, id) is Some
    &&& forall|j: int|
        #![trigger devices[j]]
        0 <= j < devices.len() && specificity_of(devices[j].matcher, id) is Some ==> {
            let (a, b) = (
                specificity_of(devices[j].matcher, id)->0,
                specificity_of(devices[i].matcher, id)->0,
            );
            a < b || (a == b && j <= i)
        }
}

/// Whether a group lists a device.
pub open spec fn lists(g: Group, id: Identity) -> bool {
    exists|k: int| 0 <= k < g.devices@.len() && specificity_of(#[trigger] g.devices@[k], id) is Some
}

/// Whether the `i`th group is the first that lists a device.
pub open spec fn is_first_group(groups: Seq<Group>, id: Identity, i: int) -> bool {
    &&& 0 <= i < groups.len()
    &&& lists(groups[i], id)
    &&& forall|j: int| 0 <= j < i ==> !lists(#[trigger] groups[j], id)
}

/// Whether a view is what a config says about a device: its best entry, the first group that
/// lists it, and the global overrides.
pub open spec fn is_view_of(view: DeviceView, root: Root, id: Identity) -> bool {
    &&& view.device_entry() matches Some(d) ==> exists|i: int|
        is_best(root.devices@, id, i) && d == #[trigger] root.devices@[i]
    &&& view.device_entry() is None ==> forall|i: int|
        0 <= i < root.devices@.len() ==> specificity_of(
            #[trigger] root.devices@[i].matcher,
            id,
        ) is None
    &&& view.group_entry() matches Some(g) ==> exists|i: int|
        is_first_group(root.groups@, id, i) && g == #[trigger] root.groups@[i]
    &&& view.group_entry() is None ==> forall|i: int|
        0 <= i < root.groups@.len() ==> !lists(#[trigger] root.groups@[i], id)
    &&& view.default_entries() == root.defaults.overrides
}

fn is_listed(g: &Group, id: &Identity) -> (r: bool)
    ensures
        r == lists(*g, *id),
{
    let mut k: usize = 0;
    while k < g.devices.len()
        invariant
            k <= g.devices.len(),
            forall|j: int| 0 <= j < k ==> specificity_of(#[trigger] g.devices@[j], *id) is None,
        decreases g.devices.len() - k,
    {
        if g.devices[k].specificity(id).is_some() {
            assert(specificity_of(g.devices@[k as int], *id) is Some);
            return true;
        }
        k += 1;
    }
    false
}

impl Root {
    /// Build the override chain for a discovered device.
    ///
    /// Picks the **most specific** matching device entry and the **first** matching group in
    /// file order. Groups are lists that the user wrote, so there is no meaningful specificity
    /// between two of them.
    pub fn view_for<'a>(&'a self, id: &Identity) -> (r: DeviceView<'a>)
        ensures
            is_view_of(r, *self, *id),
    {
        let mut best: Option<usize> = None;
        let mut score: u8 = 0;
        let mut i: usize = 0;
        while i < self.devices.len()
            invariant
                i <= self.devices.len(),
                best matches Some(b) ==> b < i && is_best(
                    self.devices@.take(i as int),
                    *id,
                    b as int,
                ) && specificity_of(self.devices@[b as int].matcher, *id) == Some(score),
                best is None ==> forall|j: int|
                    0 <= j < i ==> specificity_of(#[trigger] self.devices@[j].matcher, *id) is None,
            decreases self.devices.len() - i,
        {
            let ghost seen = self.devices@.take(i as int);
            let ghost now = self.devices@.take(i + 1);
            proof {
                assert forall|j: int| 0 <= j < i implies #[trigger] now[j] == seen[j] by {}
            }
            if let Some(s) = self.devices[i].matcher.specificity(id) {
                if best.is_none() || s >= score {
                    proof {
                        if best is Some {
                            assert(is_best(seen, *id, best->0 as int));
                        }
                        assert(is_best(now, *id, i as int));
                    }
                    best = Some(i);
                    score = s;
                }
            }
            i += 1;
        }
        assert(self.devices@.take(i as int) =~= self.devices@);
        let device = match best {
            Some(b) => Some(&self.devices[b]),
            None => None,
        };

        let mut group: Option<&Group> = None;
        let mut k: usize = 0;
        while k < self.groups.len()
            invariant_except_break
                k <= self.groups.len(),
                group is None,
                forall|j: int| 0 <= j < k ==> !lists(#[trigger] self.groups@[j], *id),
            ensures
                group matches Some(g) ==> is_first_group(self.groups@, *id, k as int) && *g
                    == self.groups@[k as int],
                group is None ==> forall|j: int|
                    0 <= j < self.groups@.len() ==> !lists(#[trigger] self.groups@[j], *id),
            decreases self.groups.len() - k,
        {
            if is_listed(&self.groups[k], id) {
                group = Some(&self.groups[k]);
                break ;
            }
            k += 1;
        }
        DeviceView { device, group, defaults: &self.defaults.overrides }
    }
}

/// A device entry's override beats a group's, which beats a global one.
pub proof fn law_the_more_specific_level_wins(view: DeviceView, key: Seq<char>)
    ensures
        view.device_entry() is Some && view.device_entry()->0.overrides.map().contains_key(key)
            ==> (resolved(view, key) is Some && (resolved(view, key)->0).1 is Device),
        !(view.device_entry() is Some && view.device_entry()->0.overrides.map().contains_key(key))
            && view.group_entry() is Some && view.group_entry()->0.overrides.map().contains_key(key)
            ==> (resolved(view, key) is Some && (resolved(view, key)->0).1 is Group),
{
}

/// A device that no entry and no group knows inherits exactly the global overrides.
pub proof fn law_an_unknown_device_inherits_the_defaults(view: DeviceView, key: Seq<char>)
    requires
        view.device_entry() is None,
        view.group_entry() is None,
    ensures
        resolved(view, key) == (if view.default_entries().map().contains_key(key) {
            Some((view.default_entries().map()[key], Source::Defaults))
        } else {
            None
        }),
{
}

/// At most one entry is the best for a device.
pub proof fn law_the_best_entry_is_unique(devices: Seq<Device>, id: Identity, i: int, j: int)
    requires
        is_best(devices, id, i),
        is_best(devices, id, j),
    ensures
        i == j,
{
    assert(devices[i] == devices[i]);
    assert(devices[j] == devices[j]);
}

/// A config has one view of a device: whatever is asked of two of them, they answer the same.
pub proof fn law_a_device_has_one_view(
    a: DeviceView,
    b: DeviceView,
    root: Root,
    id: Identity,
    key: Seq<char>,
)
    requires
        is_view_of(a, root, id),
        is_view_of(b, root, id),
    ensures
        a.device_entry() == b.device_entry(),
        a.group_entry() == b.group_entry(),
        a.default_entries() == b.default_entries(),
        resolved(a, key) == resolved(b, key),
{
    if a.device_entry() is Some {
        let i = choose|i: int|
            is_best(root.devices@, id, i) && a.device_entry()->0 == #[trigger] root.devices@[i];
        assert(specificity_of(root.devices@[i].matcher, id) is Some);
        let j = choose|j: int|
            is_best(root.devices@, id, j) && b.device_entry()->0 == #[trigger] root.devices@[j];
        law_the_best_entry_is_unique(root.devices@, id, i, j);
    } else if b.device_entry() is Some {
        let j = choose|j: int|
            is_best(root.devices@, id, j) && b.device_entry()->0 == #[trigger] root.devices@[j];
        assert(specificity_of(root.devices@[j].matcher, id) is Some);
    }
    if a.group_entry() is Some {
        let i = choose|i: int|
            is_first_group(root.groups@, id, i) && a.group_entry()->0 == #[trigger] root.groups@[i];
        assert(lists(root.groups@[i], id));
        let j = choose|j: int|
            is_first_group(root.groups@, id, j) && b.group_entry()->0 == #[trigger] root.groups@[j];
        assert(lists(root.groups@[j], id));
        assert(i == j);
    } else if b.group_entry() is Some {
        let j = choose|j: int|
            is_first_group(root.groups@, id, j) && b.group_entry()->0 == #[trigger] root.groups@[j];
        assert(lists(root.groups@[j], id));
    }
}

/// An override has the value that its level gives it, under the name of that level: the device's
/// where it has one, else the group's where that has one, else the global one, and else there is
/// none.
pub proof fn law_an_override_is_what_its_level_says(view: DeviceView, key: Seq<char>, v: Datum)
    ensures
        view.device_entry() matches Some(d) && d.overrides.map().contains_pair(key, v)
            ==> resolved(view, key) == Some((v, Source::Device(name_of(view.device_entry()->0)))),
        (view.device_entry() matches Some(d) ==> !d.overrides.map().contains_key(key)) && (
        view.group_entry() matches Some(g) && g.overrides.map().contains_pair(key, v)) ==> resolved(
            view,
            key,
        ) == Some((v, Source::Group(view.group_entry()->0.name@))),
        (view.device_entry() matches Some(d) ==> !d.overrides.map().contains_key(key)) && (
        view.group_entry() matches Some(g) ==> !g.overrides.map().contains_key(key))
            && view.default_entries().map().contains_pair(key, v) ==> resolved(view, key) == Some(
            (v, Source::Defaults),
        ),
        (view.device_entry() matches Some(d) ==> !d.overrides.map().contains_key(key)) && (
        view.group_entry() matches Some(g) ==> !g.overrides.map().contains_key(key))
            && !view.default_entries().map().contains_key(key) ==> resolved(view, key) is None,
{
}

/// Where two views agree at a level and at every more specific one, and that level has the key,
/// they agree on it, whatever the less specific levels say.
pub proof fn law_less_specific_levels_do_not_matter(a: DeviceView, b: DeviceView, key: Seq<char>)
    requires
        a.device_entry() == b.device_entry(),
        (a.device_entry() matches Some(d) && d.overrides.map().contains_key(key)) || (
        a.group_entry() == b.group_entry() && (a.group_entry() matches Some(g)
            && g.overrides.map().contains_key(key))),
    ensures
        resolved(a, key) == resolved(b, key),
        resolved(a, key) is Some,
{
}

/// The entry of a device is one that matches it: none matches it more closely, and of those that
/// match as closely none stands further down. Where any entry matches, there is one.
pub proof fn law_the_closest_entry_is_taken(devices: Seq<Device>, id: Identity, j: int)
    requires
        0 <= j < devices.len(),
        specificity_of(devices[j].matcher, id) is Some,
    ensures
        exists|i: int| #[trigger] is_best(devices, id, i),
        forall|i: int| #[trigger]
            is_best(devices, id, i) ==> {
                &&& 0 <= i < devices.len()
                &&& specificity_of(devices[i].matcher, id) is Some
                &&& specificity_of(devices[j].matcher, id)->0 <= specificity_of(
                    devices[i].matcher,
                    id,
                )->0
                &&& specificity_of(devices[j].matcher, id) == specificity_of(devices[i].matcher, id)
                    ==> j <= i
            },
    decreases devices.len() - j,
{
    lemma_some_best(devices, id, devices.len() as int, j);
    assert(devices.take(devices.len() as int) =~= devices);
    assert forall|i: int| #[trigger] is_best(devices, id, i) implies {
        &&& specificity_of(devices[j].matcher, id)->0 <= specificity_of(devices[i].matcher, id)->0
        &&& specificity_of(devices[j].matcher, id) == specificity_of(devices[i].matcher, id) ==> j
            <= i
    } by {
        assert(devices[j] == devices[j]);
    }
}

proof fn lemma_some_best(devices: Seq<Device>, id: Identity, n: int, j: int)
    requires
        0 <= j < n <= devices.len(),
        specificity_of(devices[j].matcher, id) is Some,
    ensures
        exists|i: int| #[trigger] is_best(devices.take(n), id, i),
    decreases n,
{
    let now = devices.take(n);
    let last = specificity_of(devices[n - 1].matcher, id);
    if exists|k: int|
        0 <= k < n - 1 && specificity_of((#[trigger] devices[k]).matcher, id) is Some {
        let k = choose|k: int|
            0 <= k < n - 1 && specificity_of((#[trigger] devices[k]).matcher, id) is Some;
        lemma_some_best(devices, id, n - 1, k);
        let before = devices.take(n - 1);
        let i = choose|i: int| #[trigger] is_best(before, id, i);
        assert forall|m: int| 0 <= m < n - 1 implies #[trigger] now[m] == before[m] by {}
        if last is Some && last->0 >= specificity_of(before[i].matcher, id)->0 {
            assert(is_best(now, id, n - 1)) by {
                assert forall|m: int|
                    #![trigger now[m]]
                    0 <= m < now.len() && specificity_of(now[m].matcher, id) is Some implies {
                    let (a, b) = (
                        specificity_of(now[m].matcher, id)->0,
                        specificity_of(now[n - 1].matcher, id)->0,
                    );
                    a < b || (a == b && m <= n - 1)
                } by {
                    if m < n - 1 {
                        assert(before[m] == now[m]);
                    }
                }
            }
        } else {
            assert(is_best(now, id, i)) by {
                assert forall|m: int|
                    #![trigger now[m]]
                    0 <= m < now.len() && specificity_of(now[m].matcher, id) is Some implies {
                    let (a, b) = (
                        specificity_of(now[m].matcher, id)->0,
                        specificity_of(now[i].matcher, id)->0,
                    );
                    a < b || (a == b && m <= i)
                } by {
                    if m < n - 1 {
                        assert(before[m] == now[m]);
                    }
                }
            }
        }
    } else {
        assert(j == n - 1);
        assert(is_best(now, id, n - 1)) by {
            assert forall|m: int|
                #![trigger now[m]]
                0 <= m < now.len() && specificity_of(now[m].matcher, id) is Some implies m == n
                - 1 by {
                assert(devices[m] == now[m]);
            }
        }
    }
}

/// A config's view of a device has an entry exactly where one of the config's matches it, and a
/// group exactly where one lists it; the entry matches the device, the group lists it, and no
/// group before it does.
pub proof fn law_a_view_is_of_its_device(view: DeviceView, root: Root, id: Identity)
    requires
        is_view_of(view, root, id),
    ensures
        view.device_entry() is Some <==> exists|i: int|
            0 <= i < root.devices@.len() && specificity_of(
                (#[trigger] root.devices@[i]).matcher,
                id,
            ) is Some,
        view.device_entry() matches Some(d) ==> root.devices@.contains(d) && specificity_of(
            d.matcher,
            id,
        ) is Some,
        view.group_entry() is Some <==> exists|i: int, k: int|
            0 <= i < root.groups@.len() && 0 <= k < root.groups@[i].devices@.len()
                && specificity_of(#[trigger] root.groups@[i].devices@[k], id) is Some,
        view.group_entry() matches Some(g) ==> exists|i: int|
            0 <= i < root.groups@.len() && #[trigger] root.groups@[i] == g && forall|j: int, k: int|
                0 <= j < i && 0 <= k < root.groups@[j].devices@.len() ==> specificity_of(
                    #[trigger] root.groups@[j].devices@[k],
                    id,
                ) is None,
        view.default_entries() == root.defaults.overrides,
{
    if view.device_entry() is Some {
        let i = choose|i: int|
            is_best(root.devices@, id, i) && view.device_entry()->0 == #[trigger] root.devices@[i];
        assert(root.devices@[i] == view.device_entry()->0);
    }
    if view.group_entry() is Some {
        let i = choose|i: int|
            is_first_group(root.groups@, id, i) && view.group_entry()->0
                == #[trigger] root.groups@[i];
        let k = choose|k: int|
            0 <= k < root.groups@[i].devices@.len() && specificity_of(
                #[trigger] root.groups@[i].devices@[k],
                id,
            ) is Some;
        assert(specificity_of(root.groups@[i].devices@[k], id) is Some);
        assert forall|j: int, m: int|
            0 <= j < i && 0 <= m < root.groups@[j].devices@.len() implies specificity_of(
            #[trigger] root.groups@[j].devices@[m],
            id,
        ) is None by {
            assert(!lists(root.groups@[j], id));
        }
    }
    if exists|i: int, k: int|
        0 <= i < root.groups@.len() && 0 <= k < root.groups@[i].devices@.len() && specificity_of(
            #[trigger] root.groups@[i].devices@[k],
            id,
        ) is Some {
        let (i, k) = choose|i: int, k: int|
            0 <= i < root.groups@.len() && 0 <= k < root.groups@[i].devices@.len()
                && specificity_of(#[trigger] root.groups@[i].devices@[k], id) is Some;
        assert(lists(root.groups@[i], id));
    }
    if view.device_entry() is None {
        assert forall|i: int| 0 <= i < root.devices@.len() implies specificity_of(
            (#[trigger] root.devices@[i]).matcher,
            id,
        ) is None by {
            assert(specificity_of(root.devices@[i].matcher, id) is None);
        }
    }
}

/// A device is named by its label where it has one, and else by the closest thing that its entry
/// goes by.
pub proof fn law_a_device_is_named_by_its_label(d: Device)
    ensures
        d.label matches Some(l) ==> name_of(d) == l@,
        d.label is None && d.matcher.serial is Some ==> name_of(d) == "serial "@
            + d.matcher.serial->0@,
        d.label is None && d.matcher.serial is None && d.matcher.vid is Some && d.matcher.pid is Some
            ==> name_of(d) == d.matcher.vid->0@ + ":"@ + d.matcher.pid->0@,
        d.label is None && d.matcher.serial is None && d.matcher.vid is Some && d.matcher.pid is None
            ==> name_of(d) == "vid "@ + d.matcher.vid->0@,
        d.label is None && d.matcher.serial is None && d.matcher.vid is None && d.matcher.pid is Some
            ==> name_of(d) == "pid "@ + d.matcher.pid->0@,
{
}

/// A text of three parts, none of them empty or with a point in it, is a key, and of just those
/// parts: the preset, the stage and the parameter, in this order.
pub proof fn law_a_key_is_preset_stage_and_parameter(k: OverrideKey, text: Seq<char>)
    requires
        is_key_of(k, text),
    ensures
        three_segments(pieces(text, '.')),
        pieces(text, '.') == seq![k.preset@, k.stage@, k.param@],
        forall|other: OverrideKey| #[trigger]
            is_key_of(other, text) ==> other.preset@ == k.preset@ && other.stage@ == k.stage@
                && other.param@ == k.param@,
{
    lemma_key_pieces(k, text);
    assert forall|other: OverrideKey| #[trigger] is_key_of(other, text) implies other.preset@
        == k.preset@ && other.stage@ == k.stage@ && other.param@ == k.param@ by {
        lemma_key_pieces(other, text);
        let p = pieces(text, '.');
        assert(p[0] == k.preset@ && p[1] == k.stage@ && p[2] == k.param@);
    }
}

proof fn lemma_key_pieces(k: OverrideKey, text: Seq<char>)
    requires
        is_key_of(k, text),
    ensures
        pieces(text, '.') == seq![k.preset@, k.stage@, k.param@],
{
    let list = seq![k.preset@, k.stage@, k.param@];
    reveal_with_fuel(rejoined, 3);
    assert(list.drop_first() =~= seq![k.stage@, k.param@]);
    assert(list.drop_first().drop_first() =~= seq![k.param@]);
    assert(rejoined(list, '.') =~= text);
    law_what_was_joined_comes_apart(list, '.');
}

/// The overrides in effect are exactly those that asking for each key finds, each with its value
/// and its level.
pub proof fn law_every_override_in_effect_is_listed(
    d: Map<Seq<char>, Resolved>,
    view: DeviceView,
    key: Seq<char>,
)
    requires
        holds_resolutions(d, |k: Seq<char>| resolved(view, k)),
    ensures
        d.contains_key(key) <==> resolved(view, key) is Some,
        d.contains_key(key) ==> *d[key].value == (resolved(view, key)->0).0 && d[key].origin@ == (
        resolved(view, key)->0).1,
{
    let want = |k: Seq<char>| resolved(view, k);
    assert(d.contains_key(key) <==> want(key) is Some);
}

/// Each level is named to the user in its own way, a group and a device by their names.
pub proof fn law_levels_are_named_apart(name: Seq<char>)
    ensures
        source_text(Source::Group(name)) == "group: "@ + name,
        source_text(Source::Device(name)) == "device: "@ + name,
        source_text(Source::Preset) == "preset"@,
        source_text(Source::Defaults) == "default"@,
        source_text(Source::Group(name)) != source_text(Source::Device(name)),
{
    reveal_strlit("group: ");
    reveal_strlit("device: ");
    assert(source_text(Source::Group(name))[0] == 'g' && source_text(Source::Device(name))[0]
        == 'd');
}

} // verus!
