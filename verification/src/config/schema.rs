//! What is on disk: presets, profiles, modes, devices and groups.
//!
//! A **preset** is a filter pipeline, a **mode** is a slot holding an output type plus a preset
//! reference, and a **profile** is a set of mode slots for one activity.

use crate::dict::Dict;
use crate::text::{chars_of, eq_ignoring_case, opt_view, same_ignoring_case};
use vstd::prelude::*;

verus! {

/// Highest schema version this build writes and fully understands.
pub const CURRENT_SCHEMA: u32 = 1;

/// A value as it stands in a file.
///
/// A float is held as the bits of its IEEE 754 double, so that nothing is lost on the way
/// through.
#[derive(Debug)]
pub enum Datum {
    String(String),
    Integer(i64),
    Float(u64),
    Boolean(bool),
    Datetime(String),
    Array(Vec<Datum>),
    Table(Vec<(String, Datum)>),
}

/// Stage parameters are carried as values rather than typed per stage, so that an older build
/// cannot eat a newer config's fields.
pub type Params = Dict<Datum>;

#[derive(Debug)]
pub struct Preset {
    pub schema: u32,
    pub display_name: Option<String>,
    pub stages: Vec<StageEntry>,
}

#[derive(Debug)]
pub struct StageEntry {
    /// Stage kind, such as `stabilize`.
    pub kind: String,
    /// Disambiguates repeated instances of the same kind in one preset.
    pub id: Option<String>,
    /// Disabled stages stay in the file so toggling never loses their tuning.
    pub enabled: bool,
    /// Everything else. Pipeline order is file order.
    pub params: Params,
}

#[derive(Debug)]
pub struct Profile {
    pub schema: u32,
    pub display_name: Option<String>,
    /// 1-based slot number activated when this profile is selected.
    pub default_mode: usize,
    pub modes: Vec<Mode>,
    /// Opt-in focus rules. Empty means no auto-switching for this profile.
    pub auto_activate: Vec<AppRule>,
    /// Overrides the global toggle binding for this profile only.
    pub toggle_binding: Option<String>,
    /// Destroy the virtual tablet on leaving tablet output, rather than keeping it alive.
    pub destroy_tablet_on_leave: bool,
    /// In tablet mode, also send ordinary mouse buttons alongside the pen.
    pub tablet_emits_mouse_clicks: bool,
    /// Whether to hold the pen still while scrolling in an application not named otherwise.
    pub freeze_position_while_scrolling: bool,
    /// How long the pen stays frozen after the last wheel event, in milliseconds.
    pub scroll_freeze_ms: u64,
}

#[derive(Debug)]
pub struct Mode {
    pub name: String,
    pub output: Output,
    /// Preset slug. Resolved against the preset library, never embedded.
    pub preset: String,
}

#[derive(Debug, Clone, Copy, PartialEq, Eq, Structural)]
pub enum Output {
    /// The ordinary pointer, delivered absolutely from the shared position when the screen
    /// layout is known.
    Mouse,
    /// A pen on the virtual tablet, falling back to `Mouse` per window.
    Tablet,
    /// Raw relative deltas, bypassing the shared position. For consumers that lock the pointer.
    Relative,
}

/// What a bound mouse button still does for the application.
#[derive(Debug, Clone, Copy, PartialEq, Eq, Structural)]
pub enum Passthrough {
    /// The application always sees it.
    Always,
    /// Withheld only while the rest of its chord is held.
    UnlessActive,
    /// Never seen by the application.
    Reserved,
}

impl Default for Passthrough {
    fn default() -> (r: Self)
        ensures
            r == Passthrough::UnlessActive,
    {
        Passthrough::UnlessActive
    }
}

#[derive(Debug)]
pub struct AppRule {
    /// Window class or app id to match.
    pub app: String,
    /// Slot to activate, 1-based.
    pub mode: usize,
}

#[derive(Debug)]
pub struct Root {
    pub schema: u32,
    pub defaults: Defaults,
    pub groups: Vec<Group>,
    pub devices: Vec<Device>,
    /// Whether an application can receive tablet input, keyed by window class.
    pub tablet_support: Dict<bool>,
    /// Whether an application needs the pen held still to receive a scroll, by window class.
    pub scroll_freeze: Dict<bool>,
}

#[derive(Debug)]
pub struct Defaults {
    pub profile: Option<String>,
    pub toggle_binding: Option<String>,
    /// Global overrides, applying to every device that does not override them.
    pub overrides: Params,
}

#[derive(Debug)]
pub struct Group {
    pub name: String,
    pub devices: Vec<Match>,
    pub overrides: Params,
}

#[derive(Debug)]
pub struct Device {
    pub matcher: Match,
    pub label: Option<String>,
    /// **Opt-in.** False means this device is never touched, which is what keeps trackpads and
    /// unrelated hardware safe by default.
    pub managed: bool,
    pub overrides: Params,
}

/// How a config entry identifies hardware.
///
/// Precedence when several entries match: `serial` beats `vid`+`pid` beats the global default.
#[derive(Debug, Clone, PartialEq, Eq)]
pub struct Match {
    pub serial: Option<String>,
    pub vid: Option<String>,
    pub pid: Option<String>,
}

/// A device as actually discovered, to be matched against `Match` entries.
#[derive(Debug, Clone, PartialEq, Eq)]
pub struct Identity {
    pub serial: Option<String>,
    pub vid: Option<String>,
    pub pid: Option<String>,
}

impl Default for Match {
    fn default() -> (r: Self)
        ensures
            r.serial is None,
            r.vid is None,
            r.pid is None,
    {
        Match { serial: None, vid: None, pid: None }
    }
}

impl Default for Identity {
    fn default() -> (r: Self)
        ensures
            r.serial is None,
            r.vid is None,
            r.pid is None,
    {
        Identity { serial: None, vid: None, pid: None }
    }
}

impl Default for Defaults {
    fn default() -> (r: Self)
        ensures
            r.profile is None,
            r.toggle_binding is None,
            r.overrides.map() == Map::<Seq<char>, Datum>::empty(),
    {
        Defaults { profile: None, toggle_binding: None, overrides: Dict::new() }
    }
}

impl Default for Root {
    /// Nothing configured. The schema number is zero: it is read from a file, and there is none.
    fn default() -> (r: Self)
        ensures
            r.schema == 0,
            r.defaults.profile is None,
            r.defaults.toggle_binding is None,
            r.defaults.overrides.map() == Map::<Seq<char>, Datum>::empty(),
            r.groups@.len() == 0,
            r.devices@.len() == 0,
            r.tablet_support.map() == Map::<Seq<char>, bool>::empty(),
            r.scroll_freeze.map() == Map::<Seq<char>, bool>::empty(),
    {
        Root {
            schema: 0,
            defaults: Defaults::default(),
            groups: Vec::new(),
            devices: Vec::new(),
            tablet_support: Dict::new(),
            scroll_freeze: Dict::new(),
        }
    }
}

/// Whether what an entry asks for is what the device has. Asking for nothing always fits.
pub open spec fn fits(want: Option<Seq<char>>, have: Option<Seq<char>>) -> bool {
    match want {
        None => true,
        Some(w) => have is Some && same_ignoring_case(w, have->0),
    }
}

/// Whether an entry names no hardware at all.
pub open spec fn names_nothing(m: Match) -> bool {
    m.serial is None && m.vid is None && m.pid is None
}

/// How specifically an entry identifies a device, or `None` if it does not.
pub open spec fn specificity_of(m: Match, id: Identity) -> Option<u8> {
    if names_nothing(m) {
        None
    } else if m.serial is Some {
        if fits(opt_view(m.serial), opt_view(id.serial)) {
            Some(3u8)
        } else {
            None
        }
    } else if !fits(opt_view(m.vid), opt_view(id.vid)) || !fits(opt_view(m.pid), opt_view(id.pid)) {
        None
    } else if m.vid is Some && m.pid is Some {
        Some(2u8)
    } else {
        Some(1u8)
    }
}

/// Hex device ids appear in both cases in the wild (`0C08` and `0c08`).
fn eq_ci(a: &str, b: &str) -> (r: bool)
    ensures
        r == same_ignoring_case(a@, b@),
{
    eq_ignoring_case(a, b)
}

fn field_fits(want: &Option<String>, have: &Option<String>) -> (r: bool)
    ensures
        r == fits(opt_view(*want), opt_view(*have)),
{
    match (want, have) {
        (Some(w), Some(h)) => eq_ci(w.as_str(), h.as_str()),
        (Some(_), None) => false,
        (None, _) => true,
    }
}

impl Match {
    /// How specifically this matcher identifies `id`, or `None` if it does not.
    ///
    /// Higher is more specific. Used to pick a winner when several entries apply.
    pub fn specificity(&self, id: &Identity) -> (r: Option<u8>)
        ensures
            r == specificity_of(*self, *id),
    {
        // An empty matcher would otherwise match everything, which is never intended.
        if self.serial.is_none() && self.vid.is_none() && self.pid.is_none() {
            return None;
        }
        if self.serial.is_some() {
            return if field_fits(&self.serial, &id.serial) {
                Some(3u8)
            } else {
                None
            };
        }
        if !(field_fits(&self.vid, &id.vid) && field_fits(&self.pid, &id.pid)) {
            return None;
        }
        if self.vid.is_some() && self.pid.is_some() {
            Some(2u8)
        } else {
            Some(1u8)
        }
    }
}

/// An entry that names nothing matches nothing.
pub proof fn law_an_empty_matcher_matches_nothing(m: Match, id: Identity)
    requires
        names_nothing(m),
    ensures
        specificity_of(m, id) is None,
{
}

/// Of two entries that match one device, one with a serial is more specific than one without,
/// and one with both ids is more specific than one with a single id.
pub proof fn law_more_detail_is_more_specific(a: Match, b: Match, id: Identity)
    requires
        specificity_of(a, id) is Some,
        specificity_of(b, id) is Some,
    ensures
        a.serial is Some && b.serial is None ==> specificity_of(a, id)->0 > specificity_of(b, id)->0,
        a.serial is None && b.serial is None && a.vid is Some && a.pid is Some && !(b.vid is Some
            && b.pid is Some) ==> specificity_of(a, id)->0 > specificity_of(b, id)->0,
{
}

/// An entry with a serial never matches a device that has none or another one.
pub proof fn law_a_wanted_serial_is_required(m: Match, id: Identity)
    requires
        m.serial is Some,
        !fits(opt_view(m.serial), opt_view(id.serial)),
    ensures
        specificity_of(m, id) is None,
{
}

/// The schema version of a file that states none.
pub fn default_schema() -> (r: u32)
    ensures
        r == CURRENT_SCHEMA,
{
    CURRENT_SCHEMA
}

/// Whether a stage that does not say so is enabled.
pub fn yes() -> (r: bool)
    ensures
        r,
{
    true
}

/// The slot of a rule or a profile that names none.
pub fn one() -> (r: usize)
    ensures
        r == 1,
{
    1
}

/// The freeze of a profile that states none, in milliseconds.
pub fn scroll_freeze_default() -> (r: u64)
    ensures
        r == 250,
{
    250
}

pub open spec fn slug_char(c: char) -> bool {
    ('a' <= c && c <= 'z') || ('0' <= c && c <= '9') || c == '-' || c == '_'
}

/// What a slug is made of: lower case letters, digits, hyphens and underscores, from one to 64
/// of them, with no hyphen at either end.
pub open spec fn is_slug(s: Seq<char>) -> bool {
    &&& 0 < s.len() <= 64
    &&& forall|i: int| 0 <= i < s.len() ==> slug_char(#[trigger] s[i])
    &&& s[0] != '-'
    &&& s.last() != '-'
}

/// Filenames are identities, so a slug has to be safe as a filename and stable as a reference.
pub fn is_valid_slug(s: &str) -> (r: bool)
    ensures
        r == is_slug(s@),
{
    let v = chars_of(s);
    if v.len() == 0 || v.len() > 64 {
        return false;
    }
    let mut i: usize = 0;
    while i < v.len()
        invariant
            i <= v.len(),
            v@ == s@,
            forall|j: int| 0 <= j < i ==> slug_char(#[trigger] v@[j]),
        decreases v.len() - i,
    {
        let c = v[i];
        if !(('a' <= c && c <= 'z') || ('0' <= c && c <= '9') || c == '-' || c == '_') {
            assert(!slug_char(v@[i as int]));
            return false;
        }
        i += 1;
    }
    v[0] != '-' && v[v.len() - 1] != '-'
}

/// An entry without a serial matches a device exactly where it names a vendor or a product, and
/// the device has every id that it names, whatever the case. One with a serial goes by it alone.
pub proof fn law_every_named_id_has_to_agree(m: Match, id: Identity)
    ensures
        m.serial is None && m.vid is Some && (id.vid is None || !same_ignoring_case(
            m.vid->0@,
            id.vid->0@,
        )) ==> specificity_of(m, id) is None,
        m.serial is None && m.pid is Some && (id.pid is None || !same_ignoring_case(
            m.pid->0@,
            id.pid->0@,
        )) ==> specificity_of(m, id) is None,
        m.serial is Some && (id.serial is None || !same_ignoring_case(
            m.serial->0@,
            id.serial->0@,
        )) ==> specificity_of(m, id) is None,
        m.serial is Some && id.serial is Some && same_ignoring_case(m.serial->0@, id.serial->0@)
            ==> specificity_of(m, id) is Some,
        m.serial is None && (m.vid is Some || m.pid is Some) && (m.vid is Some ==> id.vid is Some
            && same_ignoring_case(m.vid->0@, id.vid->0@)) && (m.pid is Some ==> id.pid is Some
            && same_ignoring_case(m.pid->0@, id.pid->0@)) ==> specificity_of(m, id) is Some,
{
}

/// Whether an entry matches depends on nothing that the entry does not name: a device that differs
/// only there is matched just as well.
pub proof fn law_what_is_not_named_does_not_count(m: Match, a: Identity, b: Identity)
    requires
        m.serial is Some ==> a.serial == b.serial,
        m.serial is None && m.vid is Some ==> a.vid == b.vid,
        m.serial is None && m.pid is Some ==> a.pid == b.pid,
    ensures
        specificity_of(m, a) == specificity_of(m, b),
{
}

/// A slug is safe as a file name: it is neither empty nor long, and holds no separator, no dot,
/// no blank and no capital.
pub proof fn law_a_slug_is_a_safe_file_name(s: Seq<char>, i: int)
    requires
        is_slug(s),
        0 <= i < s.len(),
    ensures
        s.len() <= 64,
        s[i] != '/' && s[i] != '\\' && s[i] != '.' && s[i] != ' ' && s[i] != '\'',
        !('A' <= s[i] && s[i] <= 'Z'),
        (s[i] as u32) < 128,
        s[0] != '-',
        s[s.len() - 1] != '-',
{
    assert(slug_char(s[i]));
}

/// Any short text of small letters, digits and underscores is a slug, with hyphens inside it or
/// without.
pub proof fn law_plain_names_are_slugs(s: Seq<char>)
    requires
        1 <= s.len() <= 64,
        forall|i: int|
            0 <= i < s.len() ==> {
                ||| 'a' <= #[trigger] s[i] && s[i] <= 'z'
                ||| '0' <= s[i] && s[i] <= '9'
                ||| s[i] == '_'
                ||| s[i] == '-' && 0 < i < s.len() - 1
            },
    ensures
        is_slug(s),
{
    assert(s[0] == s[0] && s[s.len() - 1] == s.last());
}

} // verus!
