//! Which application is **under the daemon's own position**, and whether it can take a pen.
//!
//! A mode stays as the user chose it, and only the transport changes when the application
//! receiving the pen cannot accept one.

use crate::text::{
    all_digits, begins_with, char_views, chars_of, decimal, digits_value, eq_ignoring_case,
    is_digit, law_what_was_joined_comes_apart, lemma_decimal, lemma_decimal_parses,
    lemma_digit_plain, lower, owned, parse_u32, parse_usize, pieces, rejoined, same_ignoring_case,
    slice_of, spells, split_at, string_of, to_lower, trim, trimmed, unsigned,
};
use vstd::prelude::*;
use vstd::string::*;

verus! {

/// What inspecting the process established, strongest claim first.
#[derive(Clone, Copy, Debug, PartialEq, Eq, Structural)]
pub enum Signal {
    /// No Wayland client library is mapped, so the window reaches the compositor through
    /// XWayland, where a pen is always safe.
    X11,
    /// Qt's Wayland platform plugin is loaded.
    QtWayland,
    /// GDK's Wayland backend is loaded. GTK3 keeps it in `libgdk-3`; GTK4 in `libgtk-4`.
    Gtk,
    /// SDL3 is loaded. SDL2 has no tablet support and deliberately does not match.
    Sdl3,
    /// Chromium-family, recognised by the data files every build maps. Checked before the
    /// toolkits, because it loads them for theming without windowing through them.
    Chromium,
    /// Nothing the process loaded contains the interface string, and everything worth checking
    /// was readable.
    CannotBind,
    /// The string is present somewhere, or a candidate could not be read.
    Unproven,
}

/// What is under the pointer: its window class, and what inspection established about it.
#[derive(Debug, PartialEq, Eq)]
pub struct Under {
    pub class: String,
    /// `None` when the process could not be inspected at all, which is different from "no".
    pub signal: Option<Signal>,
}

impl Default for Under {
    fn default() -> (r: Self)
        ensures
            r.class@ == Seq::<char>::empty(),
            r.signal is None,
    {
        Under { class: String::new(), signal: None }
    }
}

impl Under {
    /// A copy.
    pub fn duplicate(&self) -> (r: Self)
        ensures
            r.class@ == self.class@,
            r.signal == self.signal,
    {
        Under { class: owned(self.class.as_str()), signal: self.signal }
    }
}

pub open spec fn entry_views(list: Seq<(String, bool)>) -> Seq<(Seq<char>, bool)> {
    list.map_values(|e: (String, bool)| (e.0@, e.1))
}

/// What the first entry for `class` says. Nothing is said about a window without a class.
pub open spec fn entry_for(list: Seq<(Seq<char>, bool)>, class: Seq<char>) -> Option<bool>
    decreases list.len(),
{
    if class.len() == 0 || list.len() == 0 {
        None
    } else if same_ignoring_case(list[0].0, class) {
        Some(list[0].1)
    } else {
        entry_for(list.drop_first(), class)
    }
}

fn find_entry(list: &Vec<(String, bool)>, class: &str) -> (r: Option<bool>)
    ensures
        r == entry_for(entry_views(list@), class@),
{
    if class.unicode_len() == 0 {
        return None;
    }
    let ghost all = entry_views(list@);
    let mut i: usize = 0;
    assert(all.skip(0) =~= all);
    while i < list.len()
        invariant
            i <= list.len(),
            all == entry_views(list@),
            class@.len() > 0,
            entry_for(all.skip(i as int), class@) == entry_for(all, class@),
        decreases list.len() - i,
    {
        assert(all.skip(i as int)[0] == all[i as int]);
        assert(all.skip(i as int).drop_first() =~= all.skip(i + 1));
        if eq_ignoring_case(list[i].0.as_str(), class) {
            return Some(list[i].1);
        }
        i += 1;
    }
    None
}

/// Whether a window class belongs to an application: its name, or its name with a suffix such as
/// a version behind a hyphen, in any case.
pub open spec fn is_class_of(class: Seq<char>, app: Seq<char>) -> bool {
    lower(class) == app || (app + "-"@).is_prefix_of(lower(class))
}

/// Applications known to implement pen input on Wayland.
///
/// **Programs, not toolkits.** A name that does not belong here costs its user every click in
/// that window, and `[tablet_support]` is one line for anything missing.
pub open spec fn pen_applications() -> Seq<Seq<char>> {
    seq![
        "krita"@,
        "blender"@,
        "gimp"@,
        "inkscape"@,
        "mypaint"@,
        "drawpile"@,
        "xournalpp"@,
        "aseprite"@,
        "kolourpaint"@,
        "openboard"@,
    ]
}

/// Applications measured to filter mouse input during pen proximity. Short on purpose: an entry
/// here costs its user the ability to move while scrolling.
pub open spec fn freezing_applications() -> Seq<Seq<char>> {
    seq!["krita"@]
}

/// Whether a window class belongs to one of several applications.
pub open spec fn is_class_of_any(class: Seq<char>, apps: Seq<Seq<char>>) -> bool {
    exists|i: int| 0 <= i < apps.len() && is_class_of(class, #[trigger] apps[i])
}

spec fn str_views(list: Seq<&str>) -> Seq<Seq<char>> {
    list.map_values(|s: &str| s@)
}

fn belongs_to(class: &str, apps: &Vec<&str>) -> (b: bool)
    ensures
        b == is_class_of_any(class@, str_views(apps@)),
{
    let low = to_lower(class);
    let mut i: usize = 0;
    while i < apps.len()
        invariant
            i <= apps.len(),
            low@ == lower(class@),
            forall|j: int| 0 <= j < i ==> !is_class_of(class@, #[trigger] str_views(apps@)[j]),
        decreases apps.len() - i,
    {
        let app = apps[i];
        assert(str_views(apps@)[i as int] == app@);
        let stem = owned(app).concat("-");
        if spells(&low, app) || begins_with(&low, stem.as_str()) {
            assert(is_class_of(class@, str_views(apps@)[i as int]));
            return true;
        }
        i += 1;
    }
    false
}

/// Whether a class is that of an application known to implement pen input.
pub fn draws_with_a_pen(class: &str) -> (b: bool)
    ensures
        b == is_class_of_any(class@, pen_applications()),
{
    let known: Vec<&str> = vec![
        "krita",
        "blender",
        "gimp",
        "inkscape",
        "mypaint",
        "drawpile",
        "xournalpp",
        "aseprite",
        "kolourpaint",
        "openboard",
    ];
    assert(str_views(known@) =~= pen_applications());
    belongs_to(class, &known)
}

/// What inspection alone makes of a window, and the reason.
pub open spec fn inspected(signal: Option<Signal>) -> (bool, Seq<char>) {
    match signal {
        Some(Signal::X11) => (true, "an X11 window — X emulates pointer events from a pen"@),
        Some(Signal::QtWayland) => (
            false,
            "Qt on Wayland: able to receive a pen, but only if the application handles one — add it to [tablet_support] if it does"@,
        ),
        Some(Signal::Gtk) => (
            false,
            "GTK on Wayland: able to receive a pen, but only if the application handles one — add it to [tablet_support] if it does"@,
        ),
        Some(Signal::Sdl3) => (
            false,
            "SDL3 on Wayland: able to receive a pen, but only if the application handles one — add it to [tablet_support] if it does"@,
        ),
        Some(Signal::Chromium) => (
            false,
            "Chromium-based; pen support varies by build, so the pointer is used — [tablet_support] overrides this"@,
        ),
        Some(Signal::CannotBind) => (
            false,
            "contains no tablet protocol code, so the pointer is used"@,
        ),
        Some(Signal::Unproven) | None => (
            false,
            "not a known pen application, so the pointer is used — [tablet_support] overrides this"@,
        ),
    }
}

/// Whether an application can receive tablet input, and the reason. Strongest claim first: the
/// user's own entry, the list of applications that handle a pen, then inspection.
pub open spec fn verdict(
    class: Seq<char>,
    signal: Option<Signal>,
    overrides: Seq<(Seq<char>, bool)>,
) -> (bool, Seq<char>) {
    match entry_for(overrides, trim(class)) {
        Some(supported) => (supported, "your config's [tablet_support]"@),
        None => if is_class_of_any(trim(class), pen_applications()) {
            (true, "a known drawing application"@)
        } else {
            inspected(signal)
        },
    }
}

/// Whether an application can receive tablet input.
///
/// **Unknown means the pointer.** Sending the pen to a window that cannot take one loses
/// *clicking entirely*, and nothing on screen says why. Sending the pointer to a window that
/// could have taken a pen loses pressure in that one application: visible, and correctable.
pub fn supports_tablet(under: &Under, overrides: &Vec<(String, bool)>) -> (b: bool)
    ensures
        b == verdict(under.class@, under.signal, entry_views(overrides@)).0,
{
    explain(under, overrides).0
}

fn trimmed_text(s: &str) -> (r: String)
    ensures
        r@ == trim(s@),
{
    string_of(&trimmed(&chars_of(s)))
}

/// The same verdict, with the reason that produced it.
///
/// Capability is not use: a toolkit that could take a pen is a hint and nothing more, because on
/// Wayland nothing converts tablet input into pointer input for an application that has no code
/// for it.
pub fn explain(under: &Under, overrides: &Vec<(String, bool)>) -> (r: (bool, &'static str))
    ensures
        (r.0, r.1@) == verdict(under.class@, under.signal, entry_views(overrides@)),
{
    let class = trimmed_text(under.class.as_str());

    // A user entry always wins, and is the way to correct anything below.
    if let Some(supported) = find_entry(overrides, class.as_str()) {
        return (supported, "your config's [tablet_support]");
    }
    if draws_with_a_pen(class.as_str()) {
        return (true, "a known drawing application");
    }
    match under.signal {
        // The one tier where the *platform* guarantees it, rather than the application.
        Some(Signal::X11) => (true, "an X11 window — X emulates pointer events from a pen"),
        // Capability, not use. Named individually so the reason a window is on the pointer is
        // legible, and so the message can say what would change it.
        Some(Signal::QtWayland) => (
            false,
            "Qt on Wayland: able to receive a pen, but only if the application handles one — add it to [tablet_support] if it does",
        ),
        Some(Signal::Gtk) => (
            false,
            "GTK on Wayland: able to receive a pen, but only if the application handles one — add it to [tablet_support] if it does",
        ),
        Some(Signal::Sdl3) => (
            false,
            "SDL3 on Wayland: able to receive a pen, but only if the application handles one — add it to [tablet_support] if it does",
        ),
        Some(Signal::Chromium) => (
            false,
            "Chromium-based; pen support varies by build, so the pointer is used — [tablet_support] overrides this",
        ),
        Some(Signal::CannotBind) => (
            false,
            "contains no tablet protocol code, so the pointer is used",
        ),
        Some(Signal::Unproven) | None => (
            false,
            "not a known pen application, so the pointer is used — [tablet_support] overrides this",
        ),
    }
}

/// Whether a scroll freezes the pen over a window: the user's entry, else the list, else the
/// profile's default.
pub open spec fn freezes(
    class: Seq<char>,
    overrides: Seq<(Seq<char>, bool)>,
    default_freeze: bool,
) -> bool {
    match entry_for(overrides, trim(class)) {
        Some(freeze) => freeze,
        None => is_class_of_any(trim(class), freezing_applications()) || default_freeze,
    }
}

/// Whether an application needs the pen held still before a scroll will reach it.
///
/// **Keyed on the application, not on the mode.** Krita ignores mouse input while a pen is in
/// proximity, so the wheel only arrives once the pen has been quiet. Blender does not filter
/// that way, so freezing it there would remove something that worked.
pub fn needs_scroll_freeze(
    class: &str,
    overrides: &Vec<(String, bool)>,
    default_freeze: bool,
) -> (b: bool)
    ensures
        b == freezes(class@, entry_views(overrides@), default_freeze),
{
    let class = trimmed_text(class);
    if let Some(freeze) = find_entry(overrides, class.as_str()) {
        return freeze;
    }
    let known: Vec<&str> = vec!["krita"];
    assert(str_views(known@) =~= freezing_applications());
    belongs_to(class.as_str(), &known) || default_freeze
}

/// A user's entry decides whatever the lists and inspection say.
pub proof fn law_a_user_entry_overrules_everything(
    class: Seq<char>,
    signal: Option<Signal>,
    overrides: Seq<(Seq<char>, bool)>,
    default_freeze: bool,
)
    requires
        entry_for(overrides, trim(class)) is Some,
    ensures
        verdict(class, signal, overrides).0 == entry_for(overrides, trim(class))->0,
        freezes(class, overrides, default_freeze) == entry_for(overrides, trim(class))->0,
{
}

/// An entry without a class, or a window without one, matches nothing.
pub proof fn law_an_entry_keyed_on_nothing_matches_nothing(
    class: Seq<char>,
    overrides: Seq<(Seq<char>, bool)>,
)
    requires
        trim(class).len() == 0,
    ensures
        entry_for(overrides, trim(class)) is None,
{
}

/// Without an entry and off the list, only an X11 window takes the pen.
pub proof fn law_a_capable_toolkit_is_not_enough(
    class: Seq<char>,
    signal: Option<Signal>,
    overrides: Seq<(Seq<char>, bool)>,
)
    requires
        entry_for(overrides, trim(class)) is None,
        !is_class_of_any(trim(class), pen_applications()),
    ensures
        verdict(class, signal, overrides).0 <==> signal == Some(Signal::X11),
{
}

/// The named applications keep their pen whatever inspection finds.
pub proof fn law_the_list_outranks_inspection(
    class: Seq<char>,
    signal: Option<Signal>,
    overrides: Seq<(Seq<char>, bool)>,
)
    requires
        entry_for(overrides, trim(class)) is None,
        is_class_of_any(trim(class), pen_applications()),
    ensures
        verdict(class, signal, overrides).0,
{
}

/// One window of the compositor's layout, with its inspection verdict precomputed.
///
/// Its geometry is held as the bits of IEEE 754 doubles, in pixels of the desktop.
#[derive(Debug)]
pub struct Win {
    pub class: String,
    pub signal: Option<Signal>,
    pub x: u64,
    pub y: u64,
    pub width: u64,
    pub height: u64,
}

/// What is known about windows, shared between the bus and the input loop.
pub struct Focus {
    /// The window under the *pointer cursor*, as the compositor reported it. The degraded hover
    /// source: the compositor's cursor never tracks a tablet tool.
    under: Under,
    /// The compositor's window layout, bottom to top of the stacking order.
    windows: Vec<Win>,
    /// The compositor's cursor position, when it moved without us moving it.
    external_cursor: Option<(u64, u64)>,
}

impl Default for Focus {
    fn default() -> (r: Self)
        ensures
            r.hovered().class@ == Seq::<char>::empty(),
            r.hovered().signal is None,
            r.layout().len() == 0,
            r.cursor() is None,
    {
        Focus { under: Under::default(), windows: Vec::new(), external_cursor: None }
    }
}

/// The position of the last window that the point is inside of.
pub open spec fn topmost(inside: Seq<bool>) -> Option<int>
    decreases inside.len(),
{
    if inside.len() == 0 {
        None
    } else if inside.last() {
        Some(inside.len() - 1)
    } else {
        topmost(inside.drop_last())
    }
}

impl Focus {
    pub closed spec fn hovered(&self) -> Under {
        self.under
    }

    pub closed spec fn layout(&self) -> Seq<Win> {
        self.windows@
    }

    pub closed spec fn cursor(&self) -> Option<(u64, u64)> {
        self.external_cursor
    }

    /// Record what is under the pointer, and what inspecting its process established.
    pub fn set(&mut self, class: &str, signal: Option<Signal>)
        ensures
            final(self).hovered().class@ == class@,
            final(self).hovered().signal == signal,
            final(self).layout() == old(self).layout(),
            final(self).cursor() == old(self).cursor(),
    {
        self.under = Under { class: owned(class), signal };
    }

    pub fn get(&self) -> (r: Under)
        ensures
            r.class@ == self.hovered().class@,
            r.signal == self.hovered().signal,
    {
        self.under.duplicate()
    }

    /// Replace the layout.
    pub fn set_layout(&mut self, windows: Vec<Win>)
        ensures
            final(self).layout() == windows@,
            final(self).hovered() == old(self).hovered(),
            final(self).cursor() == old(self).cursor(),
    {
        self.windows = windows;
    }

    /// The windows of the layout, bottom to top.
    pub fn windows(&self) -> (r: &Vec<Win>)
        ensures
            r@ == self.layout(),
    {
        &self.windows
    }

    /// The topmost window that a point is inside of, given for each window whether it is.
    ///
    /// This is what makes hover detection work on *every* transport: the compositor will not say
    /// what is under a pen, but the daemon always knows where its own position is.
    pub fn window_at(&self, inside: &Vec<bool>) -> (r: Option<Under>)
        requires
            inside@.len() == self.layout().len(),
        ensures
            r is Some <==> topmost(inside@) is Some,
            r matches Some(u) ==> {
                let w = self.layout()[topmost(inside@)->0];
                u.class@ == w.class@ && u.signal == w.signal
            },
    {
        let mut n: usize = self.windows.len();
        assert(inside@.take(n as int) =~= inside@);
        while n > 0
            invariant
                n <= self.windows.len(),
                self.windows@ == self.layout(),
                inside@.len() == self.windows@.len(),
                topmost(inside@.take(n as int)) == topmost(inside@),
            decreases n,
        {
            assert(inside@.take(n as int).last() == inside@[n - 1]);
            assert(inside@.take(n as int).drop_last() =~= inside@.take(n - 1));
            if inside[n - 1] {
                let w = &self.windows[n - 1];
                return Some(Under { class: owned(w.class.as_str()), signal: w.signal });
            }
            n -= 1;
        }
        None
    }

    /// Record the compositor's cursor position, from its own report.
    pub fn report_cursor(&mut self, x: u64, y: u64)
        ensures
            final(self).cursor() == Some((x, y)),
            final(self).hovered() == old(self).hovered(),
            final(self).layout() == old(self).layout(),
    {
        self.external_cursor = Some((x, y));
    }

    /// Take the most recent reported cursor position, if any arrived since the last take.
    ///
    /// Consumed, not read: adopting the same report every pass would fight the very motion it is
    /// meant to reconcile.
    pub fn take_external_cursor(&mut self) -> (r: Option<(u64, u64)>)
        ensures
            r == old(self).cursor(),
            final(self).cursor() is None,
            final(self).hovered() == old(self).hovered(),
            final(self).layout() == old(self).layout(),
    {
        let r = self.external_cursor;
        self.external_cursor = None;
        r
    }
}

/// The topmost window wins: the point is inside of it, and of none above it.
pub proof fn law_the_topmost_window_wins(inside: Seq<bool>)
    ensures
        match topmost(inside) {
            Some(i) => 0 <= i < inside.len() && inside[i] && forall|j: int|
                i < j < inside.len() ==> !#[trigger] inside[j],
            None => forall|j: int| 0 <= j < inside.len() ==> !#[trigger] inside[j],
        },
    decreases inside.len(),
{
    if inside.len() > 0 && !inside.last() {
        let rest = inside.drop_last();
        law_the_topmost_window_wins(rest);
        assert forall|j: int| 0 <= j < inside.len() - 1 implies #[trigger] inside[j] == rest[j] by {
        }
    }
}

/// One line of a layout: a window's class, its process, and its geometry as text.
#[derive(Debug)]
pub struct LayoutRow {
    pub class: String,
    pub pid: u32,
    pub x: String,
    pub y: String,
    pub width: String,
    pub height: String,
}

/// The view of a [`LayoutRow`].
pub struct RowView {
    pub class: Seq<char>,
    pub pid: u32,
    pub x: Seq<char>,
    pub y: Seq<char>,
    pub width: Seq<char>,
    pub height: Seq<char>,
}

impl View for LayoutRow {
    type V = RowView;

    open spec fn view(&self) -> RowView {
        RowView {
            class: self.class@,
            pid: self.pid,
            x: self.x@,
            y: self.y@,
            width: self.width@,
            height: self.height@,
        }
    }
}

pub open spec fn row_views(list: Seq<LayoutRow>) -> Seq<RowView> {
    list.map_values(|r: LayoutRow| r@)
}

/// The row that a line's fields make, if there are enough of them. A process number that cannot
/// be read counts as unknown, which is zero.
pub open spec fn row_of(fields: Seq<Seq<char>>) -> Option<RowView> {
    if fields.len() < 6 {
        None
    } else {
        Some(
            RowView {
                class: trim(fields[0]),
                pid: match unsigned(trim(fields[1]), u32::MAX as nat) {
                    Some(n) => n as u32,
                    None => 0,
                },
                x: trim(fields[2]),
                y: trim(fields[3]),
                width: trim(fields[4]),
                height: trim(fields[5]),
            },
        )
    }
}

/// The rows of a list of lines, in order. A malformed line costs only itself.
pub open spec fn rows_of(lines: Seq<Seq<char>>) -> Seq<RowView>
    decreases lines.len(),
{
    if lines.len() == 0 {
        seq![]
    } else {
        let rest = rows_of(lines.drop_last());
        match row_of(pieces(lines.last(), '\t')) {
            Some(row) => rest.push(row),
            None => rest,
        }
    }
}

/// The rows of the layout that the compositor's script sends: one window per line, bottom to
/// top, `class \t pid \t x \t y \t width \t height`.
///
/// A plain format, so that a malformed line costs that line, not the message.
pub fn parse_layout(text: &str) -> (r: Vec<LayoutRow>)
    ensures
        row_views(r@) == rows_of(pieces(text@, '\n')),
{
    let chars = chars_of(text);
    let lines = split_at(&chars, '\n');
    let ghost all = pieces(text@, '\n');
    let mut r: Vec<LayoutRow> = Vec::new();
    let mut i: usize = 0;
    proof {
        assert(lines@.len() == char_views(lines@).len());
        assert(all.take(0) =~= Seq::<Seq<char>>::empty());
        assert(row_views(r@) =~= rows_of(all.take(0)));
    }
    while i < lines.len()
        invariant
            i <= lines.len(),
            all == char_views(lines@),
            row_views(r@) == rows_of(all.take(i as int)),
        decreases lines.len() - i,
    {
        let ghost now = all.take(i + 1);
        proof {
            assert(now.drop_last() =~= all.take(i as int));
            assert(now.last() == lines@[i as int]@);
        }
        let f = split_at(&lines[i], '\t');
        let ghost fields = pieces(lines@[i as int]@, '\t');
        assert(f@.len() == char_views(f@).len());
        if f.len() >= 6 {
            proof {
                assert(forall|k: int| 0 <= k < 6 ==> f@[k]@ == #[trigger] fields[k]);
            }
            let row = LayoutRow {
                class: string_of(&trimmed(&f[0])),
                pid: match parse_u32(&trimmed(&f[1])) {
                    Some(n) => n,
                    None => 0,
                },
                x: string_of(&trimmed(&f[2])),
                y: string_of(&trimmed(&f[3])),
                width: string_of(&trimmed(&f[4])),
                height: string_of(&trimmed(&f[5])),
            };
            let ghost before = r@;
            let ghost v = row@;
            r.push(row);
            assert(row_views(r@) =~= row_views(before).push(v));
        }
        i += 1;
    }
    assert(all.take(i as int) =~= all);
    r
}

/// The last word of a reply, by spaces.
pub open spec fn last_word(reply: Seq<char>) -> Seq<char> {
    pieces(trim(reply), ' ').last()
}

/// Whether a reply ends in a number that is not negative: the id of a script that was accepted.
pub open spec fn names_a_script(word: Seq<char>) -> bool {
    ||| unsigned(word, i32::MAX as nat) is Some
    ||| word.len() > 1 && word[0] == '-' && all_digits(word.skip(1)) && digits_value(word.skip(1))
        == 0
}

/// Whether the compositor *accepted* the script, not merely whether the call went through. A
/// negative id means refused.
pub fn script_accepted(reply: &str) -> (b: bool)
    ensures
        b == names_a_script(last_word(reply@)),
{
    let words = split_at(&trimmed(&chars_of(reply)), ' ');
    let word = &words[words.len() - 1];
    assert(char_views(words@).last() == word@);
    if let Some(n) = parse_usize(word) {
        if n <= i32::MAX as usize {
            return true;
        }
    }
    if word.len() > 1 && word[0] == '-' {
        let rest = slice_of(word, 1, word.len());
        assert(rest@ =~= word@.skip(1));
        if rest[0] == '+' {
            assert(!is_digit(word@.skip(1)[0]));
            return false;
        }
        if let Some(n) = parse_usize(&rest) {
            return n == 0;
        }
        assert(!(all_digits(rest@) && digits_value(rest@) == 0));
    }
    false
}

/// What is said of a class is what the first entry says that names it, whatever the case; where
/// no entry does, or the window has no class, nothing is said.
pub proof fn law_the_first_entry_counts(list: Seq<(Seq<char>, bool)>, class: Seq<char>, i: int)
    ensures
        (class.len() > 0 && 0 <= i < list.len() && same_ignoring_case(list[i].0, class)
            && forall|j: int|
            0 <= j < i ==> !same_ignoring_case((#[trigger] list[j]).0, class)) ==> entry_for(
            list,
            class,
        ) == Some(list[i].1),
        class.len() == 0 || (forall|j: int|
            0 <= j < list.len() ==> !same_ignoring_case((#[trigger] list[j]).0, class))
            ==> entry_for(list, class) is None,
    decreases list.len(),
{
    if list.len() > 0 && class.len() > 0 {
        let rest = list.drop_first();
        law_the_first_entry_counts(rest, class, i - 1);
        assert(forall|j: int| 0 <= j < rest.len() ==> #[trigger] rest[j] == list[j + 1]);
        if 0 < i < list.len() && forall|j: int|
            0 <= j < i ==> !same_ignoring_case((#[trigger] list[j]).0, class) {
            assert(!same_ignoring_case(list[0].0, class));
            assert forall|j: int| 0 <= j < i - 1 implies !same_ignoring_case(
                (#[trigger] rest[j]).0,
                class,
            ) by {
                assert(rest[j] == list[j + 1]);
            }
        }
        if forall|j: int| 0 <= j < list.len() ==> !same_ignoring_case((#[trigger] list[j]).0, class) {
            assert(!same_ignoring_case(list[0].0, class));
            assert forall|j: int| 0 <= j < rest.len() implies !same_ignoring_case(
                (#[trigger] rest[j]).0,
                class,
            ) by {
                assert(rest[j] == list[j + 1]);
            }
        }
    }
}

/// A class belongs to an application that it names, whatever the case, alone or with a hyphen
/// behind it; a longer word that merely begins so does not.
pub proof fn law_a_class_names_its_application(app: Seq<char>, class: Seq<char>)
    requires
        lower(app) == app,
    ensures
        is_class_of(class, app) <==> same_ignoring_case(class, app) || (class.len() > app.len()
            && class[app.len() as int] == '-' && same_ignoring_case(
            class.take(app.len() as int),
            app,
        )),
{
    reveal_strlit("-");
    let n = app.len() as int;
    let low = lower(class);
    assert(app + "-"@ =~= app.push('-'));
    if class.len() > n {
        assert(lower(class.take(n)) =~= low.take(n));
        assert(low[n] == '-' <==> class[n] == '-') by {
            assert(low[n] == crate::text::lower_char(class[n]));
        }
        if app.push('-').is_prefix_of(low) {
            assert(low.take(n) =~= app) by {
                assert forall|i: int| 0 <= i < n implies low[i] == app[i] by {
                    assert(app.push('-')[i] == low[i]);
                }
            }
            assert(app.push('-')[n] == low[n]);
        }
        if low.take(n) == app && low[n] == '-' {
            assert forall|i: int| 0 <= i < n + 1 implies app.push('-')[i] == low[i] by {
                if i < n {
                    assert(low.take(n)[i] == low[i]);
                }
            }
            assert(app.push('-') =~= low.take(n + 1));
            assert(app.push('-').is_prefix_of(low));
        }
    }
}

/// Without an entry a scroll freezes the pen over Krita and, where that is the default, over
/// everything else.
pub proof fn law_only_krita_freezes_of_itself(
    class: Seq<char>,
    overrides: Seq<(Seq<char>, bool)>,
)
    requires
        entry_for(overrides, trim(class)) is None,
    ensures
        freezes(class, overrides, true),
        freezes(class, overrides, false) <==> is_class_of(trim(class), "krita"@),
{
    assert(freezing_applications()[0] == "krita"@);
}

/// The drawing applications that are known take the pen where no entry says otherwise.
pub proof fn law_known_applications_draw(
    app: Seq<char>,
    class: Seq<char>,
    signal: Option<Signal>,
    overrides: Seq<(Seq<char>, bool)>,
)
    requires
        entry_for(overrides, trim(class)) is None,
        is_class_of(trim(class), app),
        app == "krita"@ || app == "blender"@ || app == "gimp"@ || app == "inkscape"@ || app
            == "mypaint"@ || app == "drawpile"@ || app == "xournalpp"@ || app == "aseprite"@ || app
            == "kolourpaint"@ || app == "openboard"@,
    ensures
        verdict(class, signal, overrides).0,
{
    let apps = pen_applications();
    assert(apps[0] == "krita"@ && apps[1] == "blender"@ && apps[2] == "gimp"@ && apps[3]
        == "inkscape"@ && apps[4] == "mypaint"@ && apps[5] == "drawpile"@ && apps[6]
        == "xournalpp"@ && apps[7] == "aseprite"@ && apps[8] == "kolourpaint"@ && apps[9]
        == "openboard"@);
}

/// Whether a text can stand as a field of a layout's line as it is.
pub open spec fn is_field(f: Seq<char>) -> bool {
    !f.contains('\t') && trim(f) == f
}

/// A line of a layout is read back field by field, in the order in which it was written: class,
/// process, place and size. One with fewer fields is no window.
pub proof fn law_a_layout_line_reads_back(row: RowView, few: Seq<Seq<char>>)
    requires
        is_field(row.class) && is_field(row.x) && is_field(row.y) && is_field(row.width)
            && is_field(row.height),
        few.len() < 6,
    ensures
        row_of(
            pieces(
                rejoined(
                    seq![row.class, decimal(row.pid as nat), row.x, row.y, row.width, row.height],
                    '\t',
                ),
                '\t',
            ),
        ) == Some(row),
        row_of(few) is None,
{
    let d = decimal(row.pid as nat);
    let fields = seq![row.class, d, row.x, row.y, row.width, row.height];
    lemma_decimal(row.pid as nat);
    if d.contains('\t') {
        let k = choose|k: int| 0 <= k < d.len() && d[k] == '\t';
        assert(is_digit(d[k]));
    }
    law_what_was_joined_comes_apart(fields, '\t');
    lemma_digit_plain(d[0]);
    lemma_digit_plain(d[d.len() - 1]);
    assert(trim(d) == d);
    lemma_decimal_parses(row.pid as nat, u32::MAX as nat);
}

/// The lines of a layout are read one by one, in order: a malformed one costs only itself.
pub proof fn law_a_malformed_line_costs_only_itself(a: Seq<Seq<char>>, b: Seq<Seq<char>>)
    ensures
        rows_of(a + b) == rows_of(a) + rows_of(b),
        a.len() == 1 ==> rows_of(a) == (match row_of(pieces(a[0], '\t')) {
            Some(row) => seq![row],
            None => Seq::<RowView>::empty(),
        }),
    decreases b.len(),
{
    if b.len() == 0 {
        assert(a + b =~= a);
        assert(rows_of(a) + rows_of(b) =~= rows_of(a));
    } else {
        law_a_malformed_line_costs_only_itself(a, b.drop_last());
        assert((a + b).drop_last() =~= a + b.drop_last());
        assert((a + b).last() == b.last());
        assert(rows_of(a + b) =~= rows_of(a) + rows_of(b));
    }
    if a.len() == 1 {
        assert(a.drop_last() =~= Seq::<Seq<char>>::empty());
        assert(rows_of(a.drop_last()) =~= Seq::<RowView>::empty());
        assert(rows_of(a) =~= (match row_of(pieces(a[0], '\t')) {
            Some(row) => seq![row],
            None => Seq::<RowView>::empty(),
        }));
    }
}

/// A reply accepts a script where it ends in a number that is not negative, and refuses it where
/// that number is negative.
pub proof fn law_a_negative_reply_is_a_refusal(n: nat)
    ensures
        n <= i32::MAX ==> names_a_script(decimal(n)),
        n > 0 ==> !names_a_script(seq!['-'] + decimal(n)),
        !names_a_script(Seq::empty()),
{
    lemma_decimal(n);
    let s = seq!['-'] + decimal(n);
    assert(s.skip(1) =~= decimal(n));
    assert(!is_digit(s[0]));
    if n <= i32::MAX {
        lemma_decimal_parses(n, i32::MAX as nat);
    }
}

} // verus!
