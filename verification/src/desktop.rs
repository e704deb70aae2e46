//! Desktop integration: what screens exist, and finding a device the compositor knows.
//!
//! Enumerating screens is a Wayland protocol, the same on every compositor. Mapping a tablet onto
//! a screen is a compositor setting, which KWin offers as a writable property of each input device
//! on the session bus.

use crate::daemon::service::{debug_text, quoted};
use crate::dict::{
    lemma_precedes_irreflexive, lemma_precedes_total, lemma_precedes_transitive, order, precedes,
    Order,
};
use crate::text::{
    chars_of, find_from, lemma_run_len_is, occurs, occurs_at, opt_view, owned, run_len, same_text,
    slice_of, string_of, views,
};
use vstd::multiset::Multiset;
use vstd::prelude::*;
use vstd::string::*;

verus! {

/// A screen, as the compositor lays it out, in logical pixels.
#[derive(Debug)]
pub struct Output {
    /// Connector name, as the compositor uses it — `DP-2`, `HDMI-A-1`.
    pub name: String,
    /// Human-readable, when the compositor offers one.
    pub description: Option<String>,
    pub x: i32,
    pub y: i32,
    pub width: i32,
    pub height: i32,
}

pub open spec fn fits(n: int) -> bool {
    i32::MIN <= n <= i32::MAX
}

/// Whether a point is on a screen. The far edges belong to the neighbouring screens.
pub open spec fn on_screen(o: Output, x: int, y: int) -> bool {
    o.x <= x < o.x + o.width && o.y <= y < o.y + o.height
}

impl Output {
    pub fn right_edge(&self) -> (r: i32)
        requires
            fits(self.x + self.width),
        ensures
            r == self.x + self.width,
    {
        self.x + self.width
    }

    pub fn bottom_edge(&self) -> (r: i32)
        requires
            fits(self.y + self.height),
        ensures
            r == self.y + self.height,
    {
        self.y + self.height
    }

    pub fn contains(&self, x: i32, y: i32) -> (b: bool)
        requires
            x >= self.x ==> fits(self.x + self.width),
            self.x <= x < self.x + self.width && y >= self.y ==> fits(self.y + self.height),
        ensures
            b == on_screen(*self, x as int, y as int),
    {
        x >= self.x && x < self.right_edge() && y >= self.y && y < self.bottom_edge()
    }
}

/// Screens side by side tile: no point is on both, and none between them is on neither.
pub proof fn law_adjacent_screens_tile(left: Output, right: Output, x: int, y: int)
    requires
        left.x + left.width == right.x,
    ensures
        !(on_screen(left, x, y) && on_screen(right, x, y)),
        left.x <= x < right.x + right.width && left.y <= y < left.y + left.height && right.y <= y
            < right.y + right.height && left.width >= 0 && right.width >= 0 ==> on_screen(
            left,
            x,
            y,
        ) || on_screen(right, x, y),
{
}

/// What can go wrong between here and the desktop.
#[derive(Debug)]
pub enum Error {
    NoWayland,
    Wayland(String),
    Bus(String),
    NoSuchDevice(String),
    Unsupported,
}

/// What an error says.
pub open spec fn error_message(e: Error) -> Seq<char> {
    match e {
        Error::NoWayland => "not running under Wayland (WAYLAND_DISPLAY is unset)"@,
        Error::Wayland(why) => "could not talk to the Wayland compositor: "@ + why@,
        Error::Bus(why) => "could not reach the session bus: "@ + why@,
        Error::NoSuchDevice(name) => "no input device named "@ + debug_text(name@)
            + " is known to the compositor"@,
        Error::Unsupported =>
            "this desktop does not support mapping a tablet to a screen from outside its settings"@,
    }
}

impl Error {
    /// What the error says.
    pub fn message(&self) -> (s: String)
        ensures
            s@ == error_message(*self),
    {
        match self {
            Error::NoWayland => owned("not running under Wayland (WAYLAND_DISPLAY is unset)"),
            Error::Wayland(why) => owned("could not talk to the Wayland compositor: ").concat(
                why.as_str(),
            ),
            Error::Bus(why) => owned("could not reach the session bus: ").concat(why.as_str()),
            Error::NoSuchDevice(name) => owned("no input device named ").concat(
                quoted(name.as_str()).as_str(),
            ).concat(" is known to the compositor"),
            Error::Unsupported => owned(
                "this desktop does not support mapping a tablet to a screen from outside its settings",
            ),
        }
    }
}

/// The number of characters before `needle` first stands in `s`, or all of them.
pub open spec fn until(s: Seq<char>, needle: Seq<char>) -> nat
    decreases s.len(),
{
    if s.len() == 0 || occurs_at(needle, s, 0) {
        0
    } else {
        1 + until(s.drop_first(), needle)
    }
}

/// The chunks of `s` that stand behind an occurrence of `needle`, each up to the next one.
pub open spec fn chunks_behind(s: Seq<char>, needle: Seq<char>) -> Seq<Seq<char>>
    decreases s.len(),
{
    if needle.len() == 0 || until(s, needle) + needle.len() > s.len() {
        seq![]
    } else {
        let rest = s.skip((until(s, needle) + needle.len()) as int);
        seq![rest.take(until(rest, needle) as int)] + chunks_behind(rest, needle)
    }
}

/// What stands before the quote in each chunk that has one.
pub open spec fn quoted_heads(chunks: Seq<Seq<char>>) -> Seq<Seq<char>>
    decreases chunks.len(),
{
    if chunks.len() == 0 {
        seq![]
    } else {
        let rest = quoted_heads(chunks.drop_first());
        let n = run_len(chunks[0], '"');
        if n < chunks[0].len() {
            seq![chunks[0].take(n as int)] + rest
        } else {
            rest
        }
    }
}

/// The names of the child nodes that introspection XML lists.
pub open spec fn node_names(xml: Seq<char>) -> Seq<Seq<char>> {
    quoted_heads(chunks_behind(xml, "<node name=\""@))
}

proof fn lemma_until_is(s: Seq<char>, needle: Seq<char>, n: int)
    requires
        0 <= n <= s.len(),
        needle.len() > 0,
        forall|i: int| 0 <= i < n ==> !occurs_at(needle, s, i),
        n < s.len() ==> occurs_at(needle, s, n),
    ensures
        until(s, needle) == n,
    decreases s.len(),
{
    if n > 0 {
        assert(!occurs_at(needle, s, 0));
        let t = s.drop_first();
        assert forall|i: int| 0 <= i < n - 1 implies !occurs_at(needle, t, i) by {
            if occurs_at(needle, t, i) {
                assert(t.subrange(i, i + needle.len()) =~= s.subrange(i + 1, i + 1 + needle.len()));
                assert(occurs_at(needle, s, i + 1));
            }
        }
        if n < s.len() {
            assert(t.subrange(n - 1, n - 1 + needle.len()) =~= s.subrange(n, n + needle.len()));
            assert(occurs_at(needle, t, n - 1));
        }
        lemma_until_is(t, needle, n - 1);
    }
}

/// The number of characters from `from` on before `needle` first stands, or all of them.
fn distance(v: &Vec<char>, needle: &Vec<char>, from: usize) -> (n: usize)
    requires
        from <= v@.len(),
        needle@.len() > 0,
    ensures
        n == until(v@.skip(from as int), needle@),
        from + n <= v@.len(),
        from + n < v@.len() ==> occurs_at(needle@, v@, from + n),
{
    let ghost rest = v@.skip(from as int);
    let found = find_from(needle, v, from);
    let n: usize = match found {
        Some(at) => at - from,
        None => v.len() - from,
    };
    proof {
        assert forall|i: int| 0 <= i < n implies !occurs_at(needle@, rest, i) by {
            if occurs_at(needle@, rest, i) {
                assert(rest.subrange(i, i + needle@.len()) =~= v@.subrange(
                    from + i,
                    from + i + needle@.len(),
                ));
                assert(occurs_at(needle@, v@, from + i));
            }
        }
        if n < rest.len() {
            assert(rest.subrange(n as int, n + needle@.len()) =~= v@.subrange(
                from + n,
                from + n + needle@.len(),
            ));
            assert(occurs_at(needle@, rest, n as int));
        }
        lemma_until_is(rest, needle@, n as int);
    }
    n
}

/// The number of characters before a quote in `v[from..to]`, or all of them.
fn quote_at(v: &Vec<char>, from: usize, to: usize) -> (n: usize)
    requires
        from <= to <= v@.len(),
    ensures
        n == run_len(v@.subrange(from as int, to as int), '"'),
        n <= to - from,
{
    let ghost s = v@.subrange(from as int, to as int);
    let mut n: usize = 0;
    while n < to - from && v[from + n] != '"'
        invariant
            from <= to <= v@.len(),
            n <= to - from,
            s == v@.subrange(from as int, to as int),
            forall|i: int| 0 <= i < n ==> #[trigger] s[i] != '"',
        decreases to - from - n,
    {
        n += 1;
    }
    proof {
        lemma_run_len_is(s, '"', n as int);
    }
    n
}

/// The names of the child nodes that introspection XML lists.
///
/// A scan for one attribute: the shape is fixed and produced by the bus itself, not by a user.
pub fn children(xml: &str) -> (r: Vec<String>)
    ensures
        views(r@) == node_names(xml@),
{
    let v = chars_of(xml);
    let needle = chars_of("<node name=\"");
    proof {
        reveal_strlit("<node name=\"");
        assert(needle@.len() == 12);
    }
    let mut r: Vec<String> = Vec::new();
    let mut at: usize = 0;
    proof {
        assert(v@.skip(0) =~= v@);
        assert(views(r@) + node_names(v@) =~= node_names(v@));
    }
    loop
        invariant
            at <= v@.len(),
            needle@.len() == 12,
            needle@ == "<node name=\""@,
            views(r@) + quoted_heads(chunks_behind(v@.skip(at as int), needle@)) == node_names(v@),
        ensures
            views(r@) == node_names(v@),
        decreases v@.len() - at,
    {
        let ghost rest = v@.skip(at as int);
        let n: usize = distance(&v, &needle, at);
        if n >= v.len() - at {
            assert(views(r@) + Seq::<Seq<char>>::empty() =~= views(r@));
            assert(quoted_heads(Seq::<Seq<char>>::empty()) =~= Seq::<Seq<char>>::empty());
            break;
        }
        let from: usize = at + n + needle.len();
        let len: usize = distance(&v, &needle, from);
        let quote: usize = quote_at(&v, from, from + len);
        let ghost before = views(r@);
        if quote < len {
            let name = slice_of(&v, from, from + quote);
            r.push(string_of(&name));
        }
        proof {
            let behind = v@.skip(from as int);
            assert(rest.skip((until(rest, needle@) + needle@.len()) as int) =~= behind);
            let chunk = behind.take(len as int);
            assert(chunk =~= v@.subrange(from as int, from + len));
            let more = chunks_behind(behind, needle@);
            let all = seq![chunk] + more;
            assert(chunks_behind(rest, needle@) == all);
            assert(all.drop_first() =~= more);
            if quote < len {
                assert(chunk.take(quote as int) =~= v@.subrange(from as int, from + quote));
                assert(views(r@) =~= before.push(chunk.take(quote as int)));
                assert(before + (seq![chunk.take(quote as int)] + quoted_heads(more)) =~= views(r@)
                    + quoted_heads(more));
            } else {
                assert(views(r@) =~= before);
            }
        }
        at = from;
    }
    r
}

/// The first object whose name is the one that is looked for. An object that could not be asked
/// is passed over.
pub open spec fn first_named(objects: Seq<(String, Option<String>)>, device: Seq<char>) -> Option<
    int,
>
    decreases objects.len(),
{
    if objects.len() == 0 {
        None
    } else {
        match first_named(objects.drop_last(), device) {
            Some(i) => Some(i),
            None => if opt_view(objects.last().1) == Some(device) {
                Some(objects.len() - 1)
            } else {
                None
            },
        }
    }
}

/// The compositor's object for a device, by the name it was given, from the objects and the name
/// each answered with. A device can disappear between listing and asking, so one that did not
/// answer is skipped rather than failing the whole search.
pub fn find_device(objects: &Vec<(String, Option<String>)>, device: &str) -> (r: Result<
    String,
    Error,
>)
    ensures
        match first_named(objects@, device@) {
            Some(i) => r matches Ok(s) && s@ == objects@[i].0@,
            None => r matches Err(Error::NoSuchDevice(name)) && name@ == device@,
        },
{
    let mut i: usize = 0;
    assert(objects@.take(0) =~= Seq::<(String, Option<String>)>::empty());
    while i < objects.len()
        invariant
            i <= objects.len(),
            first_named(objects@.take(i as int), device@) is None,
        decreases objects.len() - i,
    {
        proof {
            let now = objects@.take(i + 1);
            assert(now.drop_last() =~= objects@.take(i as int));
            assert(now.last() == objects@[i as int]);
        }
        if let Some(name) = &objects[i].1 {
            if same_text(name.as_str(), device) {
                proof {
                    lemma_first_named_stays(objects@, device@, i + 1);
                }
                return Ok(owned(objects[i].0.as_str()));
            }
        }
        i += 1;
    }
    assert(objects@.take(i as int) =~= objects@);
    Err(Error::NoSuchDevice(owned(device)))
}

proof fn lemma_first_named_stays(objects: Seq<(String, Option<String>)>, device: Seq<char>, n: int)
    requires
        0 <= n <= objects.len(),
        first_named(objects.take(n), device) is Some,
    ensures
        first_named(objects, device) == first_named(objects.take(n), device),
    decreases objects.len(),
{
    if n < objects.len() {
        assert(objects.drop_last().take(n) =~= objects.take(n));
        lemma_first_named_stays(objects.drop_last(), device, n);
    } else {
        assert(objects.take(n) =~= objects);
    }
}

/// The bus path of an input device.
pub fn device_path(sys_name: &str) -> (r: String)
    ensures
        r@ == "/org/kde/KWin/InputDevice"@ + "/"@ + sys_name@,
{
    owned("/org/kde/KWin/InputDevice").concat("/").concat(sys_name)
}

/// Which screen a device is confined to. An empty name means the whole desktop.
pub fn mapped_output(name: &str) -> (r: Option<String>)
    ensures
        opt_view(r) == if name@.len() == 0 {
            None
        } else {
            Some(name@)
        },
{
    if name.unicode_len() == 0 {
        None
    } else {
        Some(owned(name))
    }
}

/// What has arrived about a screen so far. Name and geometry come in different events.
#[derive(Debug)]
pub struct Partial {
    pub name: Option<String>,
    pub description: Option<String>,
    pub x: i32,
    pub y: i32,
    pub width: i32,
    pub height: i32,
    /// Set once the screen's events are complete.
    pub complete: bool,
}

/// An event about a screen.
#[derive(Debug)]
pub enum OutputEvent {
    Geometry(i32, i32),
    /// One of its modes, and whether that is the current one.
    Mode(bool, i32, i32),
    Name(String),
    Description(String),
    Done,
    Other,
}

/// A screen after an event. Several modes are advertised; only the current one describes the
/// layout.
pub open spec fn told(p: Partial, e: OutputEvent) -> Partial {
    match e {
        OutputEvent::Geometry(x, y) => Partial { x, y, ..p },
        OutputEvent::Mode(true, width, height) => Partial { width, height, ..p },
        OutputEvent::Mode(false, _, _) => p,
        OutputEvent::Name(name) => Partial { name: Some(name), ..p },
        OutputEvent::Description(d) => Partial { description: Some(d), ..p },
        OutputEvent::Done => Partial { complete: true, ..p },
        OutputEvent::Other => p,
    }
}

impl Partial {
    pub fn new() -> (r: Self)
        ensures
            r == (Partial {
                name: None,
                description: None,
                x: 0,
                y: 0,
                width: 0,
                height: 0,
                complete: false,
            }),
    {
        Partial {
            name: None,
            description: None,
            x: 0,
            y: 0,
            width: 0,
            height: 0,
            complete: false,
        }
    }

    /// Take in an event.
    pub fn tell(&mut self, e: OutputEvent)
        ensures
            *final(self) == told(*old(self), e),
    {
        match e {
            OutputEvent::Geometry(x, y) => {
                self.x = x;
                self.y = y;
            },
            OutputEvent::Mode(current, width, height) => {
                if current {
                    self.width = width;
                    self.height = height;
                }
            },
            OutputEvent::Name(name) => {
                self.name = Some(name);
            },
            OutputEvent::Description(d) => {
                self.description = Some(d);
            },
            OutputEvent::Done => {
                self.complete = true;
            },
            OutputEvent::Other => {},
        }
    }
}

/// Whether the compositor has finished describing a screen. A half-built one would place a tablet
/// on a rectangle that does not exist.
pub open spec fn described(p: Partial) -> bool {
    p.complete && p.width > 0 && p.height > 0 && p.name is Some
}

/// The screen that a complete description stands for.
pub open spec fn output_of(p: Partial) -> Output {
    Output {
        name: p.name->0,
        description: p.description,
        x: p.x,
        y: p.y,
        width: p.width,
        height: p.height,
    }
}

/// The screens that are described, in the order in which they came.
pub open spec fn described_outputs(parts: Seq<Partial>) -> Seq<Output>
    decreases parts.len(),
{
    if parts.len() == 0 {
        seq![]
    } else {
        let rest = described_outputs(parts.drop_last());
        if described(parts.last()) {
            rest.push(output_of(parts.last()))
        } else {
            rest
        }
    }
}

/// Whether a screen comes before another: left to right, then top to bottom, then by name.
pub open spec fn before(a: Output, b: Output) -> bool {
    a.x < b.x || a.x == b.x && (a.y < b.y || a.y == b.y && precedes(a.name@, b.name@))
}

/// Whether no screen comes before an earlier one.
pub open spec fn in_order(s: Seq<Output>) -> bool {
    forall|i: int, j: int| 0 <= i < j < s.len() ==> !before(#[trigger] s[j], #[trigger] s[i])
}

proof fn lemma_before(a: Output, b: Output, c: Output)
    ensures
        !before(a, a),
        before(a, b) && before(b, c) ==> before(a, c),
        before(a, b) ==> !before(b, a),
        !before(b, a) && !before(c, b) ==> !before(c, a),
{
    lemma_precedes_irreflexive(a.name@);
    lemma_precedes_irreflexive(b.name@);
    lemma_precedes_irreflexive(c.name@);
    if precedes(a.name@, b.name@) && precedes(b.name@, c.name@) {
        lemma_precedes_transitive(a.name@, b.name@, c.name@);
    }
    if precedes(a.name@, b.name@) && precedes(b.name@, a.name@) {
        lemma_precedes_transitive(a.name@, b.name@, a.name@);
    }
    lemma_precedes_total(a.name@, b.name@);
    lemma_precedes_total(b.name@, c.name@);
    lemma_precedes_total(a.name@, c.name@);
    if precedes(c.name@, a.name@) && precedes(a.name@, b.name@) {
        lemma_precedes_transitive(c.name@, a.name@, b.name@);
    }
    if precedes(b.name@, c.name@) && precedes(c.name@, a.name@) {
        lemma_precedes_transitive(b.name@, c.name@, a.name@);
    }
}

fn comes_before(a: &Output, b: &Output) -> (r: bool)
    ensures
        r == before(*a, *b),
{
    if a.x != b.x {
        return a.x < b.x;
    }
    if a.y != b.y {
        return a.y < b.y;
    }
    proof {
        lemma_precedes_irreflexive(a.name@);
    }
    match order(a.name.as_str(), b.name.as_str()) {
        Order::Below => true,
        Order::Equal => false,
        Order::Above => false,
    }
}

/// Put a screen behind every one that does not come after it.
fn place(sorted: &mut Vec<Output>, o: Output)
    requires
        in_order(old(sorted)@),
    ensures
        in_order(final(sorted)@),
        final(sorted)@.to_multiset() == old(sorted)@.to_multiset().insert(o),
{
    let ghost was = sorted@;
    let mut i: usize = sorted.len();
    while i > 0 && comes_before(&o, &sorted[i - 1])
        invariant
            i <= sorted@.len(),
            sorted@ == was,
            forall|k: int| i <= k < was.len() ==> before(o, #[trigger] was[k]),
        decreases i,
    {
        i -= 1;
    }
    sorted.insert(i, o);
    proof {
        let now = sorted@;
        assert(now =~= was.insert(i as int, o));
        assert(now.remove(i as int) =~= was);
        now.to_multiset_ensures();
        assert(now.contains(o)) by {
            assert(now[i as int] == o);
        }
        assert(now.to_multiset() =~= now.to_multiset().remove(o).insert(o));
        assert forall|a: int, b: int| 0 <= a < b < now.len() implies !before(
            #[trigger] now[b],
            #[trigger] now[a],
        ) by {
            let x = if a < i {
                was[a]
            } else if a == i {
                o
            } else {
                was[a - 1]
            };
            let y = if b < i {
                was[b]
            } else if b == i {
                o
            } else {
                was[b - 1]
            };
            assert(now[a] == x && now[b] == y);
            if a == i {
                assert(before(o, was[b - 1]));
                lemma_before(o, was[b - 1], o);
            } else if b == i {
                // `o` does not come before the one at `i - 1`, nor that before any earlier one.
                assert(!before(o, was[i - 1]));
                if a < i - 1 {
                    assert(!before(was[i - 1], was[a]));
                    lemma_before(was[a], was[i - 1], o);
                }
            }
        }
    }
}

/// Every screen that the compositor has finished describing, left to right, then top to bottom: a
/// stable order, so that nothing derived from it reshuffles between runs.
pub fn outputs(parts: Vec<Partial>) -> (r: Vec<Output>)
    ensures
        in_order(r@),
        r@.to_multiset() == described_outputs(parts@).to_multiset(),
{
    let ghost all = parts@;
    let mut parts = parts;
    let mut sorted: Vec<Output> = Vec::new();
    proof {
        sorted@.to_multiset_ensures();
        assert(sorted@.to_multiset() =~= Multiset::empty());
        assert(described_outputs(all).to_multiset() =~= described_outputs(parts@).to_multiset().add(
            sorted@.to_multiset(),
        ));
    }
    while parts.len() > 0
        invariant
            in_order(sorted@),
            described_outputs(all).to_multiset() == described_outputs(parts@).to_multiset().add(
                sorted@.to_multiset(),
            ),
        decreases parts@.len(),
    {
        let ghost rest = parts@;
        let ghost was = sorted@.to_multiset();
        if let Some(p) = parts.pop() {
            proof {
                assert(parts@ =~= rest.drop_last());
                described_outputs(parts@).to_multiset_ensures();
            }
            if p.complete && p.width > 0 && p.height > 0 {
                if let Some(name) = p.name {
                    let o = Output {
                        name,
                        description: p.description,
                        x: p.x,
                        y: p.y,
                        width: p.width,
                        height: p.height,
                    };
                    assert(o == output_of(rest.last()));
                    place(&mut sorted, o);
                    assert(described_outputs(rest).to_multiset().add(was) =~= described_outputs(
                        parts@,
                    ).to_multiset().add(sorted@.to_multiset()));
                }
            }
        }
    }
    proof {
        described_outputs(parts@).to_multiset_ensures();
        assert(described_outputs(parts@).to_multiset() =~= Multiset::empty());
        assert(described_outputs(all).to_multiset() =~= sorted@.to_multiset());
    }
    sorted
}

/// Where no two screens share position and name, the order in which they were described does not
/// show.
pub proof fn law_the_order_is_stable(a: Seq<Output>, b: Seq<Output>)
    requires
        in_order(a),
        in_order(b),
        a.to_multiset() == b.to_multiset(),
        forall|i: int, j: int|
            0 <= i < a.len() && 0 <= j < a.len() && i != j ==> before(
                #[trigger] a[i],
                #[trigger] a[j],
            ) || before(a[j], a[i]),
    ensures
        a == b,
    decreases a.len(),
{
    a.to_multiset_ensures();
    b.to_multiset_ensures();
    assert(a.len() == b.len());
    if a.len() == 0 {
        assert(a =~= b);
    } else {
        let x = a.last();
        let y = b.last();
        assert(a.to_multiset().contains(x));
        assert(b.contains(x));
        assert(b.to_multiset().contains(y));
        assert(a.contains(y));
        if x != y {
            let i = choose|i: int| 0 <= i < a.len() && a[i] == y;
            let j = choose|j: int| 0 <= j < b.len() && b[j] == x;
            // In `a` nothing comes after `x`, and in `b` nothing after `y`.
            assert(!before(a[a.len() - 1], a[i]));
            assert(before(a[i], a[a.len() - 1]));
            assert(!before(b[b.len() - 1], b[j]));
            assert(false);
        }
        let s = a.drop_last();
        let t = b.drop_last();
        assert(a =~= s.push(x));
        assert(b =~= t.push(x));
        s.to_multiset_ensures();
        t.to_multiset_ensures();
        assert(s.to_multiset().insert(x) == t.to_multiset().insert(x));
        assert(s.to_multiset() =~= s.to_multiset().insert(x).remove(x));
        assert(t.to_multiset() =~= t.to_multiset().insert(x).remove(x));
        assert forall|i: int, j: int| 0 <= i < s.len() && 0 <= j < s.len() && i != j implies before(
            #[trigger] s[i],
            #[trigger] s[j],
        ) || before(s[j], s[i]) by {
            assert(s[i] == a[i] && s[j] == a[j]);
        }
        assert forall|i: int, j: int| 0 <= i < j < s.len() implies !before(
            #[trigger] s[j],
            #[trigger] s[i],
        ) by {
            assert(s[i] == a[i] && s[j] == a[j]);
        }
        assert forall|i: int, j: int| 0 <= i < j < t.len() implies !before(
            #[trigger] t[j],
            #[trigger] t[i],
        ) by {
            assert(t[i] == b[i] && t[j] == b[j]);
        }
        law_the_order_is_stable(s, t);
    }
}

/// An event changes what it is about and nothing else: the place, the size where the mode is the
/// current one, the name, the description, or that the description is complete.
pub proof fn law_an_event_changes_what_it_is_about(
    p: Partial,
    a: i32,
    b: i32,
    s: String,
)
    ensures
        told(p, OutputEvent::Geometry(a, b)).x == a && told(p, OutputEvent::Geometry(a, b)).y == b,
        told(p, OutputEvent::Geometry(a, b)).width == p.width && told(
            p,
            OutputEvent::Geometry(a, b),
        ).height == p.height,
        told(p, OutputEvent::Mode(true, a, b)).width == a && told(
            p,
            OutputEvent::Mode(true, a, b),
        ).height == b,
        told(p, OutputEvent::Mode(true, a, b)).x == p.x && told(
            p,
            OutputEvent::Mode(true, a, b),
        ).y == p.y,
        told(p, OutputEvent::Mode(false, a, b)) == p,
        told(p, OutputEvent::Name(s)).name == Some(s),
        told(p, OutputEvent::Name(s)).description == p.description,
        told(p, OutputEvent::Description(s)).description == Some(s),
        told(p, OutputEvent::Description(s)).name == p.name,
        told(p, OutputEvent::Done).complete,
        told(p, OutputEvent::Other) == p,
        described(told(p, OutputEvent::Done)) <==> p.width > 0 && p.height > 0 && p.name is Some,
{
}

/// A screen is what was described: its place, its size and its name are those of the description.
/// A description counts once it is complete, has a size and a name.
pub proof fn law_a_screen_is_what_was_described(p: Partial)
    requires
        p.name is Some,
    ensures
        output_of(p).x == p.x,
        output_of(p).y == p.y,
        output_of(p).width == p.width,
        output_of(p).height == p.height,
        output_of(p).name == p.name->0,
        output_of(p).description == p.description,
        described(p) <==> p.complete && p.width >= 1 && p.height >= 1,
{
}

/// Every complete description gives a screen, in order, and no other does.
pub proof fn law_every_description_gives_a_screen(parts: Seq<Partial>)
    ensures
        described_outputs(parts) == parts.filter(|p: Partial| described(p)).map_values(
            |p: Partial| output_of(p),
        ),
    decreases parts.len(),
{
    reveal(Seq::filter);
    let whole = |p: Partial| described(p);
    let screen = |p: Partial| output_of(p);
    if parts.len() > 0 {
        let rest = parts.drop_last();
        law_every_description_gives_a_screen(rest);
        if whole(parts.last()) {
            assert(parts.filter(whole).map_values(screen) =~= rest.filter(whole).map_values(
                screen,
            ).push(screen(parts.last())));
        } else {
            assert(parts.filter(whole) == rest.filter(whole));
        }
    } else {
        assert(parts.filter(whole).map_values(screen) =~= Seq::<Output>::empty());
    }
}

/// Screens go from left to right, those in one column from top to bottom, and those in one place
/// by name.
pub proof fn law_screens_go_from_left_to_right(a: Output, b: Output)
    ensures
        a.x < b.x ==> before(a, b) && !before(b, a),
        a.x == b.x && a.y < b.y ==> before(a, b) && !before(b, a),
        a.x == b.x && a.y == b.y ==> (before(a, b) <==> precedes(a.name@, b.name@)),
{
}

/// A screen has its near edges and not its far ones.
pub proof fn law_a_screen_has_its_near_edges(o: Output, x: int, y: int)
    requires
        o.width > 0,
        o.height > 0,
    ensures
        on_screen(o, o.x as int, o.y as int),
        on_screen(o, o.x + o.width - 1, o.y + o.height - 1),
        !on_screen(o, o.x + o.width, y),
        !on_screen(o, x, o.y + o.height),
        !on_screen(o, o.x - 1, y),
        !on_screen(o, x, o.y - 1),
{
}

/// A device is found by the name it answered with: the first object of that name counts, and one
/// that did not answer is passed over.
pub proof fn law_the_first_object_of_a_name_counts(
    objects: Seq<(String, Option<String>)>,
    device: Seq<char>,
)
    ensures
        first_named(objects, device) matches Some(i) ==> 0 <= i < objects.len() && opt_view(
            objects[i].1,
        ) == Some(device) && forall|j: int|
            0 <= j < i ==> opt_view((#[trigger] objects[j]).1) != Some(device),
        first_named(objects, device) is None <==> forall|j: int|
            0 <= j < objects.len() ==> opt_view((#[trigger] objects[j]).1) != Some(device),
    decreases objects.len(),
{
    if objects.len() > 0 {
        let rest = objects.drop_last();
        law_the_first_object_of_a_name_counts(rest, device);
        assert(forall|j: int| 0 <= j < rest.len() ==> #[trigger] rest[j] == objects[j]);
        if first_named(rest, device) is None {
            assert forall|j: int| 0 <= j < rest.len() implies opt_view((#[trigger] objects[j]).1)
                != Some(device) by {
                assert(rest[j] == objects[j]);
            }
        } else {
            let i = first_named(rest, device)->0;
            assert(objects[i] == rest[i]);
            assert forall|j: int| 0 <= j < i implies opt_view((#[trigger] objects[j]).1) != Some(
                device,
            ) by {
                assert(rest[j] == objects[j]);
            }
        }
    }
}

/// A text without the opening of a child node lists no child, and a child that is opened is listed
/// under its name, before the children that follow it.
pub proof fn law_a_child_node_is_listed_by_its_name(name: Seq<char>, rest: Seq<char>)
    requires
        !name.contains('"'),
        !name.contains('<'),
    ensures
        node_names("<node name=\""@ + name + seq!['"'] + rest) == seq![name] + node_names(rest),
        !occurs("<node name=\""@, rest) ==> node_names(rest).len() == 0,
{
    reveal_strlit("<node name=\"");
    let needle = "<node name=\""@;
    let s = needle + name + seq!['"'] + rest;
    let t = name + seq!['"'] + rest;
    assert(needle.len() == 12 && needle[0] == '<');
    assert(s.subrange(0, 12) =~= needle);
    assert(occurs_at(needle, s, 0));
    assert(until(s, needle) == 0);
    assert(s.skip(12) =~= t);
    // The opening begins with a bracket, of which there is none before what follows the name.
    let k = name.len() + 1;
    let m = k + until(rest, needle);
    lemma_until(rest, needle);
    assert forall|i: int| 0 <= i < m implies !occurs_at(needle, t, i) by {
        if occurs_at(needle, t, i) {
            assert(t.subrange(i, i + 12)[0] == t[i]);
            if i < name.len() {
                assert(t[i] == name[i]);
                assert(name.contains(name[i]));
            } else if i >= k {
                assert(rest.subrange(i - k, i - k + 12) =~= t.subrange(i, i + 12));
                assert(occurs_at(needle, rest, i - k));
            }
        }
    }
    if m < t.len() {
        assert(occurs_at(needle, rest, m - k));
        assert(t.subrange(m as int, (m + 12) as int) =~= rest.subrange(m - k, m - k + 12));
        assert(occurs_at(needle, t, m as int));
    }
    lemma_until_is(t, needle, m as int);
    let chunk = t.take(m as int);
    assert forall|i: int| 0 <= i < name.len() implies #[trigger] chunk[i] != '"' by {
        assert(chunk[i] == name[i]);
        assert(name.contains(name[i]));
    }
    assert(chunk[name.len() as int] == '"');
    crate::text::lemma_run_len_is(chunk, '"', name.len() as int);
    assert(chunk.take(name.len() as int) =~= name);
    if m < t.len() {
        assert(t.skip((m + 12) as int) =~= rest.skip((until(rest, needle) + 12) as int));
    }
    assert(chunks_behind(t, needle) == chunks_behind(rest, needle));
    let all = chunks_behind(s, needle);
    assert(all =~= seq![chunk] + chunks_behind(rest, needle));
    assert(all.drop_first() =~= chunks_behind(rest, needle));
    assert(all[0] == chunk);
    assert(node_names(s) =~= seq![name] + node_names(rest));
    if !occurs(needle, rest) {
        if until(rest, needle) < rest.len() {
            assert(occurs_at(needle, rest, until(rest, needle) as int));
        }
    }
}

proof fn lemma_until(s: Seq<char>, needle: Seq<char>)
    requires
        needle.len() > 0,
    ensures
        until(s, needle) <= s.len(),
        forall|i: int| 0 <= i < until(s, needle) ==> !occurs_at(needle, s, i),
        until(s, needle) < s.len() ==> occurs_at(needle, s, until(s, needle) as int),
    decreases s.len(),
{
    if s.len() > 0 && !occurs_at(needle, s, 0) {
        let t = s.drop_first();
        lemma_until(t, needle);
        assert forall|i: int| 0 <= i < until(s, needle) implies !occurs_at(needle, s, i) by {
            if i > 0 && occurs_at(needle, s, i) {
                assert(t.subrange(i - 1, i - 1 + needle.len()) =~= s.subrange(i, i + needle.len()));
                assert(occurs_at(needle, t, i - 1));
            }
        }
        if until(s, needle) < s.len() {
            let u = until(t, needle) as int;
            assert(occurs_at(needle, t, u));
            assert(t.subrange(u, u + needle.len()) =~= s.subrange(u + 1, u + 1 + needle.len()));
        }
    }
}

} // verus!
