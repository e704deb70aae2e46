//! Asking a process how it talks to the display.
//!
//! The answer comes from the files it has mapped: the name of a mapped library is visible even
//! when the file itself is not openable from outside a sandbox.

use crate::daemon::focus::Signal;
use crate::dict::Dict;
use crate::text::{
    begins_with, char_views, chars_of, contains_text, ends_with, is_white, law_pieces_rejoin,
    law_what_was_joined_comes_apart, lemma_word_len_is, occurs, occurs_at, opt_view, owned,
    pieces, rejoined, same_text, slice_of, spells, split_at, string_of, trim_end, trim_start,
    views, white, without_lead, without_tail, word_len,
};
use vstd::prelude::*;
use vstd::string::*;

verus! {

/// The toolkit that a library's name gives away.
pub open spec fn toolkit_of(name: Seq<char>) -> Option<Signal> {
    if occurs("WaylandClient"@, name) {
        Some(Signal::QtWayland)
    } else if "libgdk-3"@.is_prefix_of(name) || "libgtk-4"@.is_prefix_of(name) {
        Some(Signal::Gtk)
    } else if "libSDL3"@.is_prefix_of(name) {
        Some(Signal::Sdl3)
    } else {
        None
    }
}

/// A library whose presence in the map decides the answer on its own.
///
/// Matched on the basename, not the path, so a Flatpak or Snap prefix does not hide the toolkit.
pub fn toolkit_signal(name: &Vec<char>) -> (r: Option<Signal>)
    ensures
        r == toolkit_of(name@),
{
    if contains_text(name, "WaylandClient") {
        // Only loaded when Qt runs its Wayland platform.
        return Some(Signal::QtWayland);
    }
    if begins_with(name, "libgdk-3") || begins_with(name, "libgtk-4") {
        return Some(Signal::Gtk);
    }
    if begins_with(name, "libSDL3") {
        return Some(Signal::Sdl3);
    }
    None
}

pub open spec fn is_scan_worthy(name: Seq<char>) -> bool {
    "libxul"@.is_prefix_of(name)
}

/// Files still worth a string search once no toolkit answered: those of applications that carry
/// their own Wayland code.
pub fn scan_worthy(name: &Vec<char>) -> (b: bool)
    ensures
        b == is_scan_worthy(name@),
{
    begins_with(name, "libxul")
}

pub open spec fn marks_chromium(name: Seq<char>) -> bool {
    ||| ".pak"@.is_suffix_of(name)
    ||| "v8_context_snapshot"@.is_prefix_of(name)
    ||| "snapshot_blob"@.is_prefix_of(name)
    ||| name == "icudtl.dat"@
    ||| name == "libcef.so"@
}

/// A mapped file that marks the process as Chromium-family.
///
/// Data files rather than libraries, because they are what every Chromium build maps under its
/// own name.
pub fn chromium_marker(name: &Vec<char>) -> (b: bool)
    ensures
        b == marks_chromium(name@),
{
    ends_with(name, ".pak") || begins_with(name, "v8_context_snapshot") || begins_with(
        name,
        "snapshot_blob",
    ) || spells(name, "icudtl.dat") || spells(name, "libcef.so")
}

/// What is left of a line after `n` fields and the white space behind each.
pub open spec fn after_fields(s: Seq<char>, n: nat) -> Option<Seq<char>>
    decreases n,
{
    if n == 0 {
        Some(s)
    } else if word_len(s) >= s.len() {
        None
    } else {
        after_fields(trim_start(s.skip(word_len(s) as int)), (n - 1) as nat)
    }
}

/// The path of a memory map's line: everything after its five fields.
pub open spec fn path_of(line: Seq<char>) -> Option<Seq<char>> {
    match after_fields(trim_start(line), 5) {
        Some(rest) => if trim_end(rest).len() > 0 {
            Some(trim_end(rest))
        } else {
            None
        },
        None => None,
    }
}

/// The pathname field of a `/proc/<pid>/maps` line, which may contain spaces.
///
/// Five fields precede it (address, permissions, offset, device, inode) and the rest of the line
/// is the path verbatim.
pub fn field_six(line: &Vec<char>) -> (r: Option<Vec<char>>)
    ensures
        r is Some <==> path_of(line@) is Some,
        r matches Some(p) ==> path_of(line@) == Some(p@),
{
    let mut rest = without_lead(line);
    let mut n: usize = 5;
    while n > 0
        invariant
            n <= 5,
            after_fields(rest@, n as nat) == after_fields(trim_start(line@), 5),
        decreases n,
    {
        let mut end: usize = 0;
        while end < rest.len() && !white(rest[end])
            invariant
                end <= rest.len(),
                forall|j: int| 0 <= j < end ==> !is_white(#[trigger] rest@[j]),
            decreases rest.len() - end,
        {
            end += 1;
        }
        proof {
            lemma_word_len_is(rest@, end as int);
        }
        if end >= rest.len() {
            return None;
        }
        let tail = slice_of(&rest, end, rest.len());
        assert(tail@ =~= rest@.skip(end as int));
        rest = without_lead(&tail);
        n -= 1;
    }
    let path = without_tail(&rest);
    if path.len() == 0 {
        None
    } else {
        Some(path)
    }
}

/// The paths of the files that a list of map lines names, in order.
pub open spec fn paths_of(lines: Seq<Seq<char>>) -> Seq<Seq<char>>
    decreases lines.len(),
{
    if lines.len() == 0 {
        seq![]
    } else {
        let rest = paths_of(lines.drop_last());
        match path_of(lines.last()) {
            Some(p) => if p[0] == '/' {
                rest.push(p)
            } else {
                rest
            },
            None => rest,
        }
    }
}

/// The paths of the files that a memory map names, in order.
pub open spec fn mapped(maps: Seq<char>) -> Seq<Seq<char>> {
    paths_of(pieces(maps, '\n'))
}

/// The last component of a path.
pub open spec fn base_name(path: Seq<char>) -> Seq<char> {
    pieces(path, '/').last()
}

/// Whether some path's basename is one that `p` picks.
pub open spec fn some_name(paths: Seq<Seq<char>>, p: spec_fn(Seq<char>) -> bool) -> bool {
    exists|i: int| 0 <= i < paths.len() && p(base_name(#[trigger] paths[i]))
}

/// The paths worth a string search, each once, in order.
pub open spec fn scan_list(paths: Seq<Seq<char>>) -> Seq<Seq<char>>
    decreases paths.len(),
{
    if paths.len() == 0 {
        seq![]
    } else {
        let rest = scan_list(paths.drop_last());
        if is_scan_worthy(base_name(paths.last())) && !rest.contains(paths.last()) {
            rest.push(paths.last())
        } else {
            rest
        }
    }
}

/// What one pass over a memory map established.
#[derive(Debug)]
pub struct Classified {
    /// Whether `libwayland-client` is mapped at all. Its absence is conclusive: the process
    /// cannot be speaking Wayland. Its presence proves little on its own.
    pub uses_wayland: bool,
    /// Whether a Chromium-family marker is mapped. Must be consulted **before** `toolkit`.
    pub chromium: bool,
    /// The strongest toolkit found, Qt preferred over GTK over SDL3, so the verdict does not
    /// depend on map order.
    pub toolkit: Option<Signal>,
    /// Libraries still worth a string search if no toolkit answered.
    pub scan: Vec<String>,
}

/// The strongest toolkit among the mapped files.
pub open spec fn strongest(paths: Seq<Seq<char>>) -> Option<Signal> {
    if some_name(paths, |n: Seq<char>| toolkit_of(n) == Some(Signal::QtWayland)) {
        Some(Signal::QtWayland)
    } else if some_name(paths, |n: Seq<char>| toolkit_of(n) == Some(Signal::Gtk)) {
        Some(Signal::Gtk)
    } else if some_name(paths, |n: Seq<char>| toolkit_of(n) == Some(Signal::Sdl3)) {
        Some(Signal::Sdl3)
    } else {
        None
    }
}

/// Whether `c` is what a memory map's files establish.
pub open spec fn is_classification(c: Classified, paths: Seq<Seq<char>>) -> bool {
    &&& c.uses_wayland == some_name(
        paths,
        |n: Seq<char>| "libwayland-client"@.is_prefix_of(n),
    )
    &&& c.chromium == some_name(paths, |n: Seq<char>| marks_chromium(n))
    &&& c.toolkit == strongest(paths)
    &&& views(c.scan@) == scan_list(paths)
}

proof fn lemma_some_name_push(
    paths: Seq<Seq<char>>,
    path: Seq<char>,
    p: spec_fn(Seq<char>) -> bool,
)
    ensures
        some_name(paths.push(path), p) == (some_name(paths, p) || p(base_name(path))),
{
    let all = paths.push(path);
    if some_name(paths, p) {
        let i = choose|i: int| 0 <= i < paths.len() && p(base_name(#[trigger] paths[i]));
        assert(p(base_name(all[i])));
    }
    if p(base_name(path)) {
        assert(p(base_name(all[paths.len() as int])));
    }
    if some_name(all, p) {
        let i = choose|i: int| 0 <= i < all.len() && p(base_name(#[trigger] all[i]));
        if i < paths.len() {
            assert(p(base_name(paths[i])));
        }
    }
}

fn is_listed(list: &Vec<String>, path: &str) -> (b: bool)
    ensures
        b == views(list@).contains(path@),
{
    let mut i: usize = 0;
    while i < list.len()
        invariant
            i <= list.len(),
            forall|j: int| 0 <= j < i ==> views(list@)[j] != path@,
        decreases list.len() - i,
    {
        if same_text(list[i].as_str(), path) {
            assert(views(list@)[i as int] == path@);
            return true;
        }
        i += 1;
    }
    false
}

/// What a process's memory map establishes about it.
pub fn classify(maps: &str) -> (c: Classified)
    ensures
        is_classification(c, mapped(maps@)),
{
    let text = chars_of(maps);
    let lines = split_at(&text, '\n');
    let ghost all = pieces(maps@, '\n');
    let mut c = Classified {
        uses_wayland: false,
        chromium: false,
        toolkit: None,
        scan: Vec::new(),
    };
    let mut qt = false;
    let mut gtk = false;
    let mut sdl = false;
    let ghost wayland_name = |n: Seq<char>| "libwayland-client"@.is_prefix_of(n);
    let ghost chromium_name = |n: Seq<char>| marks_chromium(n);
    let ghost qt_name = |n: Seq<char>| toolkit_of(n) == Some(Signal::QtWayland);
    let ghost gtk_name = |n: Seq<char>| toolkit_of(n) == Some(Signal::Gtk);
    let ghost sdl_name = |n: Seq<char>| toolkit_of(n) == Some(Signal::Sdl3);
    let mut i: usize = 0;
    proof {
        assert(all.take(0) =~= Seq::<Seq<char>>::empty());
        assert(views(c.scan@) =~= scan_list(paths_of(all.take(0))));
        assert(lines@.len() == char_views(lines@).len());
    }
    while i < lines.len()
        invariant
            i <= lines.len(),
            all == char_views(lines@),
            wayland_name == (|n: Seq<char>| "libwayland-client"@.is_prefix_of(n)),
            chromium_name == (|n: Seq<char>| marks_chromium(n)),
            qt_name == (|n: Seq<char>| toolkit_of(n) == Some(Signal::QtWayland)),
            gtk_name == (|n: Seq<char>| toolkit_of(n) == Some(Signal::Gtk)),
            sdl_name == (|n: Seq<char>| toolkit_of(n) == Some(Signal::Sdl3)),
            c.uses_wayland == some_name(paths_of(all.take(i as int)), wayland_name),
            c.chromium == some_name(paths_of(all.take(i as int)), chromium_name),
            qt == some_name(paths_of(all.take(i as int)), qt_name),
            gtk == some_name(paths_of(all.take(i as int)), gtk_name),
            sdl == some_name(paths_of(all.take(i as int)), sdl_name),
            views(c.scan@) == scan_list(paths_of(all.take(i as int))),
        decreases lines.len() - i,
    {
        let ghost seen = paths_of(all.take(i as int));
        let ghost now = all.take(i + 1);
        proof {
            assert(now.drop_last() =~= all.take(i as int));
            assert(now.last() == lines@[i as int]@);
        }
        if let Some(path) = field_six(&lines[i]) {
            if path[0] == '/' {
                let parts = split_at(&path, '/');
                let name = &parts[parts.len() - 1];
                proof {
                    assert(char_views(parts@).last() == name@);
                    assert(name@ == base_name(path@));
                    lemma_some_name_push(seen, path@, wayland_name);
                    lemma_some_name_push(seen, path@, chromium_name);
                    lemma_some_name_push(seen, path@, qt_name);
                    lemma_some_name_push(seen, path@, gtk_name);
                    lemma_some_name_push(seen, path@, sdl_name);
                    assert(seen.push(path@).drop_last() =~= seen);
                }
                if begins_with(name, "libwayland-client") {
                    c.uses_wayland = true;
                }
                if chromium_marker(name) {
                    c.chromium = true;
                }
                match toolkit_signal(name) {
                    Some(Signal::QtWayland) => {
                        qt = true;
                    },
                    Some(Signal::Gtk) => {
                        gtk = true;
                    },
                    Some(Signal::Sdl3) => {
                        sdl = true;
                    },
                    _ => {},
                }
                let full = string_of(&path);
                if scan_worthy(name) && !is_listed(&c.scan, full.as_str()) {
                    let ghost before = c.scan@;
                    c.scan.push(full);
                    assert(views(c.scan@) =~= views(before).push(path@));
                }
            }
        }
        i += 1;
    }
    assert(all.take(i as int) =~= all);
    c.toolkit = if qt {
        Some(Signal::QtWayland)
    } else if gtk {
        Some(Signal::Gtk)
    } else if sdl {
        Some(Signal::Sdl3)
    } else {
        None
    };
    c
}

/// What a map settles by itself, in order: no Wayland library, a Chromium marker, a toolkit.
pub open spec fn settled(c: Classified) -> Option<Signal> {
    if !c.uses_wayland {
        Some(Signal::X11)
    } else if c.chromium {
        Some(Signal::Chromium)
    } else {
        c.toolkit
    }
}

/// What a map settles by itself. Otherwise a string search has to answer.
pub fn settle(c: &Classified) -> (r: Option<Signal>)
    ensures
        r == settled(*c),
{
    if !c.uses_wayland {
        return Some(Signal::X11);
    }
    if c.chromium {
        return Some(Signal::Chromium);
    }
    c.toolkit
}

/// The files to search: those the map names, then the executable.
pub open spec fn search_list(scan: Seq<Seq<char>>, exe: Option<Seq<char>>) -> Seq<Seq<char>> {
    match exe {
        Some(e) => if scan.contains(e) {
            scan
        } else {
            scan.push(e)
        },
        None => scan,
    }
}

/// The files to search. Chromium-family applications carry their Wayland code in the executable
/// itself, so it is read from the process rather than guessed from the map.
pub fn scan_targets(c: Classified, exe: Option<String>) -> (r: Vec<String>)
    ensures
        views(r@) == search_list(views(c.scan@), opt_view(exe)),
{
    let mut r = c.scan;
    if let Some(e) = exe {
        if !is_listed(&r, e.as_str()) {
            let ghost before = r@;
            let ghost v = e@;
            r.push(e);
            assert(views(r@) =~= views(before).push(v));
        }
    }
    r
}

/// What a file's search gave: whether it holds the string, or `None` when it could not be read.
/// What is known of the file goes first. A failure is not remembered: a file unreadable now may
/// be readable later.
pub fn remembered(cache: &mut Dict<bool>, path: &str, found: Option<bool>) -> (r: Option<bool>)
    ensures
        r == (if old(cache).map().contains_key(path@) {
            Some(old(cache).map()[path@])
        } else {
            found
        }),
        final(cache).map() == (if !old(cache).map().contains_key(path@) && found is Some {
            old(cache).map().insert(path@, found->0)
        } else {
            old(cache).map()
        }),
{
    if let Some(known) = cache.get(path) {
        return Some(*known);
    }
    if let Some(f) = found {
        cache.insert(owned(path), f);
    }
    found
}

/// What searching files proves: that the interface cannot be bound, only where every one was
/// readable and none holds the string.
pub open spec fn search_verdict(results: Seq<Option<bool>>) -> Signal {
    if forall|i: int| 0 <= i < results.len() ==> #[trigger] results[i] == Some(false) {
        Signal::CannotBind
    } else {
        Signal::Unproven
    }
}

/// What searching files proves. Presence means "might bind it", which is not an answer.
pub fn conclude(results: &Vec<Option<bool>>) -> (r: Signal)
    ensures
        r == search_verdict(results@),
{
    let mut i: usize = 0;
    while i < results.len()
        invariant
            i <= results.len(),
            forall|j: int| 0 <= j < i ==> #[trigger] results@[j] == Some(false),
        decreases results.len() - i,
    {
        match results[i] {
            Some(false) => {},
            _ => {
                assert(results@[i as int] != Some(false));
                return Signal::Unproven;
            },
        }
        i += 1;
    }
    Signal::CannotBind
}

/// One file that holds the string, or that cannot be read, leaves the question open.
pub proof fn law_absence_must_be_proven_everywhere(results: Seq<Option<bool>>, i: int)
    requires
        0 <= i < results.len(),
        results[i] != Some(false),
    ensures
        search_verdict(results) == Signal::Unproven,
{
}

/// A Chromium marker outranks the toolkits that are mapped beside it.
pub proof fn law_a_chromium_marker_outranks_the_toolkits(c: Classified)
    requires
        c.uses_wayland,
        c.chromium,
    ensures
        settled(c) == Some(Signal::Chromium),
{
}

proof fn lemma_some_name_order(
    a: Seq<Seq<char>>,
    b: Seq<Seq<char>>,
    p: spec_fn(Seq<char>) -> bool,
)
    requires
        forall|x: Seq<char>| #[trigger] a.contains(x) ==> b.contains(x),
        some_name(a, p),
    ensures
        some_name(b, p),
{
    let i = choose|i: int| 0 <= i < a.len() && p(base_name(#[trigger] a[i]));
    assert(a.contains(a[i]));
    let j = choose|j: int| 0 <= j < b.len() && b[j] == a[i];
    assert(p(base_name(b[j])));
}

/// Two maps of the same files settle the same, in whatever order they list them.
pub proof fn law_the_verdict_does_not_depend_on_map_order(
    x: Classified,
    y: Classified,
    a: Seq<Seq<char>>,
    b: Seq<Seq<char>>,
)
    requires
        is_classification(x, a),
        is_classification(y, b),
        forall|p: Seq<char>| #[trigger] a.contains(p) <==> b.contains(p),
    ensures
        settled(x) == settled(y),
        x.uses_wayland == y.uses_wayland,
        x.chromium == y.chromium,
        x.toolkit == y.toolkit,
        forall|p: Seq<char>| #[trigger]
            views(x.scan@).contains(p) <==> views(y.scan@).contains(p),
{
    let wayland = |n: Seq<char>| "libwayland-client"@.is_prefix_of(n);
    let chromium = |n: Seq<char>| marks_chromium(n);
    let qt = |n: Seq<char>| toolkit_of(n) == Some(Signal::QtWayland);
    let gtk = |n: Seq<char>| toolkit_of(n) == Some(Signal::Gtk);
    let sdl = |n: Seq<char>| toolkit_of(n) == Some(Signal::Sdl3);
    lemma_same_names(a, b, wayland);
    lemma_same_names(a, b, chromium);
    lemma_same_names(a, b, qt);
    lemma_same_names(a, b, gtk);
    lemma_same_names(a, b, sdl);
    assert forall|p: Seq<char>| #[trigger] views(x.scan@).contains(p) <==> views(
        y.scan@,
    ).contains(p) by {
        lemma_scanned(a, p);
        lemma_scanned(b, p);
    }
}

/// A path is searched exactly where it is mapped and worth it.
proof fn lemma_scanned(paths: Seq<Seq<char>>, p: Seq<char>)
    ensures
        scan_list(paths).contains(p) <==> paths.contains(p) && is_scan_worthy(base_name(p)),
    decreases paths.len(),
{
    if paths.len() > 0 {
        let rest = paths.drop_last();
        let last = paths.last();
        lemma_scanned(rest, p);
        assert(paths =~= rest.push(last));
        assert(paths.contains(p) <==> rest.contains(p) || p == last) by {
            if rest.contains(p) {
                let k = choose|k: int| 0 <= k < rest.len() && rest[k] == p;
                assert(paths[k] == p);
            }
            if p == last {
                assert(paths[paths.len() - 1] == p);
            }
        }
        let list = scan_list(rest);
        assert(list.push(last).contains(p) <==> list.contains(p) || p == last) by {
            let more = list.push(last);
            if list.contains(p) {
                let k = choose|k: int| 0 <= k < list.len() && list[k] == p;
                assert(more[k] == p);
            }
            assert(more[list.len() as int] == last);
        }
    }
}

proof fn lemma_same_names(a: Seq<Seq<char>>, b: Seq<Seq<char>>, p: spec_fn(Seq<char>) -> bool)
    requires
        forall|x: Seq<char>| #[trigger] a.contains(x) <==> b.contains(x),
    ensures
        some_name(a, p) == some_name(b, p),
{
    if some_name(a, p) {
        lemma_some_name_order(a, b, p);
    }
    if some_name(b, p) {
        lemma_some_name_order(b, a, p);
    }
}

/// The bytes of the interface that a client must bind to receive a pen at all.
pub open spec fn tablet_interface() -> Seq<u8> {
    "zwp_tablet_manager_v2"@.map_values(|c: char| c as u8)
}

fn interface_bytes() -> (r: Vec<u8>)
    ensures
        r@ == tablet_interface(),
{
    let text = chars_of("zwp_tablet_manager_v2");
    let mut r: Vec<u8> = Vec::new();
    let mut i: usize = 0;
    while i < text.len()
        invariant
            i <= text.len(),
            text@ == "zwp_tablet_manager_v2"@,
            r@ == tablet_interface().take(i as int),
        decreases text.len() - i,
    {
        r.push(#[verifier::truncate] (text[i] as u8));
        assert(r@ =~= tablet_interface().take(i + 1));
        i += 1;
    }
    assert(r@ =~= tablet_interface());
    r
}

/// A search for the tablet interface's name through a file that arrives in chunks.
///
/// Streamed with an overlap rather than read whole: an executable can be hundreds of megabytes,
/// and the string could straddle any chunk boundary.
pub struct Scanner {
    needle: Vec<u8>,
    carry: Vec<u8>,
    found: bool,
    seen: Ghost<Seq<u8>>,
}

impl Scanner {
    /// Everything fed so far.
    pub closed spec fn fed(&self) -> Seq<u8> {
        self.seen@
    }

    #[verifier::type_invariant]
    closed spec fn inv(&self) -> bool {
        &&& self.needle@ == tablet_interface()
        &&& self.found == occurs(tablet_interface(), self.seen@)
        &&& self.carry@.is_suffix_of(self.seen@)
        &&& self.carry@.len() == self.seen@.len() || self.carry@.len() >= self.needle@.len()
    }

    pub fn new() -> (r: Self)
        ensures
            r.fed() == Seq::<u8>::empty(),
    {
        let carry: Vec<u8> = Vec::new();
        proof {
            reveal_strlit("zwp_tablet_manager_v2");
            assert(carry@ =~= Seq::<u8>::empty().subrange(0, 0));
        }
        Scanner { needle: interface_bytes(), carry, found: false, seen: Ghost(Seq::empty()) }
    }

    /// Whether the name stands in what was fed so far and `chunk`, wherever the chunks were cut.
    pub fn feed(&mut self, chunk: &Vec<u8>) -> (r: bool)
        ensures
            final(self).fed() == old(self).fed() + chunk@,
            r == occurs(tablet_interface(), final(self).fed()),
    {
        proof {
            use_type_invariant(&*self);
        }
        let ghost before = self.seen@;
        let ghost all = before + chunk@;
        let mut window: Vec<u8> = Vec::new();
        append_bytes(&mut window, &self.carry, 0);
        append_bytes(&mut window, chunk, 0);
        let ghost skipped = before.len() - self.carry@.len();
        assert(window@ =~= all.skip(skipped));
        let found = self.found || stands_in(&self.needle, &window);
        proof {
            if self.found {
                lemma_occurs_longer(tablet_interface(), before, chunk@);
            } else {
                lemma_overlap(tablet_interface(), before, chunk@, skipped);
            }
        }
        let keep: usize = if window.len() > self.needle.len() {
            window.len() - self.needle.len()
        } else {
            0
        };
        let mut carry: Vec<u8> = Vec::new();
        append_bytes(&mut carry, &window, keep);
        proof {
            assert(carry@ =~= all.skip(skipped + keep));
            assert(carry@ =~= all.subrange(
                (all.len() - carry@.len()) as int,
                all.len() as int,
            ));
        }
        *self = Scanner { needle: interface_bytes(), carry, found, seen: Ghost(all) };
        found
    }
}

proof fn lemma_occurs_longer(needle: Seq<u8>, first: Seq<u8>, second: Seq<u8>)
    requires
        occurs(needle, first),
    ensures
        occurs(needle, first + second),
{
    let i = choose|i: int| occurs_at(needle, first, i);
    assert((first + second).subrange(i, i + needle.len()) =~= first.subrange(
        i,
        i + needle.len(),
    ));
    assert(occurs_at(needle, first + second, i));
}

fn append_bytes(to: &mut Vec<u8>, from: &Vec<u8>, at: usize)
    requires
        at <= from@.len(),
    ensures
        final(to)@ == old(to)@ + from@.skip(at as int),
{
    let ghost base = to@;
    let mut i: usize = at;
    assert(to@ =~= base + from@.subrange(at as int, at as int));
    while i < from.len()
        invariant
            at <= i <= from.len(),
            to@ == base + from@.subrange(at as int, i as int),
        decreases from.len() - i,
    {
        to.push(from[i]);
        i += 1;
        assert(to@ =~= base + from@.subrange(at as int, i as int));
    }
    assert(to@ =~= base + from@.skip(at as int));
}

fn stands_in(needle: &Vec<u8>, hay: &Vec<u8>) -> (b: bool)
    ensures
        b == occurs(needle@, hay@),
{
    if needle.len() > hay.len() {
        return false;
    }
    let last: usize = hay.len() - needle.len();
    let mut at: usize = 0;
    while at <= last
        invariant
            last == hay@.len() - needle@.len(),
            at <= last + 1,
            forall|i: int| 0 <= i < at ==> !occurs_at(needle@, hay@, i),
        decreases last + 1 - at,
    {
        let mut i: usize = 0;
        while i < needle.len() && needle[i] == hay[at + i]
            invariant
                i <= needle.len(),
                at + needle.len() <= hay.len(),
                forall|j: int| 0 <= j < i ==> needle@[j] == hay@[at + j],
            decreases needle.len() - i,
        {
            i += 1;
        }
        if i == needle.len() {
            assert(hay@.subrange(at as int, at + needle@.len()) =~= needle@);
            assert(occurs_at(needle@, hay@, at as int));
            return true;
        }
        proof {
            assert(hay@.subrange(at as int, at + needle@.len())[i as int] == hay@[at + i]);
        }
        if at == last {
            return false;
        }
        at += 1;
    }
    false
}

/// A string that did not stand in the first part stands in the whole exactly when it stands in
/// the whole without a lead that leaves at least the string's length of the first part.
proof fn lemma_overlap(needle: Seq<u8>, first: Seq<u8>, second: Seq<u8>, skipped: int)
    requires
        !occurs(needle, first),
        0 <= skipped <= first.len(),
        skipped == 0 || first.len() - skipped >= needle.len(),
    ensures
        occurs(needle, (first + second).skip(skipped)) == occurs(needle, first + second),
{
    let all = first + second;
    let part = all.skip(skipped);
    if occurs(needle, part) {
        let i = choose|i: int| occurs_at(needle, part, i);
        assert(part.subrange(i, i + needle.len()) =~= all.subrange(
            skipped + i,
            skipped + i + needle.len(),
        ));
        assert(occurs_at(needle, all, skipped + i));
    }
    if occurs(needle, all) {
        let i = choose|i: int| occurs_at(needle, all, i);
        if i < skipped {
            assert(all.subrange(i, i + needle.len()) =~= first.subrange(i, i + needle.len()));
            assert(occurs_at(needle, first, i));
        } else {
            assert(part.subrange(i - skipped, i - skipped + needle.len()) =~= all.subrange(
                i,
                i + needle.len(),
            ));
            assert(occurs_at(needle, part, i - skipped));
        }
    }
}

/// A library is taken for the toolkit that its name gives away: Qt's wherever its Wayland client
/// is named, and else the one that the name begins with.
pub proof fn law_a_library_gives_its_toolkit_away(before: Seq<char>, behind: Seq<char>)
    ensures
        toolkit_of(before + "WaylandClient"@ + behind) == Some(Signal::QtWayland),
        !occurs("WaylandClient"@, "libgtk-4"@ + behind) ==> toolkit_of("libgtk-4"@ + behind)
            == Some(Signal::Gtk),
        !occurs("WaylandClient"@, "libgdk-3"@ + behind) ==> toolkit_of("libgdk-3"@ + behind)
            == Some(Signal::Gtk),
        !occurs("WaylandClient"@, "libSDL3"@ + behind) ==> toolkit_of("libSDL3"@ + behind) == Some(
            Signal::Sdl3,
        ),
        is_scan_worthy("libxul"@ + behind),
        marks_chromium(before + ".pak"@),
        marks_chromium("v8_context_snapshot"@ + behind),
        marks_chromium("snapshot_blob"@ + behind),
{
    let n = before + "WaylandClient"@ + behind;
    let at = before.len() as int;
    assert(n.subrange(at, at + "WaylandClient"@.len()) =~= "WaylandClient"@);
    assert(occurs_at("WaylandClient"@, n, at));
    reveal_strlit("libgtk-4");
    reveal_strlit("libgdk-3");
    reveal_strlit("libSDL3");
    let sdl = "libSDL3"@ + behind;
    assert(sdl[3] == 'S');
    assert("libgtk-4"@[3] == 'g' && "libgdk-3"@[3] == 'g');
    assert("libgtk-4"@.is_prefix_of("libgtk-4"@ + behind)) by {
        assert(("libgtk-4"@ + behind).take("libgtk-4"@.len() as int) =~= "libgtk-4"@);
    }
    assert("libgdk-3"@.is_prefix_of("libgdk-3"@ + behind)) by {
        assert(("libgdk-3"@ + behind).take("libgdk-3"@.len() as int) =~= "libgdk-3"@);
    }
    assert("libSDL3"@.is_prefix_of(sdl)) by {
        assert(sdl.take("libSDL3"@.len() as int) =~= "libSDL3"@);
    }
    assert("libxul"@.is_prefix_of("libxul"@ + behind)) by {
        assert(("libxul"@ + behind).take("libxul"@.len() as int) =~= "libxul"@);
    }
    assert("v8_context_snapshot"@.is_prefix_of("v8_context_snapshot"@ + behind)) by {
        assert(("v8_context_snapshot"@ + behind).take("v8_context_snapshot"@.len() as int)
            =~= "v8_context_snapshot"@);
    }
    assert("snapshot_blob"@.is_prefix_of("snapshot_blob"@ + behind)) by {
        assert(("snapshot_blob"@ + behind).take("snapshot_blob"@.len() as int)
            =~= "snapshot_blob"@);
    }
    let pak = before + ".pak"@;
    assert(".pak"@.is_suffix_of(pak)) by {
        assert(pak.skip(pak.len() - ".pak"@.len()) =~= ".pak"@);
    }
}

/// A process that maps no Wayland client is an X11 one, whatever else it maps; a Chromium marker
/// comes next, and else the toolkit speaks, where there is one.
pub proof fn law_what_a_map_settles(c: Classified)
    ensures
        !c.uses_wayland ==> settled(c) == Some(Signal::X11),
        c.uses_wayland && !c.chromium ==> settled(c) == c.toolkit,
        c.uses_wayland && c.chromium ==> settled(c) == Some(Signal::Chromium),
{
}

/// Of the toolkits in a map Qt's counts before GTK and GTK before SDL, and where a file names none
/// of them there is none.
pub proof fn law_the_strongest_toolkit_counts(paths: Seq<Seq<char>>, i: int)
    requires
        0 <= i < paths.len(),
    ensures
        toolkit_of(base_name(paths[i])) == Some(Signal::QtWayland) ==> strongest(paths) == Some(
            Signal::QtWayland,
        ),
        toolkit_of(base_name(paths[i])) == Some(Signal::Gtk) ==> strongest(paths) == Some(
            Signal::QtWayland,
        ) || strongest(paths) == Some(Signal::Gtk),
        toolkit_of(base_name(paths[i])) is Some ==> strongest(paths) is Some,
        strongest(paths) matches Some(s) ==> exists|j: int|
            0 <= j < paths.len() && toolkit_of(base_name(#[trigger] paths[j])) == Some(s),
{
    let n = base_name(paths[i]);
    let qt = |n: Seq<char>| toolkit_of(n) == Some(Signal::QtWayland);
    let gtk = |n: Seq<char>| toolkit_of(n) == Some(Signal::Gtk);
    let sdl = |n: Seq<char>| toolkit_of(n) == Some(Signal::Sdl3);
    assert(qt(n) ==> some_name(paths, qt));
    assert(gtk(n) ==> some_name(paths, gtk));
    assert(sdl(n) ==> some_name(paths, sdl));
}

/// The last component of a path is what stands behind its last slash.
pub proof fn law_a_base_name_is_behind_the_last_slash(dir: Seq<char>, name: Seq<char>)
    requires
        !name.contains('/'),
    ensures
        base_name(dir.push('/') + name) == name,
        base_name(name) == name,
    decreases dir.len(),
{
    let s = dir.push('/') + name;
    law_what_was_joined_comes_apart(seq![name], '/');
    law_pieces_rejoin(dir, '/');
    let list = pieces(dir, '/').push(name);
    assert forall|i: int| 0 <= i < list.len() implies !(#[trigger] list[i]).contains('/') by {
        if i < list.len() - 1 {
            assert(list[i] == pieces(dir, '/')[i]);
        }
    }
    lemma_rejoined_push(pieces(dir, '/'), name, '/');
    law_what_was_joined_comes_apart(list, '/');
}

proof fn lemma_rejoined_push(list: Seq<Seq<char>>, last: Seq<char>, sep: char)
    requires
        list.len() > 0,
    ensures
        rejoined(list.push(last), sep) == rejoined(list, sep).push(sep) + last,
    decreases list.len(),
{
    let all = list.push(last);
    if list.len() == 1 {
        assert(all.drop_first() =~= seq![last]);
        assert(rejoined(seq![last], sep) == last);
    } else {
        lemma_rejoined_push(list.drop_first(), last, sep);
        assert(all.drop_first() =~= list.drop_first().push(last));
        assert(rejoined(all, sep) =~= rejoined(list, sep).push(sep) + last);
    }
}

/// What is searched is what the map names and the executable, each once.
pub proof fn law_the_executable_is_searched(scan: Seq<Seq<char>>, exe: Seq<char>, p: Seq<char>)
    ensures
        search_list(scan, Some(exe)).contains(p) <==> scan.contains(p) || p == exe,
        search_list(scan, None) == scan,
        scan.no_duplicates() ==> search_list(scan, Some(exe)).no_duplicates(),
{
    let all = search_list(scan, Some(exe));
    if scan.contains(p) {
        let i = choose|i: int| 0 <= i < scan.len() && scan[i] == p;
        assert(all[i] == p);
    }
    if p == exe && !scan.contains(p) {
        assert(all[scan.len() as int] == p);
    }
}

/// Searching proves something only where every file was read and none holds the name.
pub proof fn law_absence_everywhere_is_proof(results: Seq<Option<bool>>)
    ensures
        search_verdict(results) == Signal::CannotBind || search_verdict(results)
            == Signal::Unproven,
        (forall|i: int| 0 <= i < results.len() ==> #[trigger] results[i] == Some(false))
            ==> search_verdict(results) == Signal::CannotBind,
{
}

/// The path of a map's line is everything behind its five fields, spaces and all.
pub proof fn law_a_path_stands_behind_five_fields(
    fields: Seq<Seq<char>>,
    path: Seq<char>,
    n: nat,
)
    requires
        fields.len() == n,
        forall|i: int|
            0 <= i < n ==> (#[trigger] fields[i]).len() > 0 && forall|j: int|
                0 <= j < fields[i].len() ==> !is_white(#[trigger] fields[i][j]),
        path.len() > 0,
        !is_white(path[0]),
    ensures
        after_fields(spaced(fields, path), n) == Some(path),
        n == 5 && !is_white(path.last()) ==> path_of(spaced(fields, path)) == Some(path),
    decreases n,
{
    let s = spaced(fields, path);
    if n > 0 {
        let first = fields[0];
        let rest = fields.drop_first();
        assert forall|i: int| 0 <= i < rest.len() implies (#[trigger] rest[i]).len() > 0 && forall|
            j: int,
        | 0 <= j < rest[i].len() ==> !is_white(#[trigger] rest[i][j]) by {
            assert(rest[i] == fields[i + 1]);
        }
        law_a_path_stands_behind_five_fields(rest, path, (n - 1) as nat);
        let t = spaced(rest, path);
        assert(t.len() > 0 && !is_white(t[0])) by {
            if rest.len() > 0 {
                assert(rest[0].len() > 0 && !is_white(rest[0][0]));
                assert(t[0] == rest[0][0]);
            }
        }
        assert forall|i: int| 0 <= i < first.len() implies !is_white(#[trigger] s[i]) by {
            assert(s[i] == first[i]);
            assert(!is_white(fields[0][i]));
        }
        assert(s[first.len() as int] == ' ');
        lemma_word_len_is(s, first.len() as int);
        assert(s.skip(first.len() as int) =~= seq![' '] + t);
        assert(s.skip(first.len() as int)[0] == ' ');
        assert(s.skip(first.len() as int).drop_first() =~= t);
        assert(trim_start(t) == t);
        assert(trim_start(s.skip(first.len() as int)) == t);
        assert(!is_white(fields[0][0]));
        assert(s[0] == fields[0][0]);
        assert(trim_start(s) == s);
    }
    if !is_white(path.last()) {
        assert(trim_end(path) == path);
    }
}

/// Fields and what follows them, with a blank behind each field.
pub open spec fn spaced(fields: Seq<Seq<char>>, path: Seq<char>) -> Seq<char>
    decreases fields.len(),
{
    if fields.len() == 0 {
        path
    } else {
        fields[0].push(' ') + spaced(fields.drop_first(), path)
    }
}

/// The files worth a search are those of a map whose names say so, each once.
pub proof fn law_exactly_the_worthy_files_are_searched(paths: Seq<Seq<char>>, p: Seq<char>)
    ensures
        scan_list(paths).contains(p) <==> paths.contains(p) && is_scan_worthy(base_name(p)),
        scan_list(paths).no_duplicates(),
    decreases paths.len(),
{
    lemma_scanned(paths, p);
    if paths.len() > 0 {
        law_exactly_the_worthy_files_are_searched(paths.drop_last(), p);
    }
}

/// A map names the files behind its lines, in order: a line without a path, or with one that is no
/// file's, names none.
pub proof fn law_a_map_names_its_files(a: Seq<Seq<char>>, b: Seq<Seq<char>>, line: Seq<char>)
    ensures
        paths_of(a + b) == paths_of(a) + paths_of(b),
        path_of(line) is None ==> paths_of(seq![line]).len() == 0,
        path_of(line) matches Some(p) && p[0] == '/' ==> paths_of(seq![line]) == seq![
            path_of(line)->0,
        ],
        path_of(line) matches Some(p) && p[0] != '/' ==> paths_of(seq![line]).len() == 0,
    decreases b.len(),
{
    let one = seq![line];
    assert(one.drop_last() =~= Seq::<Seq<char>>::empty());
    assert(paths_of(one.drop_last()) =~= Seq::<Seq<char>>::empty());
    if path_of(line) is Some && path_of(line)->0[0] == '/' {
        assert(paths_of(one) =~= seq![path_of(line)->0]);
    }
    if b.len() == 0 {
        assert(a + b =~= a);
        assert(paths_of(a) + paths_of(b) =~= paths_of(a));
    } else {
        law_a_map_names_its_files(a, b.drop_last(), line);
        assert((a + b).drop_last() =~= a + b.drop_last());
        assert((a + b).last() == b.last());
        assert(paths_of(a + b) =~= paths_of(a) + paths_of(b));
    }
}

} // verus!
