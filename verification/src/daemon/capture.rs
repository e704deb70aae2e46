//! Capturing a binding: the next chord is named for a frontend rather than acted on.
//!
//! The presses that name a binding are swallowed, or binding the middle button would paste while
//! it was bound. So are their releases, which belong to presses no application ever saw.

use crate::daemon::buttons::position;
use crate::daemon::keys::{binding_name, key_name};
use crate::text::{opt_view, owned, same_text, views};
use vstd::multiset::Multiset;
use vstd::prelude::*;
use vstd::string::*;

verus! {

/// How long the daemon watches for a button after a frontend asks it to, in microseconds.
///
/// Long enough to reach for an awkward thumb button, short enough that a window closed mid-bind
/// does not leave the mouse swallowing a click a minute later.
pub const CAPTURE_WINDOW_US: u64 = 8_000_000;

#[derive(Debug)]
pub struct BindingCapture {
    /// While set, presses are reported rather than acted on, until this time.
    pub until: Option<u64>,
    /// Names captured so far in the current chord.
    pub chord: Vec<String>,
    /// How many captured buttons are still held, so the chord knows when it is finished.
    pub down: usize,
    /// The captured chord, waiting for a frontend to collect it.
    pub captured: Option<String>,
    /// Buttons whose releases must be swallowed, their presses having been swallowed.
    pub swallow: Vec<u16>,
}

/// The view of a [`BindingCapture`].
#[verifier::ext_equal]
pub struct CaptureState {
    pub until: Option<u64>,
    pub chord: Seq<Seq<char>>,
    pub down: int,
    pub captured: Option<Seq<char>>,
    pub swallow: Multiset<u16>,
}

impl View for BindingCapture {
    type V = CaptureState;

    open spec fn view(&self) -> CaptureState {
        CaptureState {
            until: self.until,
            chord: views(self.chord@),
            down: self.down as int,
            captured: opt_view(self.captured),
            swallow: self.swallow@.to_multiset(),
        }
    }
}

/// Names joined by plus signs.
pub open spec fn joined(names: Seq<Seq<char>>) -> Seq<char>
    decreases names.len(),
{
    if names.len() == 0 {
        seq![]
    } else if names.len() == 1 {
        names[0]
    } else {
        joined(names.drop_last()) + "+"@ + names.last()
    }
}

/// Nothing is captured, and nothing half-collected is kept. What was captured before still waits
/// for its frontend.
pub open spec fn ended(s: CaptureState) -> CaptureState {
    CaptureState { until: None, chord: seq![], down: 0, swallow: Multiset::empty(), ..s }
}

/// The state after one transition: a press joins the chord, once by name, and its release will
/// be swallowed.
pub open spec fn collected_one(s: CaptureState, code: u16, pressed: bool) -> CaptureState {
    if pressed {
        CaptureState {
            chord: if s.chord.contains(key_name(code)) {
                s.chord
            } else {
                s.chord.push(key_name(code))
            },
            down: s.down + 1,
            swallow: s.swallow.insert(code),
            ..s
        }
    } else {
        CaptureState {
            down: if s.down > 0 {
                s.down - 1
            } else {
                0
            },
            ..s
        }
    }
}

pub open spec fn collected(s: CaptureState, keys: Seq<(u16, bool)>) -> CaptureState
    decreases keys.len(),
{
    if keys.len() == 0 {
        s
    } else {
        collected_one(collected(s, keys.drop_last()), keys.last().0, keys.last().1)
    }
}

/// The chord is published when the hand lets go of everything.
pub open spec fn finished(s: CaptureState) -> CaptureState {
    if s.down == 0 && s.chord.len() > 0 {
        CaptureState { until: None, captured: Some(joined(s.chord)), chord: seq![], ..s }
    } else {
        s
    }
}

/// Whether a capture is running.
pub open spec fn is_capturing(s: CaptureState, now: u64) -> bool {
    s.until is Some && now < s.until->0
}

/// The state after a report.
pub open spec fn captured_report(s: CaptureState, keys: Seq<(u16, bool)>, now: u64) -> CaptureState {
    if s.until is None {
        s
    } else if now >= s.until->0 {
        ended(s)
    } else if keys.len() == 0 {
        s
    } else {
        finished(collected(s, keys))
    }
}

/// Which releases of a report are swallowed, and what is left to swallow.
pub open spec fn swallowed(s: Multiset<u16>, keys: Seq<(u16, bool)>) -> (Multiset<u16>, Seq<u16>)
    decreases keys.len(),
{
    if keys.len() == 0 {
        (s, seq![])
    } else {
        let (left, out) = swallowed(s, keys.drop_last());
        let (code, pressed) = keys.last();
        if !pressed && left.count(code) > 0 {
            (left.remove(code), out.push(code))
        } else {
            (left, out)
        }
    }
}

fn is_named(list: &Vec<String>, name: &str) -> (b: bool)
    ensures
        b == views(list@).contains(name@),
{
    let mut i: usize = 0;
    while i < list.len()
        invariant
            i <= list.len(),
            forall|j: int| 0 <= j < i ==> views(list@)[j] != name@,
        decreases list.len() - i,
    {
        if same_text(list[i].as_str(), name) {
            assert(views(list@)[i as int] == name@);
            return true;
        }
        i += 1;
    }
    false
}

fn join(list: &Vec<String>) -> (s: String)
    ensures
        s@ == joined(views(list@)),
{
    let ghost all = views(list@);
    if list.len() == 0 {
        let s = String::new();
        assert(s@ =~= joined(all));
        return s;
    }
    let mut s = owned(list[0].as_str());
    let mut i: usize = 1;
    assert(joined(all.take(1)) == all[0]);
    while i < list.len()
        invariant
            1 <= i <= list.len(),
            all == views(list@),
            s@ == joined(all.take(i as int)),
        decreases list.len() - i,
    {
        proof {
            assert(all.take(i + 1).drop_last() =~= all.take(i as int));
            assert(all.take(i + 1).last() == list@[i as int]@);
        }
        s = s.concat("+").concat(list[i].as_str());
        i += 1;
    }
    assert(all.take(i as int) =~= all);
    s
}

impl Default for BindingCapture {
    fn default() -> (r: Self)
        ensures
            r.until is None,
            r.chord@.len() == 0,
            r.down == 0,
            r.captured is None,
            r.swallow@.len() == 0,
    {
        BindingCapture {
            until: None,
            chord: Vec::new(),
            down: 0,
            captured: None,
            swallow: Vec::new(),
        }
    }
}

impl BindingCapture {
    /// Stop capturing and forget anything half-collected.
    pub fn end_capture(&mut self)
        ensures
            final(self)@ == ended(old(self)@),
    {
        self.until = None;
        self.chord.clear();
        self.down = 0;
        self.swallow.clear();
        proof {
            assert(views(self.chord@) =~= Seq::<Seq<char>>::empty());
            self.swallow@.to_multiset_ensures();
            assert(self.swallow@.to_multiset() =~= Multiset::empty());
        }
    }

    /// Start capturing, from a clean state.
    pub fn begin(&mut self, now: u64)
        requires
            now <= u64::MAX - CAPTURE_WINDOW_US,
        ensures
            final(self)@ == (CaptureState {
                until: Some((now + CAPTURE_WINDOW_US) as u64),
                ..ended(old(self)@)
            }),
    {
        self.end_capture();
        self.until = Some(now + CAPTURE_WINDOW_US);
    }

    /// Hand a captured chord to the frontend, once.
    pub fn take_captured(&mut self) -> (r: Option<String>)
        ensures
            opt_view(r) == old(self)@.captured,
            final(self)@ == (CaptureState { captured: None, ..old(self)@ }),
    {
        self.captured.take()
    }

    /// While capturing, take the presses of a report for the frontend and swallow them. Returns
    /// whether the report was consumed.
    ///
    /// Motion during a capture is swallowed too: the hand is reaching for a button, not pointing
    /// at anything.
    pub fn capture_button(&mut self, keys: &Vec<(u16, bool)>, now: u64) -> (r: bool)
        requires
            old(self).down + keys@.len() <= usize::MAX,
        ensures
            r == is_capturing(old(self)@, now),
            final(self)@ == captured_report(old(self)@, keys@, now),
    {
        let until = match self.until {
            None => {
                return false;
            },
            Some(until) => until,
        };
        if now >= until {
            // A capture that timed out with a button still held would otherwise leave its
            // release queued for swallowing indefinitely.
            self.end_capture();
            return false;
        }
        if keys.len() == 0 {
            return true;
        }
        let ghost start = self@;
        let mut i: usize = 0;
        assert(keys@.take(0) =~= Seq::<(u16, bool)>::empty());
        while i < keys.len()
            invariant
                i <= keys.len(),
                start.down + keys@.len() <= usize::MAX,
                self@ == collected(start, keys@.take(i as int)),
                self@.down <= start.down + i,
            decreases keys.len() - i,
        {
            let (code, pressed) = keys[i];
            let ghost now_keys = keys@.take(i + 1);
            let ghost before = *self;
            proof {
                assert(now_keys.drop_last() =~= keys@.take(i as int));
                assert(now_keys.last() == keys@[i as int]);
            }
            if pressed {
                // Accumulated, not taken on the first press: a chord is whatever was held
                // together.
                let name = binding_name(code);
                if !is_named(&self.chord, name.as_str()) {
                    self.chord.push(name);
                    assert(views(self.chord@) =~= views(before.chord@).push(key_name(code)));
                }
                self.down = self.down + 1;
                self.swallow.push(code);
                proof {
                    before.swallow@.to_multiset_ensures();
                    assert(self.swallow@.to_multiset() =~= before.swallow@.to_multiset().insert(
                        code,
                    ));
                }
            } else if self.down > 0 {
                self.down = self.down - 1;
            }
            assert(self@ =~= collected(start, now_keys));
            i += 1;
        }
        assert(keys@.take(i as int) =~= keys@);
        // Published when the hand lets go of everything, which is how a chord announces that it
        // is finished.
        assert(views(self.chord@).len() == self.chord@.len());
        if self.down == 0 && self.chord.len() > 0 {
            self.captured = Some(join(&self.chord));
            self.until = None;
            self.chord.clear();
            assert(views(self.chord@) =~= Seq::<Seq<char>>::empty());
        }
        true
    }

    /// The other half of swallowing a captured press: the releases of a report that belong to
    /// presses no application ever saw.
    pub fn swallow_releases(&mut self, keys: &Vec<(u16, bool)>) -> (r: Vec<u16>)
        ensures
            r@ == swallowed(old(self)@.swallow, keys@).1,
            final(self)@ == (CaptureState {
                swallow: swallowed(old(self)@.swallow, keys@).0,
                ..old(self)@
            }),
    {
        let mut out: Vec<u16> = Vec::new();
        let ghost start = self@;
        let mut i: usize = 0;
        proof {
            assert(keys@.take(0) =~= Seq::<(u16, bool)>::empty());
            assert(out@ =~= swallowed(start.swallow, keys@.take(0)).1);
        }
        while i < keys.len()
            invariant
                i <= keys.len(),
                out@ == swallowed(start.swallow, keys@.take(i as int)).1,
                self@ == (CaptureState {
                    swallow: swallowed(start.swallow, keys@.take(i as int)).0,
                    ..start
                }),
            decreases keys.len() - i,
        {
            let (code, pressed) = keys[i];
            let ghost now = keys@.take(i + 1);
            let ghost before = self.swallow@;
            proof {
                assert(now.drop_last() =~= keys@.take(i as int));
                assert(now.last() == keys@[i as int]);
                before.to_multiset_ensures();
            }
            if !pressed {
                if let Some(at) = position(&self.swallow, code) {
                    self.swallow.swap_remove(at);
                    out.push(code);
                    proof {
                        lemma_swap_remove(before, at as int);
                    }
                } else {
                    assert(before.to_multiset().count(code) == 0);
                }
            }
            i += 1;
        }
        assert(keys@.take(i as int) =~= keys@);
        out
    }
}

proof fn lemma_swap_remove(s: Seq<u16>, i: int)
    requires
        0 <= i < s.len(),
    ensures
        s.to_multiset().count(s[i]) > 0,
        s.update(i, s.last()).drop_last().to_multiset() == s.to_multiset().remove(s[i]),
{
    s.to_multiset_ensures();
    let last = s.last();
    let t = s.drop_last();
    t.to_multiset_ensures();
    assert(s =~= t.push(last));
    if i == s.len() - 1 {
        assert(s.update(i, last).drop_last() =~= t);
        assert(s.to_multiset() =~= t.to_multiset().insert(last));
        assert(t.to_multiset() =~= s.to_multiset().remove(s[i]));
    } else {
        let u = t.update(i, last);
        assert(s.update(i, last).drop_last() =~= u);
        let without = t.remove(i);
        without.to_multiset_ensures();
        u.to_multiset_ensures();
        assert(t.to_multiset().remove(t[i]) =~= without.to_multiset());
        assert(u.remove(i) =~= without);
        assert(u.to_multiset().remove(u[i]) =~= without.to_multiset());
        assert(u.to_multiset() =~= without.to_multiset().insert(last));
        assert(t.to_multiset() =~= without.to_multiset().insert(s[i]));
        assert(s.to_multiset() =~= t.to_multiset().insert(last));
        assert(u.to_multiset() =~= s.to_multiset().remove(s[i]));
    }
}

/// The release of a captured press is swallowed, once.
pub proof fn law_a_captured_press_has_its_release_swallowed(s: CaptureState, code: u16)
    ensures
        swallowed(collected_one(s, code, true).swallow, seq![(code, false)]) == (
            s.swallow,
            seq![code],
        ),
{
    let keys = seq![(code, false)];
    reveal_with_fuel(swallowed, 2);
    assert(keys.drop_last() =~= Seq::<(u16, bool)>::empty());
    assert(s.swallow.insert(code).remove(code) =~= s.swallow);
    assert(Seq::<u16>::empty().push(code) =~= seq![code]);
}

/// A release that belongs to no captured press is passed on.
pub proof fn law_an_ordinary_release_is_passed_on(s: CaptureState, code: u16)
    requires
        s.swallow.count(code) == 0,
    ensures
        swallowed(s.swallow, seq![(code, false)]) == (s.swallow, Seq::<u16>::empty()),
{
    reveal_with_fuel(swallowed, 2);
    assert(seq![(code, false)].drop_last() =~= Seq::<(u16, bool)>::empty());
}

/// Outside a capture a report passes through untouched; an expired capture leaves nothing to
/// swallow behind.
pub proof fn law_a_capture_leaves_nothing_behind(
    s: CaptureState,
    keys: Seq<(u16, bool)>,
    now: u64,
)
    requires
        !is_capturing(s, now),
    ensures
        s.until is None ==> captured_report(s, keys, now) == s,
        s.until is Some ==> captured_report(s, keys, now) == ended(s),
        ended(s).swallow == Multiset::<u16>::empty(),
{
}

/// A button pressed and released during a capture names the chord and ends the capture.
pub proof fn law_letting_go_publishes_the_chord(s: CaptureState, code: u16, now: u64)
    requires
        is_capturing(s, now),
        s.chord.len() == 0,
        s.down == 0,
    ensures
        ({
            let after = captured_report(
                captured_report(s, seq![(code, true)], now),
                seq![(code, false)],
                now,
            );
            &&& after.captured == Some(key_name(code))
            &&& after.until is None
            &&& after.chord.len() == 0
        }),
{
    reveal_with_fuel(collected, 2);
    assert(seq![(code, true)].drop_last() =~= Seq::<(u16, bool)>::empty());
    assert(seq![(code, false)].drop_last() =~= Seq::<(u16, bool)>::empty());
    let one = collected(s, seq![(code, true)]);
    assert(one.chord =~= seq![key_name(code)]);
    assert(joined(seq![key_name(code)]) == key_name(code));
}

/// How many of the transitions are `key`.
pub open spec fn times(keys: Seq<(u16, bool)>, key: (u16, bool)) -> nat {
    keys.to_multiset().count(key)
}

proof fn lemma_times(keys: Seq<(u16, bool)>, key: (u16, bool))
    requires
        keys.len() > 0,
    ensures
        times(keys, key) == times(keys.drop_last(), key) + if keys.last() == key {
            1nat
        } else {
            0
        },
{
    keys.drop_last().to_multiset_ensures();
    assert(keys =~= keys.drop_last().push(keys.last()));
    assert(keys.to_multiset() =~= keys.drop_last().to_multiset().insert(keys.last()));
}

/// Every button that is pressed during a capture is in the chord by name, after what was there
/// already and once; nothing else is. Of each button as many releases are to be swallowed as it
/// was pressed.
pub proof fn law_a_chord_is_what_was_pressed(s: CaptureState, keys: Seq<(u16, bool)>, code: u16)
    requires
        s.chord.no_duplicates(),
    ensures
        s.chord.is_prefix_of(collected(s, keys).chord),
        collected(s, keys).chord.no_duplicates(),
        keys.contains((code, true)) ==> collected(s, keys).chord.contains(key_name(code)),
        forall|n: Seq<char>| #[trigger]
            collected(s, keys).chord.contains(n) ==> s.chord.contains(n) || exists|i: int|
                0 <= i < keys.len() && (#[trigger] keys[i]).1 && key_name(keys[i].0) == n,
        collected(s, keys).swallow.count(code) == s.swallow.count(code) + times(
            keys,
            (code, true),
        ),
        collected(s, keys).until == s.until,
        collected(s, keys).captured == s.captured,
    decreases keys.len(),
{
    keys.to_multiset_ensures();
    if keys.len() > 0 {
        let rest = keys.drop_last();
        law_a_chord_is_what_was_pressed(s, rest, code);
        lemma_times(keys, (code, true));
        let before = collected(s, rest);
        let after = collected(s, keys);
        let (c, pressed) = keys.last();
        if pressed && !before.chord.contains(key_name(c)) {
            assert(after.chord == before.chord.push(key_name(c)));
            assert(after.chord[before.chord.len() as int] == key_name(c));
        }
        assert(before.chord.is_prefix_of(after.chord));
        if keys.contains((code, true)) {
            let i = choose|i: int| 0 <= i < keys.len() && keys[i] == (code, true);
            if i < rest.len() {
                assert(rest[i] == (code, true));
                assert(before.chord.contains(key_name(code)));
                let k = choose|k: int|
                    0 <= k < before.chord.len() && before.chord[k] == key_name(code);
                assert(after.chord[k] == key_name(code));
            }
        }
        assert forall|n: Seq<char>| #[trigger] after.chord.contains(n) implies s.chord.contains(n)
            || exists|i: int|
            0 <= i < keys.len() && (#[trigger] keys[i]).1 && key_name(keys[i].0) == n by {
            if before.chord.contains(n) {
                if !s.chord.contains(n) {
                    let i = choose|i: int|
                        0 <= i < rest.len() && (#[trigger] rest[i]).1 && key_name(rest[i].0) == n;
                    assert(keys[i] == rest[i]);
                }
            } else {
                assert(keys[keys.len() - 1].1 && key_name(keys[keys.len() - 1].0) == n);
            }
        }
    }
}

/// Every press counts as one more button down and every release as one less, down to none.
pub proof fn law_buttons_down_are_counted(s: CaptureState, keys: Seq<(u16, bool)>, code: u16)
    ensures
        collected(s, keys.push((code, true))).down == collected(s, keys).down + 1,
        collected(s, keys).down > 0 ==> collected(s, keys.push((code, false))).down == collected(
            s,
            keys,
        ).down - 1,
        collected(s, keys).down == 0 ==> collected(s, keys.push((code, false))).down == 0,
        collected(s, Seq::empty()) == s,
{
    assert(keys.push((code, true)).drop_last() =~= keys);
    assert(keys.push((code, false)).drop_last() =~= keys);
}

/// While a button of the chord is still down nothing is published and the capture goes on. Once
/// all are let go the names are published in the order in which they were pressed, joined by plus
/// signs, and the capture is over.
pub proof fn law_a_chord_is_published_when_all_is_let_go(
    s: CaptureState,
    keys: Seq<(u16, bool)>,
    now: u64,
)
    requires
        is_capturing(s, now),
    ensures
        ({
            let seen = collected(s, keys);
            let after = captured_report(s, keys, now);
            &&& seen.down > 0 || seen.chord.len() == 0 ==> after.captured == s.captured
                && after.until == s.until && after.chord == seen.chord
            &&& keys.len() > 0 && seen.down == 0 && seen.chord.len() > 0 ==> after.captured == Some(
                joined(seen.chord),
            ) && after.until is None && after.chord.len() == 0
            &&& after.swallow == seen.swallow
            &&& after.down == seen.down
        }),
        now < s.until->0,
{
    lemma_collecting_publishes_nothing(s, keys);
}

proof fn lemma_collecting_publishes_nothing(s: CaptureState, keys: Seq<(u16, bool)>)
    ensures
        collected(s, keys).until == s.until,
        collected(s, keys).captured == s.captured,
    decreases keys.len(),
{
    if keys.len() > 0 {
        lemma_collecting_publishes_nothing(s, keys.drop_last());
    }
}

/// Names are joined with one plus sign between each two of them.
pub proof fn law_names_are_joined_by_plus_signs(names: Seq<Seq<char>>, n: Seq<char>)
    ensures
        joined(seq![n]) == n,
        names.len() > 0 ==> joined(names.push(n)) == joined(names).push('+') + n,
{
    reveal_strlit("+");
    assert(names.push(n).drop_last() =~= names);
    assert(joined(names) + "+"@ =~= joined(names).push('+'));
}

/// Of a button's releases as many are swallowed as are still owed, and no press is; what is still
/// owed shrinks by just those.
pub proof fn law_what_is_owed_is_swallowed(s: Multiset<u16>, keys: Seq<(u16, bool)>, code: u16)
    ensures
        swallowed(s, keys).1.to_multiset().count(code) == if s.count(code) <= times(
            keys,
            (code, false),
        ) {
            s.count(code)
        } else {
            times(keys, (code, false))
        },
        swallowed(s, keys).0.count(code) + swallowed(s, keys).1.to_multiset().count(code)
            == s.count(code),
    decreases keys.len(),
{
    keys.to_multiset_ensures();
    swallowed(s, keys).1.to_multiset_ensures();
    if keys.len() > 0 {
        let rest = keys.drop_last();
        law_what_is_owed_is_swallowed(s, rest, code);
        lemma_times(keys, (code, false));
        let (left, out) = swallowed(s, rest);
        out.to_multiset_ensures();
        let (c, pressed) = keys.last();
        if !pressed && left.count(c) > 0 {
            assert(out.push(c).to_multiset() =~= out.to_multiset().insert(c));
        }
    }
}

/// Ending a capture forgets what was half collected and what was to be swallowed, and keeps what
/// was captured before for whoever asked for it.
pub proof fn law_ending_a_capture_keeps_what_was_captured(s: CaptureState, now: u64)
    ensures
        !is_capturing(ended(s), now),
        ended(s).until is None,
        ended(s).chord.len() == 0,
        ended(s).down == 0,
        ended(s).swallow.len() == 0,
        ended(s).captured == s.captured,
        s.until matches Some(t) ==> (is_capturing(s, now) <==> now < t),
{
}

} // verus!
