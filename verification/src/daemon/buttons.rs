//! Which buttons and keys are held, and what a chord of them means.

use crate::config::schema::Passthrough;
use crate::daemon::modes::Mode;
use vstd::prelude::*;

verus! {

/// The state of the source device's buttons and of the watched keyboards.
#[derive(Debug)]
pub struct Buttons {
    /// The button that counts as pen-down in tablet mode.
    pub pen: u16,
    /// The codes that are mouse buttons. Every other code is a keyboard key.
    pub mouse: Vec<u16>,
    /// The mouse buttons held. A report carries only transitions, while a button's state
    /// persists between reports.
    pub held: Vec<u16>,
    /// The keyboard keys held, as the watched keyboards report them.
    pub keys: Vec<u16>,
}

/// Whether a code is held: a mouse button by the source device's own state, a key by the
/// keyboards'.
pub open spec fn is_held(b: Buttons, code: u16) -> bool {
    if b.mouse@.contains(code) {
        b.held@.contains(code)
    } else {
        b.keys@.contains(code)
    }
}

/// Whether a whole chord is held. An empty chord never is: it would be vacuously held, and leave
/// what waits for it permanently engaged.
pub open spec fn chord_held(b: Buttons, chord: Seq<u16>) -> bool {
    chord.len() > 0 && forall|i: int| 0 <= i < chord.len() ==> is_held(b, #[trigger] chord[i])
}

/// Whether any chord is held.
pub open spec fn some_chord_held(b: Buttons, chords: Seq<Vec<u16>>) -> bool {
    exists|i: int| 0 <= i < chords.len() && chord_held(b, (#[trigger] chords[i])@)
}

/// Whether any part of any chord is held.
pub open spec fn some_part_held(b: Buttons, chords: Seq<Vec<u16>>) -> bool {
    exists|i: int, j: int|
        0 <= i < chords.len() && 0 <= j < chords[i]@.len() && is_held(
            b,
            #[trigger] chords[i]@[j],
        )
}

/// The held buttons after a list of transitions.
pub open spec fn held_after(held: Set<u16>, keys: Seq<(u16, bool)>) -> Set<u16>
    decreases keys.len(),
{
    if keys.len() == 0 {
        held
    } else {
        let before = held_after(held, keys.drop_last());
        if keys.last().1 {
            before.insert(keys.last().0)
        } else {
            before.remove(keys.last().0)
        }
    }
}

/// Whether a stroke is open after a list of transitions: as the pen button last said.
pub open spec fn stroke_after(active: bool, keys: Seq<(u16, bool)>, pen: u16) -> bool
    decreases keys.len(),
{
    if keys.len() == 0 {
        active
    } else if keys.last().0 == pen {
        keys.last().1
    } else {
        stroke_after(active, keys.drop_last(), pen)
    }
}

/// The position of `code`.
pub fn position(list: &Vec<u16>, code: u16) -> (r: Option<usize>)
    ensures
        match r {
            Some(i) => i < list@.len() && list@[i as int] == code && list@.contains(code),
            None => !list@.contains(code),
        },
{
    let mut i: usize = 0;
    while i < list.len()
        invariant
            i <= list.len(),
            forall|j: int| 0 <= j < i ==> list@[j] != code,
        decreases list.len() - i,
    {
        if list[i] == code {
            return Some(i);
        }
        i += 1;
    }
    None
}

pub fn has_code(list: &Vec<u16>, code: u16) -> (b: bool)
    ensures
        b == list@.contains(code),
{
    position(list, code).is_some()
}

proof fn lemma_swap_remove(s: Seq<u16>, i: int)
    requires
        0 <= i < s.len(),
        s.no_duplicates(),
    ensures
        s.update(i, s.last()).drop_last().no_duplicates(),
        s.update(i, s.last()).drop_last().to_set() == s.to_set().remove(s[i]),
{
    let t = s.update(i, s.last()).drop_last();
    assert forall|x: u16| #[trigger] t.to_set().contains(x) <==> s.to_set().remove(s[i]).contains(
        x,
    ) by {
        if t.to_set().contains(x) {
            let k = choose|k: int| 0 <= k < t.len() && t[k] == x;
            if k == i {
                assert(s[s.len() - 1] == x);
            } else {
                assert(s[k] == x);
            }
        }
        if s.to_set().remove(s[i]).contains(x) {
            let k = choose|k: int| 0 <= k < s.len() && s[k] == x;
            if k == s.len() - 1 {
                assert(t[i] == x);
            } else {
                assert(t[k] == x);
            }
        }
    }
    assert(t.to_set() =~= s.to_set().remove(s[i]));
}

impl Buttons {
    /// No button is listed as held twice.
    pub open spec fn wf(&self) -> bool {
        self.held@.no_duplicates()
    }

    /// Follow the transitions of a report, whatever else becomes of it.
    pub fn track_button(&mut self, keys: &Vec<(u16, bool)>, stroke_active: &mut bool)
        requires
            old(self).wf(),
        ensures
            final(self).wf(),
            final(self).pen == old(self).pen,
            final(self).mouse == old(self).mouse,
            final(self).keys == old(self).keys,
            final(self).held@.to_set() == held_after(old(self).held@.to_set(), keys@),
            *final(stroke_active) == stroke_after(*old(stroke_active), keys@, old(self).pen),
    {
        let mut i: usize = 0;
        assert(keys@.take(0) =~= Seq::<(u16, bool)>::empty());
        while i < keys.len()
            invariant
                i <= keys.len(),
                self.wf(),
                self.pen == old(self).pen,
                self.mouse == old(self).mouse,
                self.keys == old(self).keys,
                self.held@.to_set() == held_after(old(self).held@.to_set(), keys@.take(i as int)),
                *stroke_active == stroke_after(
                    *old(stroke_active),
                    keys@.take(i as int),
                    old(self).pen,
                ),
            decreases keys.len() - i,
        {
            let (code, pressed) = keys[i];
            let ghost now = keys@.take(i + 1);
            let ghost before = self.held@;
            proof {
                assert(now.drop_last() =~= keys@.take(i as int));
                assert(now.last() == keys@[i as int]);
            }
            if code == self.pen {
                *stroke_active = pressed;
            }
            match position(&self.held, code) {
                None => {
                    if pressed {
                        self.held.push(code);
                        proof {
                            assert(self.held@.to_set() =~= before.to_set().insert(code)) by {
                                assert forall|x: u16| #[trigger] self.held@.to_set().contains(
                                    x,
                                ) <==> before.to_set().insert(code).contains(x) by {
                                    if before.to_set().contains(x) {
                                        let k = choose|k: int|
                                            0 <= k < before.len() && before[k] == x;
                                        assert(self.held@[k] == x);
                                    }
                                    if x == code {
                                        assert(self.held@[before.len() as int] == x);
                                    }
                                    if self.held@.to_set().contains(x) {
                                        let k = choose|k: int|
                                            0 <= k < self.held@.len() && self.held@[k] == x;
                                        if k < before.len() {
                                            assert(before[k] == x);
                                        }
                                    }
                                }
                            }
                        }
                    } else {
                        assert(before.to_set().remove(code) =~= before.to_set());
                    }
                },
                Some(at) => {
                    if !pressed {
                        self.held.swap_remove(at);
                        proof {
                            lemma_swap_remove(before, at as int);
                        }
                    } else {
                        assert(before.to_set().insert(code) =~= before.to_set());
                    }
                },
            }
            i += 1;
        }
        assert(keys@.take(i as int) =~= keys@);
    }

    pub fn code_held(&self, code: u16) -> (b: bool)
        ensures
            b == is_held(*self, code),
    {
        if has_code(&self.mouse, code) {
            has_code(&self.held, code)
        } else {
            has_code(&self.keys, code)
        }
    }

    fn all_held(&self, chord: &Vec<u16>) -> (b: bool)
        ensures
            b == chord_held(*self, chord@),
    {
        let mut j: usize = 0;
        while j < chord.len()
            invariant
                j <= chord.len(),
                forall|k: int| 0 <= k < j ==> is_held(*self, #[trigger] chord@[k]),
            decreases chord.len() - j,
        {
            if !self.code_held(chord[j]) {
                return false;
            }
            j += 1;
        }
        chord.len() > 0
    }

    /// Whether any chord is fully held.
    pub fn any_held(&self, chords: &Vec<Vec<u16>>) -> (b: bool)
        ensures
            b == some_chord_held(*self, chords@),
    {
        let mut i: usize = 0;
        while i < chords.len()
            invariant
                i <= chords.len(),
                forall|k: int| 0 <= k < i ==> !chord_held(*self, (#[trigger] chords@[k])@),
            decreases chords.len() - i,
        {
            if self.all_held(&chords[i]) {
                assert(chord_held(*self, chords@[i as int]@));
                return true;
            }
            i += 1;
        }
        false
    }

    /// Whether *any* part of a binding is held: the halfway state of a chord, enough for a page
    /// to keep coasting, not enough to be steering it.
    pub fn partly_held(&self, chords: &Vec<Vec<u16>>) -> (b: bool)
        ensures
            b == some_part_held(*self, chords@),
    {
        let mut i: usize = 0;
        while i < chords.len()
            invariant
                i <= chords.len(),
                forall|k: int, j: int|
                    0 <= k < i && 0 <= j < chords@[k]@.len() ==> !is_held(
                        *self,
                        #[trigger] chords@[k]@[j],
                    ),
            decreases chords.len() - i,
        {
            let chord = &chords[i];
            let mut j: usize = 0;
            while j < chord.len()
                invariant
                    j <= chord.len(),
                    i < chords@.len(),
                    *chord == chords@[i as int],
                    forall|k: int| 0 <= k < j ==> !is_held(*self, #[trigger] chord@[k]),
                decreases chord.len() - j,
            {
                if self.code_held(chord[j]) {
                    assert(is_held(*self, chords@[i as int]@[j as int]));
                    return true;
                }
                j += 1;
            }
            i += 1;
        }
        false
    }

    /// The rest of `chord` beside `code` is held.
    fn rest_held(&self, chord: &Vec<u16>, code: u16) -> (b: bool)
        ensures
            b == rest_of_chord_held(*self, chord@, code),
    {
        let mut j: usize = 0;
        while j < chord.len()
            invariant
                j <= chord.len(),
                forall|k: int|
                    0 <= k < j ==> #[trigger] chord@[k] == code || is_held(*self, chord@[k]),
            decreases chord.len() - j,
        {
            if chord[j] != code && !self.code_held(chord[j]) {
                assert(!(chord@[j as int] == code || is_held(*self, chord@[j as int])));
                return false;
            }
            j += 1;
        }
        true
    }

    fn claimed_by(&self, chords: &Vec<Vec<u16>>, code: u16, only_active: bool) -> (b: bool)
        ensures
            b == some_chord_claims(*self, chords@, code, only_active),
    {
        let mut i: usize = 0;
        while i < chords.len()
            invariant
                i <= chords.len(),
                forall|k: int|
                    0 <= k < i ==> !chord_claims(
                        *self,
                        (#[trigger] chords@[k])@,
                        code,
                        only_active,
                    ),
            decreases chords.len() - i,
        {
            if has_code(&chords[i], code) && (!only_active || self.rest_held(&chords[i], code)) {
                assert(chord_claims(*self, chords@[i as int]@, code, only_active));
                return true;
            }
            i += 1;
        }
        false
    }

    /// Whether a bound mouse button should be withheld from the application.
    ///
    /// Only mouse buttons: a keyboard key is never emitted by this daemon, so there is nothing
    /// to withhold. Never the pen button: it is what starts a stroke, and a preset that also
    /// bound it to a gesture would otherwise silently lose the ability to draw.
    pub fn bound_to_gesture(&self, mode: &Mode, code: u16) -> (b: bool)
        ensures
            b == is_withheld(*self, *mode, code),
    {
        if !has_code(&self.mouse, code) || code == self.pen {
            return false;
        }
        match mode.passthrough {
            Passthrough::Always => false,
            Passthrough::Reserved => self.claimed_by(&mode.scroll_button, code, false)
                || self.claimed_by(&mode.modifier, code, false),
            // Taken only when the rest of its chord is already held, so a binding costs the
            // button nothing outside the exact combination that was chosen. For a single-button
            // binding there is no rest, so it is taken whenever bound.
            Passthrough::UnlessActive => self.claimed_by(&mode.scroll_button, code, true)
                || self.claimed_by(&mode.modifier, code, true),
        }
    }
}

/// Whether every part of a chord but `code` is held.
pub open spec fn rest_of_chord_held(b: Buttons, chord: Seq<u16>, code: u16) -> bool {
    forall|i: int| 0 <= i < chord.len() ==> #[trigger] chord[i] == code || is_held(b, chord[i])
}

/// Whether a chord has a claim to `code`: it is part of the chord and, where only an active
/// chord counts, the rest of it is held.
pub open spec fn chord_claims(b: Buttons, chord: Seq<u16>, code: u16, only_active: bool) -> bool {
    chord.contains(code) && (only_active ==> rest_of_chord_held(b, chord, code))
}

pub open spec fn some_chord_claims(
    b: Buttons,
    chords: Seq<Vec<u16>>,
    code: u16,
    only_active: bool,
) -> bool {
    exists|i: int|
        0 <= i < chords.len() && chord_claims(b, (#[trigger] chords[i])@, code, only_active)
}

/// Whether a mouse button is withheld from the application in a mode.
pub open spec fn is_withheld(b: Buttons, m: Mode, code: u16) -> bool {
    &&& b.mouse@.contains(code)
    &&& code != b.pen
    &&& match m.passthrough {
        Passthrough::Always => false,
        Passthrough::Reserved => some_chord_claims(b, m.scroll_button@, code, false)
            || some_chord_claims(b, m.modifier@, code, false),
        Passthrough::UnlessActive => some_chord_claims(b, m.scroll_button@, code, true)
            || some_chord_claims(b, m.modifier@, code, true),
    }
}

/// Without a binding nothing is held, so what waits for one is inert rather than stuck on.
pub proof fn law_an_empty_binding_is_never_held(b: Buttons, chords: Seq<Vec<u16>>)
    requires
        forall|i: int| 0 <= i < chords.len() ==> (#[trigger] chords[i])@.len() == 0,
    ensures
        !some_chord_held(b, chords),
        !some_part_held(b, chords),
{
}

/// A fully held chord is also partly held.
pub proof fn law_a_held_chord_is_partly_held(b: Buttons, chords: Seq<Vec<u16>>)
    requires
        some_chord_held(b, chords),
    ensures
        some_part_held(b, chords),
{
    let i = choose|i: int| 0 <= i < chords.len() && chord_held(b, (#[trigger] chords[i])@);
    assert(is_held(b, chords[i]@[0]));
}

/// A binding of single buttons has no halfway state.
pub proof fn law_single_buttons_have_no_halfway_state(b: Buttons, chords: Seq<Vec<u16>>)
    requires
        forall|i: int| 0 <= i < chords.len() ==> (#[trigger] chords[i])@.len() == 1,
    ensures
        some_chord_held(b, chords) == some_part_held(b, chords),
{
    if some_part_held(b, chords) {
        let (i, j) = choose|i: int, j: int|
            0 <= i < chords.len() && 0 <= j < chords[i]@.len() && is_held(
                b,
                #[trigger] chords[i]@[j],
            );
        assert(chord_held(b, chords[i]@));
    }
    if some_chord_held(b, chords) {
        law_a_held_chord_is_partly_held(b, chords);
    }
}

/// The pen button and every keyboard key always reach the application.
pub proof fn law_the_pen_button_is_never_withheld(b: Buttons, m: Mode, code: u16)
    requires
        code == b.pen || !b.mouse@.contains(code),
    ensures
        !is_withheld(b, m, code),
{
}

/// Reserving a button withholds at least as much as withholding it in its combination.
pub proof fn law_reserved_withholds_the_most(b: Buttons, m: Mode, reserved: Mode, code: u16)
    requires
        m.passthrough == Passthrough::UnlessActive,
        reserved.passthrough == Passthrough::Reserved,
        m.scroll_button == reserved.scroll_button,
        m.modifier == reserved.modifier,
        is_withheld(b, m, code),
    ensures
        is_withheld(b, reserved, code),
{
    if some_chord_claims(b, m.scroll_button@, code, true) {
        let i = choose|i: int|
            0 <= i < m.scroll_button@.len() && chord_claims(
                b,
                (#[trigger] m.scroll_button@[i])@,
                code,
                true,
            );
        assert(chord_claims(b, m.scroll_button@[i]@, code, false));
    } else {
        let i = choose|i: int|
            0 <= i < m.modifier@.len() && chord_claims(
                b,
                (#[trigger] m.modifier@[i])@,
                code,
                true,
            );
        assert(chord_claims(b, m.modifier@[i]@, code, false));
    }
}

/// Pressing and releasing a button within one report leaves it released.
pub proof fn law_a_release_undoes_a_press(held: Set<u16>, code: u16)
    ensures
        held_after(held, seq![(code, true), (code, false)]) == held.remove(code),
{
    let keys = seq![(code, true), (code, false)];
    reveal_with_fuel(held_after, 3);
    assert(keys.drop_last() =~= seq![(code, true)]);
    assert(seq![(code, true)].drop_last() =~= Seq::<(u16, bool)>::empty());
    assert(held_after(held, seq![(code, true)]) == held.insert(code));
    assert(held.insert(code).remove(code) =~= held.remove(code));
}

/// A bound mouse button is withheld. In a mode that reserves its buttons that is always so, and
/// else once every other part of the chord is held.
pub proof fn law_a_bound_button_is_withheld(b: Buttons, m: Mode, chord: Vec<u16>, code: u16)
    requires
        b.mouse@.contains(code),
        code != b.pen,
        m.scroll_button@.contains(chord) || m.modifier@.contains(chord),
        chord@.contains(code),
        m.passthrough == Passthrough::Reserved || (m.passthrough == Passthrough::UnlessActive
            && forall|j: int|
            0 <= j < chord@.len() ==> #[trigger] chord@[j] == code || (b.mouse@.contains(chord@[j])
                && b.held@.contains(chord@[j])) || (!b.mouse@.contains(chord@[j])
                && b.keys@.contains(chord@[j]))),
    ensures
        is_withheld(b, m, code),
{
    let reserved = m.passthrough == Passthrough::Reserved;
    assert(chord_claims(b, chord@, code, !reserved));
    if m.scroll_button@.contains(chord) {
        let i = choose|i: int| 0 <= i < m.scroll_button@.len() && m.scroll_button@[i] == chord;
        assert(chord_claims(b, m.scroll_button@[i]@, code, !reserved));
    } else {
        let i = choose|i: int| 0 <= i < m.modifier@.len() && m.modifier@[i] == chord;
        assert(chord_claims(b, m.modifier@[i]@, code, !reserved));
    }
}

/// Whether some chord of a binding has `code` for a part while no other part of it is loose.
pub open spec fn within_reach(b: Buttons, chords: Seq<Vec<u16>>, code: u16, reserved: bool) -> bool {
    exists|i: int|
        #![trigger chords[i]]
        0 <= i < chords.len() && chords[i]@.contains(code) && (reserved || forall|j: int|
            0 <= j < chords[i]@.len() ==> #[trigger] chords[i]@[j] == code || (b.mouse@.contains(
                chords[i]@[j],
            ) && b.held@.contains(chords[i]@[j])) || (!b.mouse@.contains(chords[i]@[j])
                && b.keys@.contains(chords[i]@[j])))
}

/// Only a bound mouse button is withheld: never the pen's, never a key, never one that no chord
/// of the mode names, and none at all in a mode that passes its buttons on.
pub proof fn law_only_a_bound_button_is_withheld(b: Buttons, m: Mode, code: u16)
    requires
        is_withheld(b, m, code),
    ensures
        b.mouse@.contains(code),
        code != b.pen,
        m.passthrough != Passthrough::Always,
        within_reach(b, m.scroll_button@, code, m.passthrough == Passthrough::Reserved)
            || within_reach(b, m.modifier@, code, m.passthrough == Passthrough::Reserved),
{
    let reserved = m.passthrough == Passthrough::Reserved;
    if some_chord_claims(b, m.scroll_button@, code, !reserved) {
        let i = choose|i: int|
            0 <= i < m.scroll_button@.len() && chord_claims(
                b,
                (#[trigger] m.scroll_button@[i])@,
                code,
                !reserved,
            );
        lemma_in_reach(b, m.scroll_button@, code, reserved, i);
    } else {
        let i = choose|i: int|
            0 <= i < m.modifier@.len() && chord_claims(
                b,
                (#[trigger] m.modifier@[i])@,
                code,
                !reserved,
            );
        lemma_in_reach(b, m.modifier@, code, reserved, i);
    }
}

proof fn lemma_in_reach(b: Buttons, chords: Seq<Vec<u16>>, code: u16, reserved: bool, i: int)
    requires
        0 <= i < chords.len(),
        chord_claims(b, chords[i]@, code, !reserved),
    ensures
        within_reach(b, chords, code, reserved),
{
    if !reserved {
        assert forall|j: int| 0 <= j < chords[i]@.len() implies #[trigger] chords[i]@[j] == code || (
        b.mouse@.contains(chords[i]@[j]) && b.held@.contains(chords[i]@[j])) || (!b.mouse@.contains(
            chords[i]@[j],
        ) && b.keys@.contains(chords[i]@[j])) by {
            assert(chords[i]@[j] == code || is_held(b, chords[i]@[j]));
        }
    }
}

/// A binding is held exactly where some chord of it has every part held: a mouse button by the
/// mouse, a key by a keyboard, and never one by the other.
pub proof fn law_a_chord_needs_every_part(b: Buttons, chords: Seq<Vec<u16>>)
    ensures
        some_chord_held(b, chords) <==> exists|i: int|
            0 <= i < chords.len() && (#[trigger] chords[i])@.len() > 0 && chords[i]@.to_set()
                .subset_of(held_codes(b)),
        some_part_held(b, chords) <==> exists|i: int|
            0 <= i < chords.len() && !(#[trigger] chords[i])@.to_set().disjoint(held_codes(b)),
{
    if some_chord_held(b, chords) {
        let i = choose|i: int| 0 <= i < chords.len() && chord_held(b, (#[trigger] chords[i])@);
        assert forall|c: u16| chords[i]@.to_set().contains(c) implies #[trigger] held_codes(
            b,
        ).contains(c) by {
            let j = choose|j: int| 0 <= j < chords[i]@.len() && chords[i]@[j] == c;
            assert(is_held(b, chords[i]@[j]));
        }
        assert(chords[i]@.to_set().subset_of(held_codes(b)));
    }
    if exists|i: int|
        0 <= i < chords.len() && (#[trigger] chords[i])@.len() > 0 && chords[i]@.to_set().subset_of(
            held_codes(b),
        ) {
        let i = choose|i: int|
            0 <= i < chords.len() && (#[trigger] chords[i])@.len() > 0
                && chords[i]@.to_set().subset_of(held_codes(b));
        assert forall|j: int| 0 <= j < chords[i]@.len() implies is_held(
            b,
            #[trigger] chords[i]@[j],
        ) by {
            assert(chords[i]@.to_set().contains(chords[i]@[j]));
            assert(held_codes(b).contains(chords[i]@[j]));
        }
        assert(chord_held(b, chords[i]@));
    }
    if some_part_held(b, chords) {
        let (i, j) = choose|i: int, j: int|
            0 <= i < chords.len() && 0 <= j < chords[i]@.len() && is_held(
                b,
                #[trigger] chords[i]@[j],
            );
        let c = chords[i]@[j];
        assert(chords[i]@.to_set().contains(c) && held_codes(b).contains(c));
        assert(!chords[i]@.to_set().disjoint(held_codes(b)));
    }
    if exists|i: int|
        0 <= i < chords.len() && !(#[trigger] chords[i])@.to_set().disjoint(held_codes(b)) {
        let i = choose|i: int|
            0 <= i < chords.len() && !(#[trigger] chords[i])@.to_set().disjoint(held_codes(b));
        let c = choose|c: u16| chords[i]@.to_set().contains(c) && held_codes(b).contains(c);
        let j = choose|j: int| 0 <= j < chords[i]@.len() && chords[i]@[j] == c;
        assert(is_held(b, chords[i]@[j]));
    }
}

/// The mouse buttons that the mouse holds down, and the other codes that a keyboard does.
pub open spec fn held_codes(b: Buttons) -> Set<u16> {
    b.held@.to_set().intersect(b.mouse@.to_set()).union(
        b.keys@.to_set().difference(b.mouse@.to_set()),
    )
}

/// What a list of transitions leaves held: of each code, what its last transition says, and where
/// there is none, what was so before.
pub proof fn law_the_last_transition_counts(
    held: Set<u16>,
    active: bool,
    keys: Seq<(u16, bool)>,
    code: u16,
)
    ensures
        (forall|i: int| 0 <= i < keys.len() ==> (#[trigger] keys[i]).0 != code) ==> (held_after(
            held,
            keys,
        ).contains(code) == held.contains(code) && stroke_after(active, keys, code) == active),
        forall|i: int|
            0 <= i < keys.len() && (#[trigger] keys[i]).0 == code && (forall|j: int|
                i < j < keys.len() ==> (#[trigger] keys[j]).0 != code) ==> held_after(
                held,
                keys,
            ).contains(code) == keys[i].1 && stroke_after(active, keys, code) == keys[i].1,
    decreases keys.len(),
{
    if keys.len() > 0 {
        let rest = keys.drop_last();
        law_the_last_transition_counts(held, active, rest, code);
        assert forall|i: int|
            0 <= i < keys.len() && (#[trigger] keys[i]).0 == code && (forall|j: int|
                i < j < keys.len() ==> (#[trigger] keys[j]).0 != code) implies held_after(
            held,
            keys,
        ).contains(code) == keys[i].1 && stroke_after(active, keys, code) == keys[i].1 by {
            if i < keys.len() - 1 {
                assert(rest[i] == keys[i]);
                assert(keys[keys.len() - 1].0 != code);
                assert forall|j: int| i < j < rest.len() implies (#[trigger] rest[j]).0 != code by {
                    assert(rest[j] == keys[j]);
                }
            }
        }
        if forall|i: int| 0 <= i < keys.len() ==> (#[trigger] keys[i]).0 != code {
            assert forall|i: int| 0 <= i < rest.len() implies (#[trigger] rest[i]).0 != code by {
                assert(rest[i] == keys[i]);
            }
            assert(keys[keys.len() - 1].0 != code);
        }
    }
}

} // verus!
