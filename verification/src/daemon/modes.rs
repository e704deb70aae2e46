//! Mode slots and the switching rules.
//!
//! Mode switching is the **headline interaction**: hotkey, mid-task, dozens of times a session.
//! Everything here exists to make that instant and predictable. The pipeline of every slot is
//! built up front and kept by slot number; switching is an index change, never a config load.

use crate::config::schema::{Output, Passthrough};
use crate::text::{decimal, number, owned};
use vstd::prelude::*;
use vstd::string::*;

verus! {

#[derive(Debug)]
pub struct Mode {
    pub name: String,
    pub output: Output,
    pub preset: String,
    /// Chords that engage this mode's scroll gesture. Any chord, all of its parts.
    pub scroll_button: Vec<Vec<u16>>,
    /// Chords that engage this mode's constrain modifier.
    ///
    /// The outer list is alternatives, and each inner list must be held together.
    pub modifier: Vec<Vec<u16>>,
    /// Chords that hand the physical wheel to the scroll stage while held.
    pub wheel_binding: Vec<Vec<u16>>,
    /// What a bound mouse button still does for the application.
    pub passthrough: Passthrough,
}

/// What a binding can ask for. Each is separately bindable.
#[derive(Debug, Clone, Copy, PartialEq, Eq, Structural)]
pub enum Action {
    Cycle,
    CyclePrev,
    Flip,
    /// 1-based slot number.
    Select(usize),
}

#[derive(Debug)]
pub enum Switch {
    Applied(Applied),
    /// Held until the current stroke ends.
    Deferred(usize),
}

/// A switch that took effect. The pipeline of slot `to` starts from a clean state.
#[derive(Debug)]
pub struct Applied {
    pub from: usize,
    pub to: usize,
    pub name: String,
    pub output: Output,
    /// True when leaving tablet output, so the pen can be taken out of proximity.
    pub left_tablet: bool,
}

/// A slot as the bus describes it.
#[derive(Debug)]
pub struct ModeInfo {
    /// 1-based, matching what the user sees.
    pub slot: u32,
    pub name: String,
    pub output: String,
    pub preset: String,
}

pub struct Modes {
    slots: Vec<Mode>,
    current: usize,
    last_used: Option<usize>,
    /// A switch asked for mid-stroke, held until the stroke ends.
    pending: Option<usize>,
}

/// The view of [`Modes`].
pub struct ModesState {
    pub slots: Seq<Mode>,
    pub current: int,
    pub last_used: Option<int>,
    pub pending: Option<int>,
}

pub open spec fn slot_of(i: Option<usize>) -> Option<int> {
    match i {
        Some(i) => Some(i as int),
        None => None,
    }
}

impl View for Modes {
    type V = ModesState;

    closed spec fn view(&self) -> ModesState {
        ModesState {
            slots: self.slots@,
            current: self.current as int,
            last_used: slot_of(self.last_used),
            pending: slot_of(self.pending),
        }
    }
}

/// Every slot number that is remembered is one.
pub open spec fn in_range(s: ModesState) -> bool {
    &&& 0 <= s.current
    &&& s.slots.len() > 0 ==> s.current < s.slots.len()
    &&& s.slots.len() == 0 ==> s.current == 0
    &&& s.last_used matches Some(i) ==> 0 <= i < s.slots.len()
    &&& s.pending matches Some(i) ==> 0 <= i < s.slots.len()
}

pub open spec fn output_name(o: Output) -> Seq<char> {
    match o {
        Output::Mouse => "Mouse"@,
        Output::Tablet => "Tablet"@,
        Output::Relative => "Relative"@,
    }
}

pub open spec fn output_key(o: Output) -> Seq<char> {
    match o {
        Output::Mouse => "mouse"@,
        Output::Tablet => "tablet"@,
        Output::Relative => "relative"@,
    }
}

/// The output's name as it is shown.
pub fn output_label(o: Output) -> (s: &'static str)
    ensures
        s@ == output_name(o),
{
    match o {
        Output::Mouse => "Mouse",
        Output::Tablet => "Tablet",
        Output::Relative => "Relative",
    }
}

/// The output's name as files and the bus write it.
pub fn output_word(o: Output) -> (s: &'static str)
    ensures
        s@ == output_key(o),
{
    match o {
        Output::Mouse => "mouse",
        Output::Tablet => "tablet",
        Output::Relative => "relative",
    }
}

/// The slot after the current one, the first after the last.
pub open spec fn next_slot(s: ModesState) -> Option<int> {
    if s.slots.len() > 1 {
        Some((s.current + 1) % (s.slots.len() as int))
    } else {
        None
    }
}

/// The slot before the current one, the last before the first.
pub open spec fn previous_slot(s: ModesState) -> Option<int> {
    if s.slots.len() > 1 {
        Some((s.current + s.slots.len() - 1) % (s.slots.len() as int))
    } else {
        None
    }
}

/// Where an action would land.
pub open spec fn target(s: ModesState, action: Action) -> Option<int> {
    match action {
        Action::Cycle => next_slot(s),
        Action::CyclePrev => previous_slot(s),
        Action::Flip => match s.last_used {
            Some(i) => if i != s.current {
                Some(i)
            } else {
                next_slot(s)
            },
            None => next_slot(s),
        },
        Action::Select(n) => if 1 <= n <= s.slots.len() && n - 1 != s.current {
            Some(n - 1)
        } else {
            None
        },
    }
}

/// The state after switching to slot `to`.
pub open spec fn switched(s: ModesState, to: int) -> ModesState {
    ModesState { current: to, last_used: Some(s.current), ..s }
}

/// Whether `a` describes the switch of `s` to slot `to`.
pub open spec fn is_applied(a: Applied, s: ModesState, to: int) -> bool {
    &&& a.from == s.current
    &&& a.to == to
    &&& a.name@ == s.slots[to].name@
    &&& a.output == s.slots[to].output
    &&& a.left_tablet == (s.slots[s.current].output == Output::Tablet && s.slots[to].output
        != Output::Tablet)
}

/// The line that shows slot `i`.
pub open spec fn slot_line(m: Mode, i: int) -> Seq<char> {
    decimal((i + 1) as nat) + ": "@ + m.name@ + " — "@ + output_name(m.output) + " via '"@
        + m.preset@ + "'"@
}

/// Whether `info` describes slot `i`.
pub open spec fn is_info(info: ModeInfo, m: Mode, i: int) -> bool {
    &&& info.slot == (i + 1) as u32
    &&& info.name@ == m.name@
    &&& info.output@ == output_key(m.output)
    &&& info.preset@ == m.preset@
}

proof fn lemma_next(c: int, n: int)
    requires
        0 <= c < n,
        n > 1,
    ensures
        (c + 1) % n == if c + 1 < n {
            c + 1
        } else {
            0
        },
{
    if c + 1 < n {
        assert((c + 1) % n == c + 1) by (nonlinear_arith)
            requires
                0 <= c,
                c + 1 < n,
        ;
    } else {
        assert((c + 1) % n == 0) by (nonlinear_arith)
            requires
                c + 1 == n,
                n > 1,
        ;
    }
}

proof fn lemma_previous(c: int, n: int)
    requires
        0 <= c < n,
        n > 1,
    ensures
        (c + n - 1) % n == if c > 0 {
            c - 1
        } else {
            n - 1
        },
{
    if c > 0 {
        assert((c + n - 1) % n == c - 1) by (nonlinear_arith)
            requires
                0 < c < n,
        ;
    } else {
        assert((c + n - 1) % n == n - 1) by (nonlinear_arith)
            requires
                c == 0,
                n > 1,
        ;
    }
}

/// The slot that a set of slots starts in: the one asked for, or the last where there are fewer.
pub open spec fn first_slot(total: int, wanted: int) -> int {
    if total == 0 {
        0
    } else if wanted < total {
        wanted
    } else {
        total - 1
    }
}

impl Modes {
    #[verifier::type_invariant]
    closed spec fn inv(&self) -> bool {
        in_range(self@)
    }

    pub fn new(slots: Vec<Mode>, default_index: usize) -> (r: Self)
        ensures
            r@.slots == slots@,
            r@.current == first_slot(slots@.len() as int, default_index as int),
            r@.last_used is None,
            r@.pending is None,
    {
        let current: usize = if slots.len() == 0 {
            0
        } else if default_index < slots.len() {
            default_index
        } else {
            slots.len() - 1
        };
        Modes { slots, current, last_used: None, pending: None }
    }

    /// Every slot number that is remembered is one.
    pub fn stays_in_range(&self)
        ensures
            in_range(self@),
    {
        proof {
            use_type_invariant(self);
        }
    }

    /// The slots as the bus describes them.
    pub fn infos(&self) -> (r: Vec<ModeInfo>)
        ensures
            r@.len() == self@.slots.len(),
            forall|i: int|
                0 <= i < r@.len() ==> is_info(#[trigger] r@[i], self@.slots[i], i),
    {
        let mut r: Vec<ModeInfo> = Vec::new();
        let mut i: usize = 0;
        while i < self.slots.len()
            invariant
                i <= self.slots.len(),
                self.slots@ == self@.slots,
                r@.len() == i,
                forall|j: int| 0 <= j < i ==> is_info(#[trigger] r@[j], self@.slots[j], j),
            decreases self.slots.len() - i,
        {
            let m = &self.slots[i];
            r.push(
                ModeInfo {
                    slot: #[verifier::truncate] ((i + 1) as u32),
                    name: owned(m.name.as_str()),
                    output: owned(output_word(m.output)),
                    preset: owned(m.preset.as_str()),
                },
            );
            i += 1;
        }
        r
    }

    pub fn current_index(&self) -> (r: usize)
        ensures
            r == self@.current,
    {
        self.current
    }

    pub fn current(&self) -> (r: Option<&Mode>)
        ensures
            r is Some <==> self@.slots.len() > 0,
            r matches Some(m) ==> *m == self@.slots[self@.current],
    {
        proof {
            use_type_invariant(self);
        }
        if self.slots.len() > 0 {
            Some(&self.slots[self.current])
        } else {
            None
        }
    }

    /// Every slot, for callers that must consider all modes rather than the current one.
    pub fn slots(&self) -> (r: &Vec<Mode>)
        ensures
            r@ == self@.slots,
    {
        &self.slots
    }

    /// One line per slot.
    pub fn names(&self) -> (r: Vec<String>)
        ensures
            r@.len() == self@.slots.len(),
            forall|i: int|
                0 <= i < r@.len() ==> (#[trigger] r@[i])@ == slot_line(self@.slots[i], i),
    {
        let mut r: Vec<String> = Vec::new();
        let mut i: usize = 0;
        while i < self.slots.len()
            invariant
                i <= self.slots.len(),
                self.slots@ == self@.slots,
                r@.len() == i,
                forall|j: int| 0 <= j < i ==> (#[trigger] r@[j])@ == slot_line(self@.slots[j], j),
            decreases self.slots.len() - i,
        {
            let m = &self.slots[i];
            r.push(
                number((i + 1) as u64).concat(": ").concat(m.name.as_str()).concat(" — ").concat(
                    output_label(m.output),
                ).concat(" via '").concat(m.preset.as_str()).concat("'"),
            );
            i += 1;
        }
        r
    }

    fn next(&self) -> (r: Option<usize>)
        ensures
            slot_of(r) == next_slot(self@),
    {
        proof {
            use_type_invariant(self);
            if self@.slots.len() > 1 {
                lemma_next(self@.current, self@.slots.len() as int);
            }
        }
        if self.slots.len() > 1 {
            if self.current + 1 < self.slots.len() {
                Some(self.current + 1)
            } else {
                Some(0)
            }
        } else {
            None
        }
    }

    fn previous(&self) -> (r: Option<usize>)
        ensures
            slot_of(r) == previous_slot(self@),
    {
        proof {
            use_type_invariant(self);
            if self@.slots.len() > 1 {
                lemma_previous(self@.current, self@.slots.len() as int);
            }
        }
        if self.slots.len() > 1 {
            if self.current > 0 {
                Some(self.current - 1)
            } else {
                Some(self.slots.len() - 1)
            }
        } else {
            None
        }
    }

    /// Where an action would land, without applying it.
    ///
    /// **Cycling is the default and nothing here depends on timing.**
    pub fn target_for(&self, action: Action) -> (r: Option<usize>)
        ensures
            slot_of(r) == target(self@, action),
            r matches Some(i) ==> i < self@.slots.len(),
    {
        proof {
            use_type_invariant(self);
        }
        match action {
            Action::Cycle => self.next(),
            Action::CyclePrev => self.previous(),
            // Back and forth. Falls back to cycling the first time, when there is no history.
            Action::Flip => match self.last_used {
                Some(i) => if i != self.current {
                    Some(i)
                } else {
                    self.next()
                },
                None => self.next(),
            },
            Action::Select(one_based) => if 1 <= one_based && one_based <= self.slots.len()
                && one_based - 1 != self.current {
                Some(one_based - 1)
            } else {
                None
            },
        }
    }

    /// Perform an action, deferring it if a stroke is open.
    ///
    /// **A request during a stroke is held to the stroke's end.** Switching output type
    /// mid-stroke would leave a pen stuck down in the target application.
    pub fn request(&mut self, action: Action, stroke_active: bool) -> (r: Option<Switch>)
        ensures
            r is None <==> target(old(self)@, action) is None,
            match r {
                None => final(self)@ == old(self)@,
                Some(Switch::Deferred(to)) => {
                    &&& stroke_active
                    &&& target(old(self)@, action) == Some(to as int)
                    &&& final(self)@ == (ModesState { pending: Some(to as int), ..old(self)@ })
                },
                Some(Switch::Applied(a)) => {
                    &&& !stroke_active
                    &&& target(old(self)@, action) == Some(a.to as int)
                    &&& is_applied(a, old(self)@, a.to as int)
                    &&& final(self)@ == switched(old(self)@, a.to as int)
                },
            },
    {
        proof {
            use_type_invariant(&*self);
        }
        match self.target_for(action) {
            None => None,
            Some(to) => {
                if stroke_active {
                    self.pending = Some(to);
                    return Some(Switch::Deferred(to));
                }
                Some(Switch::Applied(self.apply(to)))
            },
        }
    }

    /// Apply a deferred switch, if one is waiting. Called when a stroke ends.
    pub fn take_pending(&mut self) -> (r: Option<Applied>)
        ensures
            r is Some <==> old(self)@.pending is Some,
            r is None ==> final(self)@ == old(self)@,
            r matches Some(a) ==> {
                let to = old(self)@.pending->0;
                &&& is_applied(a, old(self)@, to)
                &&& final(self)@ == switched(ModesState { pending: None, ..old(self)@ }, to)
            },
    {
        proof {
            use_type_invariant(&*self);
        }
        match self.pending {
            None => None,
            Some(to) => {
                self.pending = None;
                Some(self.apply(to))
            },
        }
    }

    /// Switch to slot `target`.
    pub fn apply(&mut self, target: usize) -> (r: Applied)
        requires
            target < old(self)@.slots.len(),
        ensures
            is_applied(r, old(self)@, target as int),
            final(self)@ == switched(old(self)@, target as int),
    {
        proof {
            use_type_invariant(&*self);
        }
        let from = self.current;
        let left_tablet = self.slots[from].output == Output::Tablet && self.slots[target].output
            != Output::Tablet;
        let name = owned(self.slots[target].name.as_str());
        let output = self.slots[target].output;
        self.last_used = Some(from);
        self.current = target;
        Applied { from, to: target, name, output, left_tablet }
    }
}

/// The state after cycling `n` times.
pub open spec fn cycled(s: ModesState, n: nat) -> ModesState
    decreases n,
{
    if n == 0 {
        s
    } else {
        let before = cycled(s, (n - 1) as nat);
        switched(before, next_slot(before)->0)
    }
}

/// Cycling visits the slots in order and wraps: after `n` steps the current slot is `n` further,
/// modulo the number of slots.
pub proof fn law_cycling_visits_every_slot_and_wraps(s: ModesState, n: nat)
    requires
        in_range(s),
        s.slots.len() > 1,
    ensures
        cycled(s, n).slots == s.slots,
        cycled(s, n).current == (s.current + n) % (s.slots.len() as int),
    decreases n,
{
    let len = s.slots.len() as int;
    if n == 0 {
        assert(s.current % len == s.current) by (nonlinear_arith)
            requires
                0 <= s.current < len,
        ;
    } else {
        law_cycling_visits_every_slot_and_wraps(s, (n - 1) as nat);
        let k = s.current + n - 1;
        assert((k % len + 1) % len == (k + 1) % len) by (nonlinear_arith)
            requires
                len > 1,
        ;
    }
}

/// Going back undoes going forward, and the other way round.
pub proof fn law_previous_undoes_next(s: ModesState)
    requires
        in_range(s),
        s.slots.len() > 1,
    ensures
        previous_slot(switched(s, next_slot(s)->0)) == Some(s.current),
        next_slot(switched(s, previous_slot(s)->0)) == Some(s.current),
{
    let n = s.slots.len() as int;
    lemma_next(s.current, n);
    lemma_previous(s.current, n);
    lemma_next(previous_slot(s)->0, n);
    lemma_previous(next_slot(s)->0, n);
}

/// A flip after a switch returns to where it came from, and a second flip goes back again.
pub proof fn law_flip_goes_back_and_forth(s: ModesState, to: int)
    requires
        in_range(s),
        0 <= to < s.slots.len(),
        to != s.current,
    ensures
        target(switched(s, to), Action::Flip) == Some(s.current),
        target(switched(switched(s, to), s.current), Action::Flip) == Some(to),
{
}

/// An action never lands on the slot that is already current.
pub proof fn law_a_switch_always_moves(s: ModesState, action: Action)
    requires
        in_range(s),
        target(s, action) is Some,
    ensures
        target(s, action)->0 != s.current,
        0 <= target(s, action)->0 < s.slots.len(),
{
    let n = s.slots.len() as int;
    if n > 1 {
        lemma_next(s.current, n);
        lemma_previous(s.current, n);
    }
}

/// A profile with a single mode has nothing to switch to.
pub proof fn law_a_single_mode_has_nothing_to_switch_to(s: ModesState, action: Action)
    requires
        in_range(s),
        s.slots.len() == 1,
    ensures
        target(s, action) is None,
{
}

/// Each action goes where its name says: to the slot after the current one and from the last to
/// the first, to the one before it and from the first to the last, to the slot that was used
/// before, or to the slot that is counted off from one. There is nothing to do where that is the
/// current slot or no slot at all.
pub proof fn law_an_action_goes_where_it_says(s: ModesState, n: usize)
    requires
        in_range(s),
        s.slots.len() > 1,
    ensures
        s.current < s.slots.len() - 1 ==> target(s, Action::Cycle) == Some(s.current + 1),
        s.current == s.slots.len() - 1 ==> target(s, Action::Cycle) == Some(0int),
        s.current > 0 ==> target(s, Action::CyclePrev) == Some(s.current - 1),
        s.current == 0 ==> target(s, Action::CyclePrev) == Some(s.slots.len() - 1),
        s.last_used matches Some(i) ==> i != s.current ==> target(s, Action::Flip) == Some(i),
        s.last_used is None ==> target(s, Action::Flip) == target(s, Action::Cycle),
        n == 0 || n > s.slots.len() ==> target(s, Action::Select(n)) is None,
        n == s.current + 1 ==> target(s, Action::Select(n)) is None,
        1 <= n <= s.slots.len() && n != s.current + 1 ==> target(s, Action::Select(n)) == Some(
            n - 1,
        ),
{
    lemma_next(s.current, s.slots.len() as int);
    lemma_previous(s.current, s.slots.len() as int);
}

/// A switch makes its slot the current one and remembers the one it left; slots and what is
/// waiting stay. What is said of it names both and the mode that is now in force, and it leaves
/// the tablet exactly where the old mode drew and the new one does not.
pub proof fn law_a_switch_is_what_is_said_of_it(s: ModesState, to: int, a: Applied)
    requires
        in_range(s),
        0 <= to < s.slots.len(),
        is_applied(a, s, to),
    ensures
        switched(s, to).current == to,
        switched(s, to).last_used == Some(s.current),
        switched(s, to).slots == s.slots,
        switched(s, to).pending == s.pending,
        in_range(switched(s, to)),
        a.from == s.current,
        a.to == switched(s, to).current,
        a.name@ == s.slots[to].name@,
        a.output == s.slots[to].output,
        a.left_tablet ==> s.slots[s.current].output == Output::Tablet && a.output
            != Output::Tablet,
        s.slots[s.current].output == Output::Tablet && (a.output == Output::Mouse || a.output
            == Output::Relative) ==> a.left_tablet,
{
}

/// The outputs have names of their own, which say what they are.
pub proof fn law_outputs_are_told_apart(a: Output, b: Output)
    ensures
        output_name(a) == output_name(b) ==> a == b,
        output_key(a) == output_key(b) ==> a == b,
        output_key(a) == "tablet"@ <==> a == Output::Tablet,
        output_key(a) == "relative"@ <==> a == Output::Relative,
        output_name(a) == "Tablet"@ <==> a == Output::Tablet,
        output_name(a) == "Relative"@ <==> a == Output::Relative,
{
    reveal_strlit("Mouse");
    reveal_strlit("Tablet");
    reveal_strlit("Relative");
    reveal_strlit("mouse");
    reveal_strlit("tablet");
    reveal_strlit("relative");
    assert("Mouse"@.len() == 5 && "Tablet"@.len() == 6 && "Relative"@.len() == 8);
    assert("mouse"@.len() == 5 && "tablet"@.len() == 6 && "relative"@.len() == 8);
}

/// A set of slots starts in the one asked for wherever it is there, and else in its last.
pub proof fn law_slots_start_where_they_are_told_to(total: int, wanted: int)
    requires
        total >= 1,
        wanted >= 0,
    ensures
        wanted < total ==> first_slot(total, wanted) == wanted,
        wanted >= total ==> first_slot(total, wanted) == total - 1,
        0 <= first_slot(total, wanted) < total,
{
}

/// What is said of a slot is its number, counted from one, its name, its output and its preset.
pub proof fn law_a_slot_is_described_as_it_is(info: ModeInfo, m: Mode, i: int)
    requires
        is_info(info, m, i),
        0 <= i < u32::MAX,
    ensures
        info.slot == i + 1,
        info.name@ == m.name@,
        info.preset@ == m.preset@,
        info.output@ == "tablet"@ <==> m.output == Output::Tablet,
        info.output@ == "mouse"@ <==> m.output == Output::Mouse,
{
    law_outputs_are_told_apart(m.output, Output::Mouse);
}

/// The line of a slot gives its number, counted from one, its name, its output and its preset.
pub proof fn law_the_line_of_a_slot_is_whole(m: Mode, i: int)
    requires
        i >= 0,
    ensures
        decimal((i + 1) as nat).is_prefix_of(slot_line(m, i)),
        slot_line(m, i) == decimal((i + 1) as nat) + seq![':', ' '] + m.name@ + seq![' ', '—', ' ']
            + output_name(m.output) + seq![' ', 'v', 'i', 'a', ' ', '\''] + m.preset@ + seq!['\''],
{
    reveal_strlit(": ");
    reveal_strlit(" — ");
    reveal_strlit(" via '");
    reveal_strlit("'");
    let d = decimal((i + 1) as nat);
    assert(slot_line(m, i) =~= d + seq![':', ' '] + m.name@ + seq![' ', '—', ' '] + output_name(
        m.output,
    ) + seq![' ', 'v', 'i', 'a', ' ', '\''] + m.preset@ + seq!['\'']);
    assert(slot_line(m, i).take(d.len() as int) =~= d);
}

} // verus!
