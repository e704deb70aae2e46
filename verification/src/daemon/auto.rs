//! The `auto_activate` rules: which mode a window asks for.
//!
//! A rule fires when the position *enters* a window, not for every sample spent inside it.
//! Switching by hand while over a ruled window overrules that window's rule for as long as the
//! position stays there; leaving and returning restores the rule's authority.

use crate::text::{eq_ignoring_case, opt_view, owned, same_ignoring_case, same_text};
use vstd::prelude::*;

verus! {

/// The state machine behind `auto_activate`.
#[derive(Debug)]
pub struct AutoSwitch {
    /// Window class to 1-based mode slot.
    rules: Vec<(String, usize)>,
    last_class: Option<String>,
    overruled: Option<String>,
}

/// The rules as pairs of a class and a slot.
pub open spec fn rule_views(rules: Seq<(String, usize)>) -> Seq<(Seq<char>, usize)> {
    rules.map_values(|r: (String, usize)| (r.0@, r.1))
}

/// What the state machine is made of.
pub struct AutoState {
    pub rules: Seq<(Seq<char>, usize)>,
    pub last_class: Option<Seq<char>>,
    pub overruled: Option<Seq<char>>,
}

/// The slot of the first rule for `class`.
pub open spec fn rule_for(rules: Seq<(Seq<char>, usize)>, class: Seq<char>) -> Option<usize>
    decreases rules.len(),
{
    if rules.len() == 0 {
        None
    } else if same_ignoring_case(rules[0].0, class) {
        Some(rules[0].1)
    } else {
        rule_for(rules.drop_first(), class)
    }
}

/// The state after the position is seen over `class`.
pub open spec fn entered(s: AutoState, class: Seq<char>) -> AutoState {
    if s.rules.len() == 0 || class.len() == 0 || s.last_class == Some(class) {
        s
    } else if s.overruled == Some(class) {
        AutoState { last_class: Some(class), ..s }
    } else {
        AutoState { last_class: Some(class), overruled: None, ..s }
    }
}

/// The slot asked for when the position is seen over `class`.
pub open spec fn asked(s: AutoState, class: Seq<char>) -> Option<usize> {
    if s.rules.len() == 0 || class.len() == 0 || s.last_class == Some(class) || s.overruled == Some(
        class,
    ) {
        None
    } else {
        rule_for(s.rules, class)
    }
}

/// The state after the user switched by hand over `class`.
pub open spec fn overruled_in(s: AutoState, class: Seq<char>) -> AutoState {
    if class.len() == 0 {
        s
    } else {
        AutoState { overruled: Some(class), ..s }
    }
}

impl View for AutoSwitch {
    type V = AutoState;

    closed spec fn view(&self) -> AutoState {
        AutoState {
            rules: rule_views(self.rules@),
            last_class: opt_view(self.last_class),
            overruled: opt_view(self.overruled),
        }
    }
}

fn holds(o: &Option<String>, class: &str) -> (b: bool)
    ensures
        b == (opt_view(*o) == Some(class@)),
{
    match o {
        Some(s) => same_text(s.as_str(), class),
        None => false,
    }
}

fn blank(class: &str) -> (b: bool)
    ensures
        b == (class@.len() == 0),
{
    class.unicode_len() == 0
}

fn find_rule(rules: &Vec<(String, usize)>, class: &str) -> (r: Option<usize>)
    ensures
        r == rule_for(rule_views(rules@), class@),
{
    let ghost all = rule_views(rules@);
    let mut i: usize = 0;
    assert(all.skip(0) =~= all);
    while i < rules.len()
        invariant
            i <= rules.len(),
            all == rule_views(rules@),
            rule_for(all.skip(i as int), class@) == rule_for(all, class@),
        decreases rules.len() - i,
    {
        assert(all.skip(i as int)[0] == all[i as int]);
        assert(all.skip(i as int).drop_first() =~= all.skip(i + 1));
        if eq_ignoring_case(rules[i].0.as_str(), class) {
            return Some(rules[i].1);
        }
        i += 1;
    }
    None
}

impl AutoSwitch {
    pub fn new(rules: Vec<(String, usize)>) -> (r: Self)
        ensures
            r@ == (AutoState { rules: rule_views(rules@), last_class: None, overruled: None }),
    {
        Self { rules, last_class: None, overruled: None }
    }

    pub fn is_empty(&self) -> (b: bool)
        ensures
            b == (self@.rules.len() == 0),
    {
        self.rules.is_empty()
    }

    /// Record that the user switched by hand while over `class`.
    pub fn overrule(&mut self, class: &str)
        ensures
            final(self)@ == overruled_in(old(self)@, class@),
    {
        if !blank(class) {
            self.overruled = Some(owned(class));
        }
    }

    /// The slot `class` asks for, or `None` if nothing should change.
    ///
    /// Returns `Some` at most once per arrival: staying in the same window produces nothing
    /// further.
    pub fn entering(&mut self, class: &str) -> (r: Option<usize>)
        ensures
            r == asked(old(self)@, class@),
            final(self)@ == entered(old(self)@, class@),
    {
        if self.rules.is_empty() || blank(class) {
            return None;
        }
        if holds(&self.last_class, class) {
            return None;
        }
        self.last_class = Some(owned(class));

        // Arriving anywhere other than the overruled window ends the overrule; arriving back
        // at it means the position never left, so the user's choice still stands.
        if holds(&self.overruled, class) {
            return None;
        }
        self.overruled = None;

        find_rule(&self.rules, class)
    }
}

impl Default for AutoSwitch {
    fn default() -> (r: Self)
        ensures
            r@ == (AutoState { rules: Seq::empty(), last_class: None, overruled: None }),
    {
        let r = AutoSwitch::new(Vec::new());
        assert(r@.rules =~= Seq::empty());
        r
    }
}

/// Without rules nothing is ever asked for and nothing is remembered.
pub proof fn law_no_rules_no_change(s: AutoState, class: Seq<char>)
    requires
        s.rules.len() == 0,
    ensures
        asked(s, class) is None,
        entered(s, class) == s,
{
}

/// A second look at the same window asks for nothing.
pub proof fn law_asks_once_per_arrival(s: AutoState, class: Seq<char>)
    ensures
        asked(entered(s, class), class) is None,
        entered(entered(s, class), class) == entered(s, class),
{
}

/// A gap between windows is not a window: it asks for nothing and clears nothing.
pub proof fn law_a_gap_is_no_arrival(s: AutoState)
    ensures
        asked(s, Seq::empty()) is None,
        entered(s, Seq::empty()) == s,
{
}

/// After a manual switch the window's rule is quiet until another window is entered.
pub proof fn law_manual_switch_outranks_the_rule(s: AutoState, class: Seq<char>)
    requires
        class.len() > 0,
    ensures
        asked(overruled_in(s, class), class) is None,
        asked(entered(overruled_in(s, class), class), class) is None,
{
}

/// Leaving an overruled window and returning restores its rule.
pub proof fn law_returning_restores_the_rule(s: AutoState, class: Seq<char>, other: Seq<char>)
    requires
        s.rules.len() > 0,
        class.len() > 0,
        other.len() > 0,
        other != class,
        s.last_class == Some(class),
    ensures
        ({
            let away = entered(overruled_in(s, class), other);
            asked(away, class) == rule_for(s.rules, class)
        }),
{
}

/// An overrule covers only the window it was made in.
pub proof fn law_overrule_is_local(s: AutoState, class: Seq<char>, other: Seq<char>)
    requires
        s.rules.len() > 0,
        other.len() > 0,
        other != class,
        s.last_class != Some(other),
        s.overruled != Some(other),
    ensures
        asked(overruled_in(s, class), other) == rule_for(s.rules, other),
{
}

/// The rule for a window is the first that names its class, whatever the case, and there is none
/// where no rule does.
pub proof fn law_the_first_rule_counts(rules: Seq<(Seq<char>, usize)>, class: Seq<char>, i: int)
    ensures
        (0 <= i < rules.len() && same_ignoring_case(rules[i].0, class) && forall|j: int|
            0 <= j < i ==> !same_ignoring_case((#[trigger] rules[j]).0, class)) ==> rule_for(
            rules,
            class,
        ) == Some(rules[i].1),
        (forall|j: int| 0 <= j < rules.len() ==> !same_ignoring_case((#[trigger] rules[j]).0, class))
            ==> rule_for(rules, class) is None,
    decreases rules.len(),
{
    if rules.len() > 0 {
        let rest = rules.drop_first();
        law_the_first_rule_counts(rest, class, i - 1);
        assert(forall|j: int| 0 <= j < rest.len() ==> #[trigger] rest[j] == rules[j + 1]);
        if 0 < i < rules.len() && forall|j: int|
            0 <= j < i ==> !same_ignoring_case((#[trigger] rules[j]).0, class) {
            assert(!same_ignoring_case(rules[0].0, class));
            assert forall|j: int| 0 <= j < i - 1 implies !same_ignoring_case(
                (#[trigger] rest[j]).0,
                class,
            ) by {
                assert(rest[j] == rules[j + 1]);
            }
        }
        if forall|j: int|
            0 <= j < rules.len() ==> !same_ignoring_case((#[trigger] rules[j]).0, class) {
            assert(!same_ignoring_case(rules[0].0, class));
            assert forall|j: int| 0 <= j < rest.len() implies !same_ignoring_case(
                (#[trigger] rest[j]).0,
                class,
            ) by {
                assert(rest[j] == rules[j + 1]);
            }
        }
    }
}

/// Arriving at a window asks for what its rule says, unless the user overruled it there, and is
/// remembered; the rules themselves never change.
pub proof fn law_an_arrival_asks_for_its_rule(s: AutoState, class: Seq<char>)
    requires
        s.rules.len() > 0,
        class.len() > 0,
    ensures
        s.last_class != Some(class) && s.overruled != Some(class) ==> asked(s, class) == rule_for(
            s.rules,
            class,
        ),
        entered(s, class).last_class == Some(class),
        entered(s, class).rules == s.rules,
        overruled_in(s, class).rules == s.rules,
        overruled_in(s, class).overruled == Some(class),
        overruled_in(s, class).last_class == s.last_class,
        s.last_class != Some(class) && s.overruled != Some(class) ==> entered(
            s,
            class,
        ).overruled is None,
        s.overruled == Some(class) ==> entered(s, class).overruled == Some(class),
{
}

} // verus!
