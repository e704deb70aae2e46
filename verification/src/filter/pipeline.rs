//! The ordered stage list, and the timing sanitisation every stage relies on.

use crate::text::owned;
use vstd::prelude::*;

verus! {

/// Floor for the time between two samples, in microseconds. A physically possible interval: a
/// genuine sample is never clamped, while a duplicate timestamp inflates derived rates by little.
pub const MIN_DT_US: u64 = 100;

/// Ceiling for the time between two samples, in microseconds.
pub const MAX_DT_US: u64 = 100_000;

/// A gap beyond this means that filter state is stale.
pub const DISCONTINUITY_US: u64 = 250_000;

/// What a pipeline derives for a sample, so that stages never have to.
#[derive(Debug, Clone, Copy, PartialEq, Eq, Structural)]
pub struct Moment {
    /// Time since the last sample, in microseconds.
    pub dt_us: u64,
    pub discontinuity: bool,
    pub stroke_start: bool,
    pub stroke_end: bool,
}

/// The time between two samples, and whether filter state is stale. The first sample has no
/// interval, and nothing sensible can be computed from time that went backwards.
pub open spec fn timing(previous: Option<u64>, t_us: u64) -> (u64, bool) {
    match previous {
        None => (MIN_DT_US, true),
        Some(p) => if t_us < p {
            (MIN_DT_US, true)
        } else if t_us - p > DISCONTINUITY_US {
            (MAX_DT_US, true)
        } else if t_us - p < MIN_DT_US {
            (MIN_DT_US, false)
        } else if t_us - p > MAX_DT_US {
            (MAX_DT_US, false)
        } else {
            ((t_us - p) as u64, false)
        },
    }
}

/// A stage of the list.
#[derive(Debug)]
pub struct Slot {
    pub name: String,
    pub enabled: bool,
}

/// An ordered list of stages.
#[derive(Debug)]
pub struct Pipeline {
    pub stages: Vec<Slot>,
    pub last_t_us: Option<u64>,
    pub was_down: bool,
}

/// The places of the enabled stages, in order.
pub open spec fn enabled_places(stages: Seq<Slot>) -> Seq<usize>
    decreases stages.len(),
{
    if stages.len() == 0 {
        seq![]
    } else {
        let rest = enabled_places(stages.drop_last());
        if stages.last().enabled {
            rest.push((stages.len() - 1) as usize)
        } else {
            rest
        }
    }
}

/// Whether no enabled stage holds anything back.
pub open spec fn all_settled(stages: Seq<Slot>, each: Seq<bool>) -> bool {
    forall|i: int| 0 <= i < stages.len() ==> !(#[trigger] stages[i]).enabled || each[i]
}

/// What to do with a sample.
#[derive(Debug)]
pub struct Run {
    pub moment: Moment,
    /// The stages to run, in order. Every stage is reset first where the moment is a
    /// discontinuity, the disabled ones too.
    pub order: Vec<usize>,
}

/// A pipeline that has seen no sample.
pub open spec fn unused(stages: Vec<Slot>) -> Pipeline {
    Pipeline { stages, last_t_us: None, was_down: false }
}

/// A pipeline once it has seen a sample.
pub open spec fn used(p: Pipeline, t_us: u64, down: bool) -> Pipeline {
    Pipeline { stages: p.stages, last_t_us: Some(t_us), was_down: down }
}

/// What a pipeline derives for a sample.
pub open spec fn moment_of(p: Pipeline, t_us: u64, down: bool) -> Moment {
    Moment {
        dt_us: timing(p.last_t_us, t_us).0,
        discontinuity: timing(p.last_t_us, t_us).1,
        stroke_start: down && !p.was_down,
        stroke_end: !down && p.was_down,
    }
}

impl Pipeline {
    pub fn new(stages: Vec<Slot>) -> (r: Self)
        ensures
            r == unused(stages),
    {
        Pipeline { stages, last_t_us: None, was_down: false }
    }

    pub fn is_empty(&self) -> (b: bool)
        ensures
            b == (self.stages@.len() == 0),
    {
        self.stages.len() == 0
    }

    pub fn len(&self) -> (n: usize)
        ensures
            n == self.stages@.len(),
    {
        self.stages.len()
    }

    /// The names of the stages, in order.
    pub fn stage_names(&self) -> (r: Vec<String>)
        ensures
            r@.len() == self.stages@.len(),
            forall|i: int|
                0 <= i < r@.len() ==> (#[trigger] r@[i])@ == self.stages@[i].name@,
    {
        let mut r: Vec<String> = Vec::new();
        let mut i: usize = 0;
        while i < self.stages.len()
            invariant
                i <= self.stages.len(),
                r@.len() == i,
                forall|k: int| 0 <= k < i ==> (#[trigger] r@[k])@ == self.stages@[k].name@,
            decreases self.stages.len() - i,
        {
            r.push(owned(self.stages[i].name.as_str()));
            i += 1;
        }
        r
    }

    /// Whether no enabled stage holds anything back, from what each says of itself. The consumer
    /// feeds zero-motion ticks until this holds.
    pub fn settled(&self, each: &Vec<bool>) -> (b: bool)
        requires
            each@.len() == self.stages@.len(),
        ensures
            b == all_settled(self.stages@, each@),
    {
        let mut i: usize = 0;
        while i < self.stages.len()
            invariant
                i <= self.stages.len(),
                each@.len() == self.stages@.len(),
                forall|k: int|
                    0 <= k < i ==> !(#[trigger] self.stages@[k]).enabled || each@[k],
            decreases self.stages.len() - i,
        {
            if self.stages[i].enabled && !each[i] {
                assert(self.stages@[i as int].enabled);
                return false;
            }
            i += 1;
        }
        true
    }

    /// Forget when the last sample was and whether the pen was down, on a mode switch or after the
    /// device came back. Every stage is reset along with it.
    pub fn reset(&mut self)
        ensures
            *final(self) == unused(old(self).stages),
    {
        self.last_t_us = None;
        self.was_down = false;
    }

    /// What to do with one sample: what to derive for it, and which stages to run.
    pub fn process(&mut self, t_us: u64, down: bool) -> (r: Run)
        ensures
            *final(self) == used(*old(self), t_us, down),
            r.moment == moment_of(*old(self), t_us, down),
            r.order@ == enabled_places(old(self).stages@),
    {
        let (dt_us, discontinuity) = interval(self.last_t_us, t_us);
        self.last_t_us = Some(t_us);
        let stroke_start = down && !self.was_down;
        let stroke_end = !down && self.was_down;
        self.was_down = down;
        let mut order: Vec<usize> = Vec::new();
        let mut i: usize = 0;
        assert(self.stages@.take(0) =~= Seq::<Slot>::empty());
        while i < self.stages.len()
            invariant
                i <= self.stages.len(),
                order@ == enabled_places(self.stages@.take(i as int)),
            decreases self.stages.len() - i,
        {
            proof {
                let now = self.stages@.take(i + 1);
                assert(now.drop_last() =~= self.stages@.take(i as int));
                assert(now.last() == self.stages@[i as int]);
            }
            if self.stages[i].enabled {
                order.push(i);
            }
            i += 1;
        }
        assert(self.stages@.take(i as int) =~= self.stages@);
        Run { moment: Moment { dt_us, discontinuity, stroke_start, stroke_end }, order }
    }
}

/// The time between two samples, and whether filter state is stale.
fn interval(previous: Option<u64>, t_us: u64) -> (r: (u64, bool))
    ensures
        r == timing(previous, t_us),
{
    match previous {
        None => (MIN_DT_US, true),
        Some(p) => {
            if t_us < p {
                return (MIN_DT_US, true);
            }
            let raw: u64 = t_us - p;
            if raw > DISCONTINUITY_US {
                (MAX_DT_US, true)
            } else if raw < MIN_DT_US {
                (MIN_DT_US, false)
            } else if raw > MAX_DT_US {
                (MAX_DT_US, false)
            } else {
                (raw, false)
            }
        },
    }
}

/// Whatever the timestamps, the time between samples is one that can be divided by.
pub proof fn law_the_interval_is_always_usable(previous: Option<u64>, t_us: u64)
    ensures
        MIN_DT_US <= timing(previous, t_us).0 <= MAX_DT_US,
{
}

/// A gap that is neither too short nor too long passes through unchanged, and nothing is reset.
pub proof fn law_a_normal_interval_passes_through(p: u64, t_us: u64)
    requires
        MIN_DT_US <= t_us - p <= MAX_DT_US,
    ensures
        timing(Some(p), t_us) == ((t_us - p) as u64, false),
{
}

/// Exactly the enabled stages run, each once and in order.
pub proof fn law_exactly_the_enabled_stages_run(stages: Seq<Slot>)
    requires
        stages.len() <= usize::MAX,
    ensures
        forall|k: int|
            0 <= k < enabled_places(stages).len() ==> 0 <= #[trigger] enabled_places(stages)[k]
                < stages.len() && stages[enabled_places(stages)[k] as int].enabled,
        forall|k: int, l: int|
            0 <= k < l < enabled_places(stages).len() ==> enabled_places(stages)[k]
                < enabled_places(stages)[l],
        forall|i: int|
            0 <= i < stages.len() && (#[trigger] stages[i]).enabled ==> enabled_places(
                stages,
            ).contains(i as usize),
    decreases stages.len(),
{
    if stages.len() > 0 {
        let init = stages.drop_last();
        law_exactly_the_enabled_stages_run(init);
        let all = enabled_places(stages);
        let rest = enabled_places(init);
        assert forall|k: int| 0 <= k < all.len() implies 0 <= #[trigger] all[k] < stages.len()
            && stages[all[k] as int].enabled by {
            if k < rest.len() {
                assert(all[k] == rest[k]);
                assert(init[rest[k] as int].enabled);
            }
        }
        assert forall|i: int| 0 <= i < stages.len() && (#[trigger] stages[i]).enabled implies all.contains(
            i as usize,
        ) by {
            if i < init.len() {
                assert(init[i] == stages[i]);
                let k = choose|k: int| 0 <= k < rest.len() && rest[k] == i as usize;
                assert(all[k] == i as usize);
            } else {
                assert(all[rest.len() as int] == i as usize);
            }
        }
    }
}

/// A sample on its way in: when it was taken, whether the pen is down, and what moved.
pub struct Fed<X> {
    pub t_us: u64,
    pub down: bool,
    pub motion: X,
}

/// What the stages of a pipeline do, each known by its place: what a reset makes of a stage's
/// state, and what a stage makes of its state and of a sample.
#[verifier::reject_recursive_types(S)]
#[verifier::reject_recursive_types(X)]
pub struct Behaviour<S, X> {
    pub reset: spec_fn(int, S) -> S,
    pub step: spec_fn(int, S, Moment, X) -> (S, X),
}

/// The states of the stages once every one of them is reset.
pub open spec fn all_reset<S, X>(b: Behaviour<S, X>, states: Seq<S>) -> Seq<S> {
    Seq::new(states.len(), |i: int| (b.reset)(i, states[i]))
}

/// A sample run through the stages at `order`: their states afterwards, and what comes out.
pub open spec fn through<S, X>(
    b: Behaviour<S, X>,
    order: Seq<usize>,
    m: Moment,
    states: Seq<S>,
    x: X,
) -> (Seq<S>, X)
    decreases order.len(),
{
    if order.len() == 0 {
        (states, x)
    } else {
        let (before, y) = through(b, order.drop_last(), m, states, x);
        let i = order.last() as int;
        let (state, z) = (b.step)(i, before[i], m, y);
        (before.update(i, state), z)
    }
}

/// What one sample does to the stages, and what comes out: every stage is reset first where the
/// moment is a discontinuity, and then the enabled ones run in order.
pub open spec fn one_sample<S, X>(
    b: Behaviour<S, X>,
    p: Pipeline,
    states: Seq<S>,
    s: Fed<X>,
) -> (Seq<S>, X) {
    let m = moment_of(p, s.t_us, s.down);
    through(
        b,
        enabled_places(p.stages@),
        m,
        if m.discontinuity {
            all_reset(b, states)
        } else {
            states
        },
        s.motion,
    )
}

/// A pipeline and the states of its stages once samples have gone through it.
pub open spec fn after_samples<S, X>(
    b: Behaviour<S, X>,
    p: Pipeline,
    states: Seq<S>,
    samples: Seq<Fed<X>>,
) -> (Pipeline, Seq<S>)
    decreases samples.len(),
{
    if samples.len() == 0 {
        (p, states)
    } else {
        after_samples(
            b,
            used(p, samples[0].t_us, samples[0].down),
            one_sample(b, p, states, samples[0]).0,
            samples.skip(1),
        )
    }
}

/// What comes out of a pipeline, sample by sample.
pub open spec fn output_of<S, X>(
    b: Behaviour<S, X>,
    p: Pipeline,
    states: Seq<S>,
    samples: Seq<Fed<X>>,
) -> Seq<X>
    decreases samples.len(),
{
    if samples.len() == 0 {
        seq![]
    } else {
        let (next, x) = one_sample(b, p, states, samples[0]);
        seq![x] + output_of(
            b,
            used(p, samples[0].t_us, samples[0].down),
            next,
            samples.skip(1),
        )
    }
}

/// Whether a reset of a stage clears all that samples and earlier resets have left in it.
pub open spec fn forgets<S, X>(b: Behaviour<S, X>) -> bool {
    &&& forall|i: int, s: S, m: Moment, x: X|
        (b.reset)(i, (#[trigger] (b.step)(i, s, m, x)).0) == (b.reset)(i, s)
    &&& forall|i: int, s: S|
        (b.reset)(i, #[trigger] (b.reset)(i, s)) == (b.reset)(i, s)
}

proof fn lemma_through_is_forgotten<S, X>(
    b: Behaviour<S, X>,
    order: Seq<usize>,
    m: Moment,
    states: Seq<S>,
    x: X,
)
    requires
        forgets(b),
        forall|k: int| 0 <= k < order.len() ==> 0 <= #[trigger] order[k] < states.len(),
    ensures
        through(b, order, m, states, x).0.len() == states.len(),
        all_reset(b, through(b, order, m, states, x).0) == all_reset(b, states),
    decreases order.len(),
{
    if order.len() > 0 {
        let rest = order.drop_last();
        assert forall|k: int| 0 <= k < rest.len() implies 0 <= #[trigger] rest[k]
            < states.len() by {
            assert(rest[k] == order[k]);
        }
        lemma_through_is_forgotten(b, rest, m, states, x);
        let (before, y) = through(b, rest, m, states, x);
        let i = order.last() as int;
        assert(0 <= order[order.len() - 1] < states.len());
        let (state, z) = (b.step)(i, before[i], m, y);
        let after = before.update(i, state);
        assert forall|j: int| 0 <= j < states.len() implies (b.reset)(j, after[j]) == (b.reset)(
            j,
            states[j],
        ) by {
            assert(all_reset(b, before)[j] == all_reset(b, states)[j]);
        }
        assert(all_reset(b, after) =~= all_reset(b, states));
    }
}

/// However many samples have gone through a pipeline, a reset of its stages leaves them as one of
/// the first stages would have, and its list of stages never changes.
proof fn lemma_samples_are_forgotten<S, X>(
    b: Behaviour<S, X>,
    p: Pipeline,
    states: Seq<S>,
    samples: Seq<Fed<X>>,
)
    requires
        forgets(b),
        states.len() == p.stages@.len(),
        p.stages@.len() <= usize::MAX,
    ensures
        after_samples(b, p, states, samples).0.stages == p.stages,
        after_samples(b, p, states, samples).1.len() == states.len(),
        all_reset(b, after_samples(b, p, states, samples).1) == all_reset(b, states),
    decreases samples.len(),
{
    if samples.len() > 0 {
        let s = samples[0];
        let m = moment_of(p, s.t_us, s.down);
        let first = if m.discontinuity {
            all_reset(b, states)
        } else {
            states
        };
        law_exactly_the_enabled_stages_run(p.stages@);
        lemma_through_is_forgotten(b, enabled_places(p.stages@), m, first, s.motion);
        assert(all_reset(b, first) =~= all_reset(b, states));
        lemma_samples_are_forgotten(
            b,
            used(p, s.t_us, s.down),
            one_sample(b, p, states, s).0,
            samples.skip(1),
        );
    }
}

/// After a reset a pipeline gives for any samples, one by one, exactly what it gave as a new one,
/// whatever went through it before and whatever its stages compute: provided that a reset of each
/// stage clears what it keeps.
pub proof fn law_reset_restores_the_beginning<S, X>(
    b: Behaviour<S, X>,
    stages: Vec<Slot>,
    states: Seq<S>,
    history: Seq<Fed<X>>,
    samples: Seq<Fed<X>>,
)
    requires
        forgets(b),
        states.len() == stages@.len(),
        stages@.len() <= usize::MAX,
    ensures
        ({
            let (p, left) = after_samples(b, unused(stages), states, history);
            output_of(b, unused(p.stages), all_reset(b, left), samples) == output_of(
                b,
                unused(stages),
                states,
                samples,
            )
        }),
{
    let (p, left) = after_samples(b, unused(stages), states, history);
    lemma_samples_are_forgotten(b, unused(stages), states, history);
    assert(all_reset(b, all_reset(b, left)) =~= all_reset(b, states));
    if samples.len() > 0 {
        assert(one_sample(b, unused(p.stages), all_reset(b, left), samples[0]) == one_sample(
            b,
            unused(stages),
            states,
            samples[0],
        ));
    }
}

/// The first sample after a reset is a discontinuity, so that nothing stale is computed from.
pub proof fn law_a_reset_pipeline_starts_clean(stages: Vec<Slot>, t_us: u64, down: bool)
    ensures
        moment_of(unused(stages), t_us, down) == (Moment {
            dt_us: MIN_DT_US,
            discontinuity: true,
            stroke_start: down,
            stroke_end: false,
        }),
{
}

/// The first sample, one whose time went back and one after more than a quarter of a second start
/// afresh. In between the time is what passed, but never less than a tenth of a millisecond nor
/// more than a tenth of a second.
pub proof fn law_the_interval_is_what_passed(p: u64, t_us: u64)
    ensures
        timing(None, t_us) == (100u64, true),
        t_us < p ==> timing(Some(p), t_us) == (100u64, true),
        t_us - p > 250_000 ==> timing(Some(p), t_us) == (100_000u64, true),
        0 <= t_us - p < 100 ==> timing(Some(p), t_us) == (100u64, false),
        100 <= t_us - p <= 100_000 ==> timing(Some(p), t_us) == ((t_us - p) as u64, false),
        100_000 < t_us - p <= 250_000 ==> timing(Some(p), t_us) == (100_000u64, false),
{
}

/// A stroke starts on the sample that puts the pen down and ends on the one that takes it up, each
/// once.
pub proof fn law_a_stroke_has_one_start_and_one_end(p: Pipeline, t_us: u64, later: u64, down: bool)
    ensures
        moment_of(p, t_us, down).stroke_start <==> down && !p.was_down,
        moment_of(p, t_us, down).stroke_end <==> !down && p.was_down,
        !moment_of(used(p, t_us, down), later, down).stroke_start,
        !moment_of(used(p, t_us, down), later, down).stroke_end,
        used(p, t_us, down).last_t_us == Some(t_us),
        used(p, t_us, down).stages == p.stages,
{
}

/// One enabled stage that holds something back is enough to go on ticking; a disabled one never is.
pub proof fn law_only_enabled_stages_hold_back(stages: Seq<Slot>, each: Seq<bool>, i: int)
    requires
        each.len() == stages.len(),
        0 <= i < stages.len(),
    ensures
        stages[i].enabled && !each[i] ==> !all_settled(stages, each),
        !stages[i].enabled ==> all_settled(stages, each) == all_settled(
            stages,
            each.update(i, !each[i]),
        ),
        (forall|k: int| 0 <= k < each.len() ==> #[trigger] each[k]) ==> all_settled(stages, each),
{
    let other = each.update(i, !each[i]);
    if !stages[i].enabled {
        assert(all_settled(stages, each) == all_settled(stages, other)) by {
            assert(forall|k: int|
                0 <= k < stages.len() && k != i ==> #[trigger] each[k] == other[k]);
        }
    }
}

} // verus!
