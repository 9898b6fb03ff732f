//! Counting plans and their steps.

use crate::cache::{CacheValue, CacheValueView, Entries};
use crate::extractor::object_plan;
use crate::extractor::object_plan::{ObjectPlan, ObjectPlanStep, ObjectPlanView, PlanStep};
use vstd::prelude::*;

verus! {

/// Counts of plans and steps.
#[verifier::ext_equal]
pub struct TallyView {
    pub direct_only_plans: nat,
    pub with_fallback_plans: nat,
    pub steps: nat,
    pub single_token_steps: nat,
    pub captured_span_steps: nat,
    pub literal_steps: nat,
}

/// Counts with one more step.
pub open spec fn with_step(tally: TallyView, step: PlanStep) -> TallyView {
    let next = TallyView { steps: tally.steps + 1, ..tally };
    match step {
        PlanStep::SingleToken { .. } => TallyView {
            single_token_steps: tally.single_token_steps + 1,
            ..next
        },
        PlanStep::CapturedSpan { .. } => TallyView {
            captured_span_steps: tally.captured_span_steps + 1,
            ..next
        },
        PlanStep::Literal { .. } => TallyView { literal_steps: tally.literal_steps + 1, ..next },
    }
}

/// Counts with some more steps.
pub open spec fn with_steps(tally: TallyView, steps: Seq<PlanStep>) -> TallyView
    decreases steps.len(),
{
    if steps.len() == 0 {
        tally
    } else {
        with_step(with_steps(tally, steps.drop_last()), steps.last())
    }
}

/// Counts with one more plan.
pub open spec fn with_plan(tally: TallyView, plan: ObjectPlanView) -> TallyView {
    let next = if plan.allow_direct {
        TallyView { direct_only_plans: tally.direct_only_plans + 1, ..tally }
    } else {
        TallyView { with_fallback_plans: tally.with_fallback_plans + 1, ..tally }
    };
    with_steps(next, plan.steps)
}

/// Counts of the plans that entries keep.
pub open spec fn tally_of(entries: Entries) -> TallyView
    decreases entries.len(),
{
    if entries.len() == 0 {
        TallyView {
            direct_only_plans: 0,
            with_fallback_plans: 0,
            steps: 0,
            single_token_steps: 0,
            captured_span_steps: 0,
            literal_steps: 0,
        }
    } else {
        let before = tally_of(entries.drop_last());
        match entries.last().1 {
            CacheValueView::Plan(plan) => with_plan(before, plan),
            _ => before,
        }
    }
}

/// A number, or the greatest count where it is greater.
pub open spec fn clipped(n: nat) -> usize {
    if n > usize::MAX {
        usize::MAX
    } else {
        n as usize
    }
}

/// Counts of plans and steps; a count that can grow no further stays.
#[derive(Debug, Clone, Copy)]
pub struct Tally {
    pub direct_only_plans: usize,
    pub with_fallback_plans: usize,
    pub steps: usize,
    pub single_token_steps: usize,
    pub captured_span_steps: usize,
    pub literal_steps: usize,
}

/// Whether counts are those of a tally.
pub open spec fn counts(tally: Tally, view: TallyView) -> bool {
    &&& tally.direct_only_plans == clipped(view.direct_only_plans)
    &&& tally.with_fallback_plans == clipped(view.with_fallback_plans)
    &&& tally.steps == clipped(view.steps)
    &&& tally.single_token_steps == clipped(view.single_token_steps)
    &&& tally.captured_span_steps == clipped(view.captured_span_steps)
    &&& tally.literal_steps == clipped(view.literal_steps)
}

fn add_plan(tally: &mut Tally, plan: &ObjectPlan, Ghost(view): Ghost<TallyView>)
    requires
        counts(*old(tally), view),
    ensures
        counts(*final(tally), with_plan(view, plan@)),
{
    if plan.allow_direct {
        tally.direct_only_plans = crate::cache::bump(tally.direct_only_plans);
    } else {
        tally.with_fallback_plans = crate::cache::bump(tally.with_fallback_plans);
    }
    let ghost first = if plan.allow_direct {
        TallyView { direct_only_plans: view.direct_only_plans + 1, ..view }
    } else {
        TallyView { with_fallback_plans: view.with_fallback_plans + 1, ..view }
    };
    let ghost all = plan@.steps;
    let mut i: usize = 0;
    while i < plan.steps.len()
        invariant
            all == object_plan::all_merged(plan.steps.deep_view()),
            i <= plan.steps.len(),
            counts(*tally, with_steps(first, all.take(i as int))),
        decreases plan.steps.len() - i,
    {
        proof {
            let next = all.take(i + 1);
            assert(next.drop_last() == all.take(i as int));
            assert(next.last() == object_plan::merged(plan.steps@[i as int]@));
        }
        tally.steps = crate::cache::bump(tally.steps);
        match &plan.steps[i] {
            ObjectPlanStep::SingleToken { .. } => {
                tally.single_token_steps = crate::cache::bump(tally.single_token_steps);
            },
            ObjectPlanStep::CapturedSpan { .. } => {
                tally.captured_span_steps = crate::cache::bump(tally.captured_span_steps);
            },
            ObjectPlanStep::Literal { .. } => {
                tally.literal_steps = crate::cache::bump(tally.literal_steps);
            },
        }
        i = i + 1;
    }
    assert(all.take(i as int) == all);
}

/// Counts the plans among values.
pub(crate) fn count_plans(values: &Vec<CacheValue>, Ghost(entries): Ghost<Entries>) -> (r: Tally)
    requires
        values.len() == entries.len(),
        forall|i: int| 0 <= i < values.len() ==> (#[trigger] values@[i])@ == entries[i].1,
    ensures
        counts(r, tally_of(entries)),
{
    let mut tally = Tally {
        direct_only_plans: 0,
        with_fallback_plans: 0,
        steps: 0,
        single_token_steps: 0,
        captured_span_steps: 0,
        literal_steps: 0,
    };
    let mut i: usize = 0;
    while i < values.len()
        invariant
            values.len() == entries.len(),
            forall|j: int| 0 <= j < values.len() ==> (#[trigger] values@[j])@ == entries[j].1,
            i <= values.len(),
            counts(tally, tally_of(entries.take(i as int))),
        decreases values.len() - i,
    {
        proof {
            let next = entries.take(i + 1);
            assert(next.drop_last() == entries.take(i as int));
            assert(next.last() == entries[i as int]);
            assert(values@[i as int]@ == entries[i as int].1);
        }
        if let CacheValue::Plan(plan) = &values[i] {
            add_plan(&mut tally, plan, Ghost(tally_of(entries.take(i as int))));
        }
        i = i + 1;
    }
    assert(entries.take(i as int) == entries);
    tally
}

} // verus!
