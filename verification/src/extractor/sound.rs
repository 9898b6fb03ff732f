//! What holds of an extractor in every state, and of its statistics.

use crate::cache;
use crate::cache::{BoundedCacheView, CacheKeyView, CacheStats, CacheValueView, Entries};
use crate::error::ParseError;
use crate::extractor;
use crate::extractor::object_plan::{ObjectPlanView, PlanStep};
use crate::extractor::outcome;
use crate::extractor::outcome::{Faults, ParseOutput, Request, StateView};
use crate::extractor::state;
use crate::extractor::state::ProfileTimes;
use crate::extractor::tally;
use crate::extractor::tally::TallyView;
use crate::extractor::{ExtractorConfig, ExtractorStats, ExtractorView};
use crate::tel::compiled;
use crate::tel::compiled::CompiledPatternView;
use crate::token_model::{Classes, Definitions};
use vstd::prelude::*;

verus! {

/// Whether the caches keep to their bounds, the plan cache holds plans alone, and no more steps of
/// plans succeeded than were tried.
pub open spec fn is_sound_state(s: StateView) -> bool {
    &&& s.patterns.is_bounded()
    &&& s.plans.is_bounded()
    &&& s.regexes.is_bounded()
    &&& state::all_pass(s.plans.entries, |entry: (CacheKeyView, CacheValueView)| entry.1 is Plan)
    &&& s.counters.direct_execution_hits <= s.counters.direct_execution_attempts
}

/// Whether the caches have the capacities that were asked for.
pub open spec fn has_capacities(s: StateView, config: ExtractorConfig) -> bool {
    &&& s.patterns.capacity == config.compiled_pattern_cache_capacity
    &&& s.plans.capacity == config.object_plan_cache_capacity
    &&& s.regexes.capacity == config.fallback_regex_cache_capacity
}

/// What holds of an extractor in every state.
pub open spec fn is_sound(e: ExtractorView) -> bool {
    is_sound_state(e.state) && has_capacities(e.state, e.config)
}

/// Whether a cache holds no more than its capacity, and has the capacity that was asked for.
pub open spec fn fits(stats: CacheStats, capacity: usize) -> bool {
    stats.capacity == capacity && stats.len <= stats.capacity
}

/// Whether statistics add up: every plan in the cache is of one kind or the other, every step of
/// one of three kinds, no more steps of plans succeeded than were tried, and the caches keep to the
/// capacities that were asked for. A count of steps that has reached the greatest number tells no
/// more.
pub open spec fn adds_up(stats: ExtractorStats, config: ExtractorConfig) -> bool {
    &&& stats.direct_only_plan_count + stats.with_fallback_plan_count
        == stats.unique_plan_signature_count
    &&& stats.unique_plan_signature_count == stats.object_plan_cache.len
    &&& stats.total_plan_steps < usize::MAX ==> stats.total_plan_steps
        == stats.single_token_step_count + stats.captured_span_step_count
        + stats.literal_step_count
    &&& stats.direct_execution_hits <= stats.direct_execution_attempts
    &&& fits(stats.compiled_pattern_cache, config.compiled_pattern_cache_capacity)
    &&& fits(stats.object_plan_cache, config.object_plan_cache_capacity)
    &&& fits(stats.fallback_regex_cache, config.fallback_regex_cache_capacity)
}

/// A new extractor is sound.
pub proof fn law_new_extractor_is_sound(
    definitions: Definitions,
    classes: Classes,
    config: ExtractorConfig,
)
    ensures
        is_sound(extractor::new_extractor(definitions, classes, config)),
{
}

proof fn lemma_through(c: BoundedCacheView, key: CacheKeyView, value: CacheValueView)
    requires
        c.is_bounded(),
    ensures
        outcome::through(c, key, value).is_bounded(),
        outcome::through(c, key, value).capacity == c.capacity,
        c.looked_up(key).is_bounded(),
        c.looked_up(key).capacity == c.capacity,
{
    cache::law_cache_stays_bounded(c, key, value);
    cache::law_cache_stays_bounded(c.looked_up(key), key, value);
}

/// Asking for a pattern keeps an extractor sound.
pub proof fn law_pattern_keeps_sound(e: ExtractorView, pattern: Seq<char>)
    requires
        is_sound(e),
    ensures
        is_sound(ExtractorView { state: state::after_pattern(e.state, pattern), ..e }),
{
    let key = outcome::pattern_key(pattern);
    let segments = compiled::pattern_segments(pattern)->Ok_0;
    lemma_through(
        e.state.patterns,
        key,
        CacheValueView::Pattern(CompiledPatternView { source: pattern, segments }),
    );
}

proof fn lemma_planned_run_keeps_sound(
    s: StateView,
    request: Request,
    plan: ObjectPlanView,
    range: (int, int),
    faults: Faults,
)
    requires
        is_sound_state(s),
    ensures
        is_sound_state(outcome::planned_run(s, request, plan, range, faults).0),
        outcome::planned_run(s, request, plan, range, faults).0.patterns.capacity
            == s.patterns.capacity,
        outcome::planned_run(s, request, plan, range, faults).0.plans.capacity == s.plans.capacity,
        outcome::planned_run(s, request, plan, range, faults).0.regexes.capacity
            == s.regexes.capacity,
{
    lemma_through(
        s.regexes,
        outcome::pattern_key(plan.pattern),
        CacheValueView::Regex(plan.pattern),
    );
}

/// An extraction keeps an extractor sound.
pub proof fn law_extraction_keeps_sound(
    before: ExtractorView,
    after: ExtractorView,
    request: Request,
    faults: Faults,
    r: Result<ParseOutput, ParseError>,
)
    requires
        is_sound(before),
        extractor::extracts_under(before, after, request, faults, r),
    ensures
        is_sound(after),
{
    lemma_run_keeps_sound(
        before.state,
        request,
        extractor::definition_map(before.definitions),
        before.profiling,
        faults,
    );
}

proof fn lemma_run_keeps_sound(
    s: StateView,
    request: Request,
    definitions: Map<Seq<char>, Seq<char>>,
    profiling: bool,
    faults: Faults,
)
    requires
        is_sound_state(s),
    ensures
        is_sound_state(outcome::parse_run(s, request, definitions, profiling, faults).0),
        outcome::parse_run(s, request, definitions, profiling, faults).0.patterns.capacity
            == s.patterns.capacity,
        outcome::parse_run(s, request, definitions, profiling, faults).0.plans.capacity
            == s.plans.capacity,
        outcome::parse_run(s, request, definitions, profiling, faults).0.regexes.capacity
            == s.regexes.capacity,
{
    let found = crate::regex::regex_captures(
        request.pattern.class_pattern(request.mode),
        extractor::reading::class_text(request.objects, request.classes),
    );
    if let Some(found) = found {
        if let Some(told) = extractor::reading::class_reading(
            request.objects,
            request.classes,
            crate::tel::plan::class_plan(request.pattern.segments).segments,
            request.mode,
            found,
        ) {
            let plan = outcome::plan_for(request, told, definitions);
            let key = outcome::key_for(request, told);
            let value = CacheValueView::Plan(plan);
            let test = |entry: (CacheKeyView, CacheValueView)| entry.1 is Plan;
            lemma_through(s.plans, key, value);
            state::lemma_looked_up_passes(s.plans, key, test);
            state::lemma_inserted_passes(s.plans.looked_up(key), key, value, test);
            let next = StateView { plans: outcome::through(s.plans, key, value), ..s };
            assert(is_sound_state(next));
            if let Some(range) = told.range {
                lemma_planned_run_keeps_sound(next, request, plan, range, faults);
            }
        }
    }
}

proof fn lemma_steps_add_up(tally: TallyView, steps: Seq<PlanStep>)
    ensures
        ({
            let after = tally::with_steps(tally, steps);
            &&& after.direct_only_plans == tally.direct_only_plans
            &&& after.with_fallback_plans == tally.with_fallback_plans
            &&& after.steps - after.single_token_steps - after.captured_span_steps
                - after.literal_steps == tally.steps - tally.single_token_steps
                - tally.captured_span_steps - tally.literal_steps
        }),
    decreases steps.len(),
{
    if steps.len() > 0 {
        lemma_steps_add_up(tally, steps.drop_last());
    }
}

proof fn lemma_tally_adds_up(entries: Entries)
    requires
        state::all_pass(entries, |entry: (CacheKeyView, CacheValueView)| entry.1 is Plan),
    ensures
        ({
            let all = tally::tally_of(entries);
            &&& all.direct_only_plans + all.with_fallback_plans == entries.len()
            &&& all.steps == all.single_token_steps + all.captured_span_steps + all.literal_steps
        }),
    decreases entries.len(),
{
    if entries.len() > 0 {
        let before = entries.drop_last();
        let test = |entry: (CacheKeyView, CacheValueView)| entry.1 is Plan;
        assert forall|i: int| 0 <= i < before.len() implies test(#[trigger] before[i]) by {
            assert(test(entries[i]));
        }
        lemma_tally_adds_up(before);
        assert(test(entries[entries.len() - 1]));
        if let CacheValueView::Plan(plan) = entries.last().1 {
            let all = tally::tally_of(before);
            let next = if plan.allow_direct {
                TallyView { direct_only_plans: all.direct_only_plans + 1, ..all }
            } else {
                TallyView { with_fallback_plans: all.with_fallback_plans + 1, ..all }
            };
            lemma_steps_add_up(next, plan.steps);
        }
    }
}

/// The statistics of a sound extractor add up.
pub proof fn law_stats_add_up(e: ExtractorView, times: ProfileTimes)
    requires
        is_sound(e),
    ensures
        adds_up(extractor::extractor_stats(e.state, times), e.config),
{
    lemma_tally_adds_up(e.state.plans.entries);
}

} // verus!
