//! What holds of what extractions leave behind and count.

use crate::cache;
use crate::cache::{BoundedCacheView, CacheKeyView, CacheStats, CacheValueView, Entries};
use crate::extractor;
use crate::extractor::{ExtractorConfig, ExtractorView};
use crate::extractor::object_plan::PlanStep;
use crate::extractor::outcome;
use crate::extractor::outcome::{Faults, Outcome, ParseOutputView, Request, StateView};
use crate::extractor::reading;
use crate::extractor::state;
use crate::extractor::state::ProfileTimes;
use crate::extractor::tally;
use crate::extractor::tally::TallyView;
use crate::regex;
use crate::tel::compiled;
use crate::tel::compiled::CompiledPatternView;
use crate::tel::plan;
use crate::tel::MatchMode;
use crate::text;
use crate::token_model::{Classes, Definitions};
use vstd::prelude::*;

verus! {

/// Every step counts once in all and once among the steps of its kind.
pub proof fn law_steps_are_counted(before: TallyView, steps: Seq<PlanStep>)
    ensures
        ({
            let after = tally::with_steps(before, steps);
            &&& after.steps == before.steps + steps.len()
            &&& after.single_token_steps == before.single_token_steps + steps.filter(
                |step: PlanStep| step is SingleToken,
            ).len()
            &&& after.captured_span_steps == before.captured_span_steps + steps.filter(
                |step: PlanStep| step is CapturedSpan,
            ).len()
            &&& after.literal_steps == before.literal_steps + steps.filter(
                |step: PlanStep| step is Literal,
            ).len()
            &&& after.direct_only_plans == before.direct_only_plans
            &&& after.with_fallback_plans == before.with_fallback_plans
        }),
    decreases steps.len(),
{
    reveal(Seq::filter);
    if steps.len() > 0 {
        law_steps_are_counted(before, steps.drop_last());
    }
}

/// Whether an entry keeps a plan whose steps alone may do.
pub open spec fn is_direct(entry: (CacheKeyView, CacheValueView)) -> bool {
    entry.1 matches CacheValueView::Plan(plan) && plan.allow_direct
}

/// Whether an entry keeps a plan whose expression is always run.
pub open spec fn is_fallback(entry: (CacheKeyView, CacheValueView)) -> bool {
    entry.1 matches CacheValueView::Plan(plan) && !plan.allow_direct
}

/// The steps of the plans that entries keep, one plan after the other.
pub open spec fn all_steps(entries: Entries) -> Seq<PlanStep>
    decreases entries.len(),
{
    if entries.len() == 0 {
        Seq::empty()
    } else {
        let before = all_steps(entries.drop_last());
        match entries.last().1 {
            CacheValueView::Plan(plan) => before + plan.steps,
            _ => before,
        }
    }
}

/// Every plan counts once, by whether its steps alone may do, and so does each of its steps.
pub proof fn law_plans_are_counted(entries: Entries)
    ensures
        ({
            let all = tally::tally_of(entries);
            let steps = all_steps(entries);
            &&& all.direct_only_plans == entries.filter(|entry| is_direct(entry)).len()
            &&& all.with_fallback_plans == entries.filter(|entry| is_fallback(entry)).len()
            &&& all.steps == steps.len()
            &&& all.single_token_steps == steps.filter(|step: PlanStep| step is SingleToken).len()
            &&& all.captured_span_steps == steps.filter(
                |step: PlanStep| step is CapturedSpan,
            ).len()
            &&& all.literal_steps == steps.filter(|step: PlanStep| step is Literal).len()
        }),
    decreases entries.len(),
{
    reveal(Seq::filter);
    if entries.len() > 0 {
        let rest = entries.drop_last();
        law_plans_are_counted(rest);
        if let CacheValueView::Plan(plan) = entries.last().1 {
            let before = tally::tally_of(rest);
            let next = if plan.allow_direct {
                TallyView { direct_only_plans: before.direct_only_plans + 1, ..before }
            } else {
                TallyView { with_fallback_plans: before.with_fallback_plans + 1, ..before }
            };
            law_steps_are_counted(next, plan.steps);
            Seq::filter_distributes_over_add(
                all_steps(rest),
                plan.steps,
                |step: PlanStep| step is SingleToken,
            );
            Seq::filter_distributes_over_add(
                all_steps(rest),
                plan.steps,
                |step: PlanStep| step is CapturedSpan,
            );
            Seq::filter_distributes_over_add(
                all_steps(rest),
                plan.steps,
                |step: PlanStep| step is Literal,
            );
        }
    }
}

/// Plans are kept apart by their pattern, mode, captured classes and offset: by all of them.
pub proof fn law_plans_are_kept_apart(
    a: (Seq<char>, MatchMode, Seq<Option<Seq<char>>>, Option<usize>),
    b: (Seq<char>, MatchMode, Seq<Option<Seq<char>>>, Option<usize>),
)
    ensures
        outcome::plan_key(a.0, a.1, a.2, a.3) == outcome::plan_key(b.0, b.1, b.2, b.3) <==> a == b,
        outcome::pattern_key(a.0) == outcome::pattern_key(b.0) <==> a.0 == b.0,
{
}

/// What is asked for twice is made once: the second time it is found, and nothing is put in.
pub proof fn law_asked_twice_is_made_once(
    c: BoundedCacheView,
    key: CacheKeyView,
    value: CacheValueView,
)
    requires
        c.is_bounded(),
        c.capacity > 0,
        c.hits < usize::MAX,
        c.misses < usize::MAX,
        c.inserts < usize::MAX,
        c.evictions < usize::MAX,
    ensures
        ({
            let once = outcome::through(c, key, value);
            let twice = outcome::through(once, key, value);
            let found = cache::has_key(c.entries, key);
            &&& once.is_bounded()
            &&& cache::has_key(once.entries, key)
            &&& once.value_of(key) == if found {
                c.value_of(key)
            } else {
                value
            }
            &&& once.entries.len() > 0 && once.entries[0].0 == key
            &&& found ==> once.inserts == c.inserts && once.hits == c.hits + 1 && once.misses
                == c.misses
            &&& !found ==> once.inserts == c.inserts + 1 && once.hits == c.hits && once.misses
                == c.misses + 1
            &&& twice.inserts == once.inserts
            &&& twice.evictions == once.evictions
            &&& twice.misses == once.misses
            &&& once.hits < usize::MAX ==> twice.hits == once.hits + 1
            &&& twice.entries == once.entries
        }),
{
    let once = outcome::through(c, key, value);
    cache::law_cache_stays_bounded(c, key, value);
    cache::law_cache_stays_bounded(c.looked_up(key), key, value);
    cache::law_inserted_is_found(c.looked_up(key), key, value);
    let at = cache::place_of(c.entries, key);
    if cache::has_key(c.entries, key) {
        assert(cache::is_at(c.entries, key, at));
        cache::law_used_comes_first(c, key, at);
        assert(once.entries[0] == c.entries[at]);
    } else {
        assert(once.entries[0] == (key, value));
    }
    assert(cache::is_at(once.entries, key, 0));
    lemma_first_stays(once, key);
    let place = cache::place_of(once.entries, key);
    assert(cache::is_at(once.entries, key, place));
}

/// Using the first entry leaves it first.
proof fn lemma_first_stays(c: BoundedCacheView, key: CacheKeyView)
    requires
        c.is_bounded(),
        cache::is_at(c.entries, key, 0),
    ensures
        c.looked_up(key).entries == c.entries,
        cache::place_of(c.entries, key) == 0,
{
    let place = cache::place_of(c.entries, key);
    assert(cache::is_at(c.entries, key, place));
    if place > 0 {
        assert(c.entries[0].0 != c.entries[place].0);
    }
    assert(c.looked_up(key).entries =~= c.entries);
}

/// The expression of a plan is made where it is not kept and the engine accepts it, and that counts;
/// an expression that is kept, or that the engine refuses, is made not.
pub proof fn law_expressions_are_made_once(s: StateView, pattern: Seq<char>)
    requires
        s.regexes.is_bounded(),
        s.regexes.capacity > 0,
        s.counters.fallback_regex_realizations < usize::MAX - 1,
        s.regexes.hits < usize::MAX,
        s.regexes.misses < usize::MAX,
        s.regexes.inserts < usize::MAX,
        s.regexes.evictions < usize::MAX,
    ensures
        ({
            let key = outcome::pattern_key(pattern);
            let once = outcome::after_regex(s, pattern);
            let twice = outcome::after_regex(once, pattern);
            let is_made = !cache::has_key(s.regexes.entries, key) && regex::regex_accepts(pattern);
            &&& once.counters.fallback_regex_realizations == s.counters.fallback_regex_realizations
                + (if is_made {
                1int
            } else {
                0int
            })
            &&& regex::regex_accepts(pattern) ==> twice.counters == once.counters
            &&& is_made ==> cache::has_key(once.regexes.entries, key) && once.regexes.value_of(key)
                == CacheValueView::Regex(pattern)
            &&& !regex::regex_accepts(pattern) ==> once.regexes.inserts == s.regexes.inserts
            &&& once.counters.direct_execution_attempts == s.counters.direct_execution_attempts
            &&& once.counters.direct_execution_hits == s.counters.direct_execution_hits
            &&& once.counters.fallback_execution_count == s.counters.fallback_execution_count
            &&& once.counters.profiled_rows == s.counters.profiled_rows
            &&& once.patterns == s.patterns && once.plans == s.plans
        }),
{
    let key = outcome::pattern_key(pattern);
    let value = CacheValueView::Regex(pattern);
    law_asked_twice_is_made_once(s.regexes, key, value);
}

/// A pattern that compiles is kept after it was asked for; one that does not is not. The plans,
/// expressions and counts stay as they were.
pub proof fn law_patterns_are_kept(s: StateView, pattern: Seq<char>)
    requires
        s.patterns.is_bounded(),
        s.patterns.capacity > 0,
        s.patterns.hits < usize::MAX,
        s.patterns.misses < usize::MAX,
        s.patterns.inserts < usize::MAX,
        s.patterns.evictions < usize::MAX,
    ensures
        ({
            let key = outcome::pattern_key(pattern);
            let after = state::after_pattern(s, pattern);
            let made = compiled::pattern_segments(pattern);
            let found = cache::has_key(s.patterns.entries, key);
            &&& made is Ok ==> cache::has_key(after.patterns.entries, key)
            &&& made is Ok && !found ==> after.patterns.value_of(key) == CacheValueView::Pattern(
                CompiledPatternView { source: pattern, segments: made->Ok_0 },
            ) && after.patterns.inserts == s.patterns.inserts + 1
            &&& made is Ok && found ==> after.patterns.value_of(key) == s.patterns.value_of(key)
                && after.patterns.inserts == s.patterns.inserts
            &&& made is Err ==> after.patterns.inserts == s.patterns.inserts
            &&& made is Err && !found ==> after.patterns.entries == s.patterns.entries
            &&& after.plans == s.plans && after.regexes == s.regexes && after.counters == s.counters
        }),
{
    let key = outcome::pattern_key(pattern);
    if let Ok(segments) = compiled::pattern_segments(pattern) {
        law_asked_twice_is_made_once(
            s.patterns,
            key,
            CacheValueView::Pattern(CompiledPatternView { source: pattern, segments }),
        );
    }
}

/// Times add up as long as there is room for the sum.
pub proof fn law_times_add_up(times: ProfileTimes, row: ProfileTimes)
    requires
        times.total + row.total <= u128::MAX,
        times.class_join + row.class_join <= u128::MAX,
        times.class_regex + row.class_regex <= u128::MAX,
        times.offset_work + row.offset_work <= u128::MAX,
        times.object_join + row.object_join <= u128::MAX,
        times.direct_execution + row.direct_execution <= u128::MAX,
        times.fallback_regex + row.fallback_regex <= u128::MAX,
    ensures
        ({
            let after = state::with_row(times, row);
            &&& after.total == times.total + row.total
            &&& after.class_join == times.class_join + row.class_join
            &&& after.class_regex == times.class_regex + row.class_regex
            &&& after.offset_work == times.offset_work + row.offset_work
            &&& after.object_join == times.object_join + row.object_join
            &&& after.direct_execution == times.direct_execution + row.direct_execution
            &&& after.fallback_regex == times.fallback_regex + row.fallback_regex
        }),
{
}

/// An extraction whose classes do not match leaves the whole text over, under the name that was
/// asked for, and changes nothing but, while profiling, the count of rows; one whose expression over
/// classes is refused, or whose search is given up, changes nothing.
pub proof fn law_no_match_changes_nothing(
    s: StateView,
    request: Request,
    definitions: Map<Seq<char>, Seq<char>>,
    profiling: bool,
    faults: Faults,
)
    requires
        s.counters.profiled_rows < usize::MAX,
    ensures
        ({
            let pattern = request.pattern.class_pattern(request.mode);
            let (after, told) = outcome::parse_run(s, request, definitions, profiling, faults);
            let found = regex::regex_captures(
                pattern,
                reading::class_text(request.objects, request.classes),
            );
            let accepted = regex::regex_accepts(pattern);
            &&& !accepted ==> told == Outcome::ClassPattern && after == s
            &&& accepted && faults.class_search ==> told == Outcome::ClassSearch && after == s
            &&& accepted && !faults.class_search && found is None ==> told == Outcome::Output(
                ParseOutputView {
                    uid: request.uid,
                    fields: Map::empty(),
                    complement: text::concat(request.objects),
                },
            ) && after.patterns == s.patterns && after.plans == s.plans && after.regexes
                == s.regexes && after.counters == (outcome::ExecutionCounters {
                profiled_rows: (s.counters.profiled_rows + (if profiling {
                    1int
                } else {
                    0int
                })) as usize,
                ..s.counters
            })
        }),
{
}

/// Every row that gives an output while profiling counts, and no other.
pub proof fn law_profiled_rows_count(
    s: StateView,
    request: Request,
    definitions: Map<Seq<char>, Seq<char>>,
    profiling: bool,
    faults: Faults,
)
    requires
        s.counters.profiled_rows < usize::MAX,
    ensures
        ({
            let (after, told) = outcome::parse_run(s, request, definitions, profiling, faults);
            after.counters.profiled_rows == s.counters.profiled_rows + (if profiling
                && told is Output {
                1int
            } else {
                0int
            })
        }),
{
}

/// Statistics tell of each cache how it was used, and of extractions how often they took which way
/// and how long they took.
pub proof fn law_stats_tell_the_counts(s: StateView, times: ProfileTimes)
    requires
        s.patterns.entries.len() <= usize::MAX,
        s.plans.entries.len() <= usize::MAX,
        s.regexes.entries.len() <= usize::MAX,
        tally::tally_of(s.plans.entries).steps <= usize::MAX,
    ensures
        ({
            let told = extractor::extractor_stats(s, times);
            let all = tally::tally_of(s.plans.entries);
            &&& tells_use(told.compiled_pattern_cache, s.patterns)
            &&& tells_use(told.object_plan_cache, s.plans)
            &&& tells_use(told.fallback_regex_cache, s.regexes)
            &&& told.unique_plan_signature_count == s.plans.entries.len()
            &&& told.direct_only_plan_count == all.direct_only_plans
            &&& told.with_fallback_plan_count == all.with_fallback_plans
            &&& told.total_plan_steps == all.steps
            &&& told.single_token_step_count == all.single_token_steps
            &&& told.captured_span_step_count == all.captured_span_steps
            &&& told.literal_step_count == all.literal_steps
            &&& told.direct_execution_attempts == s.counters.direct_execution_attempts
            &&& told.direct_execution_hits == s.counters.direct_execution_hits
            &&& told.fallback_execution_count == s.counters.fallback_execution_count
            &&& told.fallback_regex_realizations == s.counters.fallback_regex_realizations
            &&& told.profiled_rows == s.counters.profiled_rows
            &&& told.profile_total_ns == times.total
            &&& told.profile_class_join_ns == times.class_join
            &&& told.profile_class_regex_ns == times.class_regex
            &&& told.profile_offset_work_ns == times.offset_work
            &&& told.profile_object_join_ns == times.object_join
            &&& told.profile_direct_execution_ns == times.direct_execution
            &&& told.profile_fallback_regex_ns == times.fallback_regex
        }),
{
    lemma_counts_are_bounded(s.plans.entries);
}

/// Whether statistics tell how a cache was used.
pub open spec fn tells_use(told: CacheStats, c: BoundedCacheView) -> bool {
    &&& told.capacity == c.capacity
    &&& told.len == c.entries.len()
    &&& told.hits == c.hits
    &&& told.misses == c.misses
    &&& told.inserts == c.inserts
    &&& told.evictions == c.evictions
}

/// No kind of plan or step is counted more often than there are plans or steps.
proof fn lemma_counts_are_bounded(entries: Entries)
    ensures
        ({
            let all = tally::tally_of(entries);
            &&& all.direct_only_plans <= entries.len()
            &&& all.with_fallback_plans <= entries.len()
            &&& all.single_token_steps <= all.steps
            &&& all.captured_span_steps <= all.steps
            &&& all.literal_steps <= all.steps
        }),
{
    law_plans_are_counted(entries);
    let steps = all_steps(entries);
    entries.lemma_filter_len(|entry| is_direct(entry));
    entries.lemma_filter_len(|entry| is_fallback(entry));
    steps.lemma_filter_len(|step: PlanStep| step is SingleToken);
    steps.lemma_filter_len(|step: PlanStep| step is CapturedSpan);
    steps.lemma_filter_len(|step: PlanStep| step is Literal);
}

/// A new extractor has done nothing: its caches are empty and of the capacities that were asked for,
/// all its counts are 0, and it measures no time.
pub proof fn law_new_extractor_has_done_nothing(
    definitions: Definitions,
    classes: Classes,
    config: ExtractorConfig,
)
    ensures
        ({
            let e = extractor::new_extractor(definitions, classes, config);
            let told = extractor::extractor_stats(e.state, state::zero_times());
            &&& !e.profiling
            &&& e.config == config
            &&& e.definitions == definitions
            &&& e.classes == classes
            &&& is_untouched(told.compiled_pattern_cache, config.compiled_pattern_cache_capacity)
            &&& is_untouched(told.object_plan_cache, config.object_plan_cache_capacity)
            &&& is_untouched(told.fallback_regex_cache, config.fallback_regex_cache_capacity)
            &&& told.unique_plan_signature_count == 0
            &&& told.direct_only_plan_count == 0 && told.with_fallback_plan_count == 0
            &&& told.total_plan_steps == 0
            &&& told.direct_execution_attempts == 0 && told.direct_execution_hits == 0
            &&& told.fallback_execution_count == 0 && told.fallback_regex_realizations == 0
            &&& told.profiled_rows == 0
            &&& told.profile_total_ns == 0
            &&& told.profile_class_join_ns == 0 && told.profile_class_regex_ns == 0
            &&& told.profile_offset_work_ns == 0 && told.profile_object_join_ns == 0
            &&& told.profile_direct_execution_ns == 0 && told.profile_fallback_regex_ns == 0
        }),
{
}

/// Whether statistics tell of an unused cache.
pub open spec fn is_untouched(told: CacheStats, capacity: usize) -> bool {
    &&& told.capacity == capacity
    &&& told.len == 0
    &&& told.hits == 0 && told.misses == 0 && told.inserts == 0 && told.evictions == 0
}

/// Time is spent on nothing that an extraction did not come to, none is spent without profiling or
/// without an output, and none is given back.
pub proof fn law_time_is_spent_on_what_was_done(
    before: ProfileTimes,
    after: ProfileTimes,
    e: ExtractorView,
    request: Request,
    given: bool,
)
    requires
        extractor::takes_time(before, after, e, request, given),
    ensures
        ({
            let definitions = extractor::definition_map(e.definitions);
            let found = regex::regex_captures(
                request.pattern.class_pattern(request.mode),
                reading::class_text(request.objects, request.classes),
            );
            let read = reading::class_reading(
                request.objects,
                request.classes,
                plan::class_plan(request.pattern.segments).segments,
                request.mode,
                found->0,
            );
            let unread = found is None || read is None;
            let unplaced = unread || read->0.range is None;
            &&& !e.profiling || !given ==> after == before
            &&& unread ==> after.offset_work == before.offset_work
            &&& unplaced ==> after.object_join == before.object_join && after.direct_execution
                == before.direct_execution && after.fallback_regex == before.fallback_regex
            &&& !unplaced && outcome::direct_for(
                request,
                outcome::plan_for(request, read->0, definitions),
                read->0.range->0,
            ) is Some ==> after.fallback_regex == before.fallback_regex
            &&& before.total <= after.total
            &&& before.class_join <= after.class_join
            &&& before.class_regex <= after.class_regex
            &&& before.offset_work <= after.offset_work
            &&& before.object_join <= after.object_join
            &&& before.direct_execution <= after.direct_execution
            &&& before.fallback_regex <= after.fallback_regex
        }),
{
}

} // verus!
