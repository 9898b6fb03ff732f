//! The caches and counts of an extractor.

use crate::cache;
use crate::cache::{BoundedCache, BoundedCacheView, CacheKey, CacheKeyView, CacheValue, CacheValueView, Entries};
use crate::error;
use crate::error::ParseError;
use crate::extractor::object;
use crate::extractor::object_plan;
use crate::extractor::object_plan::ObjectPlan;
use crate::extractor::outcome;
use crate::extractor::outcome::{ExecutionCounters, Stage, StateView};
use crate::regex;
use crate::regex::TextRegex;
use crate::shared;
use crate::tel::compiled;
use crate::tel::compiled::{CompiledPattern, CompiledPatternView};
use crate::tel::plan;
use crate::tel::MatchMode;
use crate::text;
use std::sync::Arc;
use vstd::hash_map::StringHashMap;
use vstd::prelude::*;

verus! {

/// Nanoseconds spent, in all and by what they were spent on.
#[derive(Debug, Clone, Copy, PartialEq, Eq, Structural)]
pub struct ProfileTimes {
    pub total: u128,
    pub class_join: u128,
    pub class_regex: u128,
    pub offset_work: u128,
    pub object_join: u128,
    pub direct_execution: u128,
    pub fallback_regex: u128,
}

/// No time at all.
pub open spec fn zero_times() -> ProfileTimes {
    ProfileTimes {
        total: 0,
        class_join: 0,
        class_regex: 0,
        offset_work: 0,
        object_join: 0,
        direct_execution: 0,
        fallback_regex: 0,
    }
}

/// A sum with a time added; a sum that can grow no further stays.
pub open spec fn summed(sum: u128, time: u128) -> u128 {
    if sum + time > u128::MAX {
        u128::MAX
    } else {
        (sum + time) as u128
    }
}

/// Times with those of one more extraction added.
pub open spec fn with_row(times: ProfileTimes, row: ProfileTimes) -> ProfileTimes {
    ProfileTimes {
        total: summed(times.total, row.total),
        class_join: summed(times.class_join, row.class_join),
        class_regex: summed(times.class_regex, row.class_regex),
        offset_work: summed(times.offset_work, row.offset_work),
        object_join: summed(times.object_join, row.object_join),
        direct_execution: summed(times.direct_execution, row.direct_execution),
        fallback_regex: summed(times.fallback_regex, row.fallback_regex),
    }
}

/// Whether the times of an extraction are spent on no stage after its last.
pub open spec fn ends_at(row: ProfileTimes, stage: Stage) -> bool {
    &&& stage == Stage::Classes ==> row.offset_work == 0
    &&& stage == Stage::Classes || stage == Stage::Offsets ==> row.object_join == 0
        && row.direct_execution == 0
    &&& stage != Stage::Fallback ==> row.fallback_regex == 0
}

/// Whether times grew by those of one extraction with this last stage.
pub open spec fn grow_by_row(before: ProfileTimes, after: ProfileTimes, stage: Stage) -> bool {
    exists|row: ProfileTimes| after == #[trigger] with_row(before, row) && ends_at(row, stage)
}

/// No time at all.
pub(crate) fn no_time() -> (r: ProfileTimes)
    ensures
        r == zero_times(),
{
    ProfileTimes {
        total: 0,
        class_join: 0,
        class_regex: 0,
        offset_work: 0,
        object_join: 0,
        direct_execution: 0,
        fallback_regex: 0,
    }
}

/// The caches and counts of an extractor.
pub(crate) struct State {
    pub(crate) patterns: BoundedCache,
    pub(crate) plans: BoundedCache,
    pub(crate) regexes: BoundedCache,
    pub(crate) counters: ExecutionCounters,
    pub(crate) times: ProfileTimes,
}

impl View for State {
    type V = StateView;

    open(crate) spec fn view(&self) -> StateView {
        StateView {
            patterns: self.patterns@,
            plans: self.plans@,
            regexes: self.regexes@,
            counters: self.counters,
        }
    }
}

/// Whether an entry keeps a pattern by its source.
pub open spec fn keeps_pattern(entry: (CacheKeyView, CacheValueView)) -> bool {
    entry.1 matches CacheValueView::Pattern(pattern) && pattern.is_compiled() && entry.0
        == outcome::pattern_key(pattern.source)
}

/// Whether an entry keeps the plan of its pattern, mode, captured classes and offset.
pub open spec fn keeps_plan(
    entry: (CacheKeyView, CacheValueView),
    definitions: Map<Seq<char>, Seq<char>>,
) -> bool {
    forall|pattern: CompiledPatternView, mode: MatchMode|
        #![trigger pattern.is_compiled(), outcome::mode_number(mode)]
        pattern.is_compiled() && pattern.source == (entry.0).0 && outcome::mode_number(mode) == (
        entry.0).1 ==> entry.1 == CacheValueView::Plan(
            object_plan::object_plan(
                plan::class_plan(pattern.segments).segments,
                (entry.0).2,
                mode,
                (entry.0).3,
                definitions,
            ),
        )
}

/// Whether an entry keeps an expression by its pattern.
pub open spec fn keeps_regex(entry: (CacheKeyView, CacheValueView)) -> bool {
    entry.1 == CacheValueView::Regex((entry.0).0) && regex::regex_accepts((entry.0).0)
}

/// Whether every entry passes a test.
pub open spec fn all_pass(
    entries: Entries,
    test: spec_fn((CacheKeyView, CacheValueView)) -> bool,
) -> bool {
    forall|i: int| 0 <= i < entries.len() ==> test(#[trigger] entries[i])
}

/// Whether the caches keep what belongs to their keys.
pub open spec fn keeps_right(state: StateView, definitions: Map<Seq<char>, Seq<char>>) -> bool {
    &&& all_pass(state.patterns.entries, |entry| keeps_pattern(entry))
    &&& all_pass(state.plans.entries, |entry| keeps_plan(entry, definitions))
    &&& all_pass(state.regexes.entries, |entry| keeps_regex(entry))
}

/// Looking a key up keeps what every entry passes.
pub proof fn lemma_looked_up_passes(
    c: BoundedCacheView,
    key: CacheKeyView,
    test: spec_fn((CacheKeyView, CacheValueView)) -> bool,
)
    requires
        all_pass(c.entries, test),
    ensures
        all_pass(c.looked_up(key).entries, test),
        cache::has_key(c.entries, key) ==> test(
            c.entries[cache::place_of(c.entries, key)],
        ) && c.entries[cache::place_of(c.entries, key)].0 == key,
{
    if cache::has_key(c.entries, key) {
        let at = cache::place_of(c.entries, key);
        assert(cache::is_at(c.entries, key, at));
        let after = c.looked_up(key).entries;
        assert forall|i: int| 0 <= i < after.len() implies test(#[trigger] after[i]) by {
            if i > 0 {
                let b = if i - 1 < at {
                    i - 1
                } else {
                    i
                };
                assert(after[i] == c.entries[b]);
            }
        }
    }
}

/// Putting in what passes keeps what every entry passes.
pub proof fn lemma_inserted_passes(
    c: BoundedCacheView,
    key: CacheKeyView,
    value: CacheValueView,
    test: spec_fn((CacheKeyView, CacheValueView)) -> bool,
)
    requires
        all_pass(c.entries, test),
        test((key, value)),
    ensures
        all_pass(c.inserted(key, value).entries, test),
{
    let after = c.inserted(key, value).entries;
    if c.capacity > 0 {
        if cache::has_key(c.entries, key) {
            let at = cache::place_of(c.entries, key);
            assert(cache::is_at(c.entries, key, at));
            assert forall|i: int| 0 <= i < after.len() implies test(#[trigger] after[i]) by {
                if i > 0 {
                    let b = if i - 1 < at {
                        i - 1
                    } else {
                        i
                    };
                    assert(after[i] == c.entries[b]);
                }
            }
        } else {
            assert forall|i: int| 0 <= i < after.len() implies test(#[trigger] after[i]) by {
                if i > 0 {
                    assert(after[i] == c.entries[i - 1]);
                }
            }
        }
    }
}

/// The state after a pattern was asked for.
pub open spec fn after_pattern(state: StateView, pattern: Seq<char>) -> StateView {
    let key = outcome::pattern_key(pattern);
    StateView {
        patterns: match compiled::pattern_segments(pattern) {
            Ok(segments) => outcome::through(
                state.patterns,
                key,
                CacheValueView::Pattern(CompiledPatternView { source: pattern, segments }),
            ),
            Err(_) => state.patterns.looked_up(key),
        },
        ..state
    }
}

fn text_key(pattern: &str) -> (r: CacheKey)
    ensures
        cache::key_view(r) == outcome::pattern_key(pattern@),
{
    let none: Vec<Option<String>> = Vec::new();
    assert(object_plan::captured_view(none@) =~= Seq::empty());
    (pattern.to_string(), 0, none, None)
}

fn number_of(mode: MatchMode) -> (r: u8)
    ensures
        r == outcome::mode_number(mode),
{
    match mode {
        MatchMode::Whole => 0,
        MatchMode::Start => 1,
        MatchMode::End => 2,
        MatchMode::Any => 3,
    }
}

fn clone_captured(captured: &Vec<Option<String>>) -> (r: Vec<Option<String>>)
    ensures
        object_plan::captured_view(r@) == object_plan::captured_view(captured@),
{
    let mut copy: Vec<Option<String>> = Vec::new();
    let mut i: usize = 0;
    while i < captured.len()
        invariant
            i <= captured.len(),
            copy.len() == i,
            forall|j: int|
                0 <= j < i ==> (#[trigger] copy@[j]).deep_view() == captured@[j].deep_view(),
        decreases captured.len() - i,
    {
        copy.push(text::clone_text(&captured[i]));
        i = i + 1;
    }
    assert(object_plan::captured_view(copy@) =~= object_plan::captured_view(captured@));
    copy
}

impl State {
    pub(crate) open(crate) spec fn wf(self, definitions: Map<Seq<char>, Seq<char>>) -> bool {
        &&& self.patterns.wf()
        &&& self.plans.wf()
        &&& self.regexes.wf()
        &&& keeps_right(self@, definitions)
    }

    /// Unused caches of the given capacities, and counts at 0.
    pub(crate) fn new(
        patterns: usize,
        plans: usize,
        regexes: usize,
        Ghost(definitions): Ghost<Map<Seq<char>, Seq<char>>>,
    ) -> (r: Self)
        ensures
            r.wf(definitions),
            r.times == zero_times(),
            r@ == (StateView {
                patterns: BoundedCacheView::unused(patterns),
                plans: BoundedCacheView::unused(plans),
                regexes: BoundedCacheView::unused(regexes),
                counters: ExecutionCounters {
                    direct_execution_attempts: 0,
                    direct_execution_hits: 0,
                    fallback_execution_count: 0,
                    fallback_regex_realizations: 0,
                    profiled_rows: 0,
                },
            }),
    {
        State {
            patterns: BoundedCache::new(patterns),
            plans: BoundedCache::new(plans),
            regexes: BoundedCache::new(regexes),
            counters: ExecutionCounters {
                direct_execution_attempts: 0,
                direct_execution_hits: 0,
                fallback_execution_count: 0,
                fallback_regex_realizations: 0,
                profiled_rows: 0,
            },
            times: no_time(),
        }
    }

    /// The compiled form of a pattern.
    pub(crate) fn get_or_compile_pattern(
        &mut self,
        pattern: &str,
        Ghost(definitions): Ghost<Map<Seq<char>, Seq<char>>>,
    ) -> (r: Result<Arc<CompiledPattern>, ParseError>)
        requires
            old(self).wf(definitions),
        ensures
            final(self).wf(definitions),
            final(self)@ == after_pattern(old(self)@, pattern@),
            final(self).times == old(self).times,
            match (r, compiled::pattern_segments(pattern@)) {
                (Ok(x), Ok(segments)) => x@ == (CompiledPatternView { source: pattern@, segments }),
                (Err(e), Err(m)) => error::is_invalid_pattern(e, m),
                _ => false,
            },
    {
        let ghost test = |entry: (CacheKeyView, CacheValueView)| keeps_pattern(entry);
        let key = text_key(pattern);
        proof {
            lemma_looked_up_passes(self@.patterns, outcome::pattern_key(pattern@), test);
        }
        let found = self.patterns.get_cloned(&key);
        if let Some(CacheValue::Pattern(pattern)) = found {
            return Ok(pattern);
        }
        match CompiledPattern::compile(pattern) {
            Ok(compiled) => {
                let compiled = Arc::new(compiled);
                proof {
                    lemma_inserted_passes(
                        self@.patterns,
                        outcome::pattern_key(pattern@),
                        CacheValueView::Pattern(compiled@),
                        test,
                    );
                }
                self.patterns.insert(key, CacheValue::Pattern(shared::share(&compiled)));
                Ok(compiled)
            },
            Err(error) => Err(error),
        }
    }

    /// The plan of a pattern for captured classes.
    pub(crate) fn get_or_build_object_plan(
        &mut self,
        pattern: &CompiledPattern,
        captured: &Vec<Option<String>>,
        mode: MatchMode,
        any_prefix_len: Option<usize>,
        token_definitions: &StringHashMap<String>,
    ) -> (r: Arc<ObjectPlan>)
        requires
            old(self).wf(object::texts(token_definitions@)),
        ensures
            final(self).wf(object::texts(token_definitions@)),
            final(self).times == old(self).times,
            r@ == object_plan::object_plan(
                plan::class_plan(pattern@.segments).segments,
                object_plan::captured_view(captured@),
                mode,
                any_prefix_len,
                object::texts(token_definitions@),
            ),
            final(self)@ == (StateView {
                plans: outcome::through(
                    old(self)@.plans,
                    outcome::plan_key(
                        pattern@.source,
                        mode,
                        object_plan::captured_view(captured@),
                        any_prefix_len,
                    ),
                    CacheValueView::Plan(r@),
                ),
                ..old(self)@
            }),
    {
        let ghost definitions = object::texts(token_definitions@);
        let ghost test = |entry: (CacheKeyView, CacheValueView)| keeps_plan(entry, definitions);
        let ghost key_view = outcome::plan_key(
            pattern@.source,
            mode,
            object_plan::captured_view(captured@),
            any_prefix_len,
        );
        let source = pattern.source();
        let key: CacheKey = (
            source.to_string(),
            number_of(mode),
            clone_captured(captured),
            any_prefix_len,
        );
        proof {
            lemma_looked_up_passes(self@.plans, key_view, test);
        }
        let found = self.plans.get_cloned(&key);
        proof {
            if found is Some {
                assert(pattern@.is_compiled());
                assert(outcome::mode_number(mode) == key_view.1);
            }
        }
        if let Some(CacheValue::Plan(plan)) = found {
            return plan;
        }
        let plan = Arc::new(
            object_plan::build_object_plan(
                pattern.class_segments(),
                captured.as_slice(),
                mode,
                any_prefix_len,
                token_definitions,
            ),
        );
        proof {
            assert forall|other: CompiledPatternView, m: MatchMode|
                #![trigger other.is_compiled(), outcome::mode_number(m)]
                other.is_compiled() && other.source == key_view.0 && outcome::mode_number(m)
                    == key_view.1 implies CacheValueView::Plan(plan@) == CacheValueView::Plan(
                object_plan::object_plan(
                    plan::class_plan(other.segments).segments,
                    key_view.2,
                    m,
                    key_view.3,
                    definitions,
                ),
            ) by {
                assert(other.segments == pattern@.segments);
                assert(m == mode);
            }
            lemma_inserted_passes(self@.plans, key_view, CacheValueView::Plan(plan@), test);
        }
        self.plans.insert(key, CacheValue::Plan(shared::share(&plan)));
        plan
    }

    /// The compiled expression of a plan.
    pub(crate) fn get_or_compile_fallback_regex(
        &mut self,
        pattern: &str,
        Ghost(definitions): Ghost<Map<Seq<char>, Seq<char>>>,
    ) -> (r: Result<Arc<TextRegex>, ParseError>)
        requires
            old(self).wf(definitions),
        ensures
            final(self).wf(definitions),
            final(self).times == old(self).times,
            final(self)@ == outcome::after_regex(old(self)@, pattern@),
            r is Ok <==> regex::regex_accepts(pattern@),
            r matches Ok(x) ==> x.source() == pattern@,
            r matches Err(e) ==> regex::is_engine_error(
                e,
                regex::compile_message("object comparator"@, pattern@),
            ),
    {
        let ghost test = |entry: (CacheKeyView, CacheValueView)| keeps_regex(entry);
        let key = text_key(pattern);
        proof {
            lemma_looked_up_passes(self@.regexes, outcome::pattern_key(pattern@), test);
        }
        let found = self.regexes.get_cloned(&key);
        if let Some(CacheValue::Regex(regex)) = found {
            return Ok(regex);
        }
        match regex::compile_comparator(pattern, "object comparator") {
            Ok(compiled) => {
                let compiled = Arc::new(compiled);
                proof {
                    lemma_inserted_passes(
                        self@.regexes,
                        outcome::pattern_key(pattern@),
                        CacheValueView::Regex(pattern@),
                        test,
                    );
                }
                self.regexes.insert(key, CacheValue::Regex(shared::share(&compiled)));
                self.counters.fallback_regex_realizations = cache::bump(
                    self.counters.fallback_regex_realizations,
                );
                Ok(compiled)
            },
            Err(error) => Err(error),
        }
    }
}

} // verus!
