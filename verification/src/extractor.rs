//! Extraction of fields from classified tokens.

pub mod complement;
pub mod count_laws;
pub mod execute;
pub mod fields;
pub mod groups;
pub mod laws;
pub mod match_laws;
pub mod object;
pub mod object_plan;
pub mod outcome;
mod parse;
pub mod plan_laws;
pub mod reading;
pub mod run_laws;
pub mod sound;
pub mod spans;
pub mod state;
pub mod tally;

pub use crate::cache::CacheStats;
pub use crate::extractor::fields::FieldMap;
pub use crate::extractor::object_plan::ObjComparatorTokenInfo;
pub use crate::extractor::outcome::ParseOutput;
pub use crate::tel::MatchMode;

use crate::cache::BoundedCacheView;
use crate::error;
use crate::error::ParseError;
use crate::extractor::outcome::{ExecutionCounters, Faults, Request, StateView};
use crate::extractor::parse::Task;
use crate::extractor::state::{ProfileTimes, State};
use crate::tel::compiled;
use crate::tel::compiled::CompiledPatternView;
use crate::tel::{CompiledPattern, TokenInfo};
use crate::text;
use crate::token_model;
use crate::token_model::{Classes, Definitions};
use crate::tokenizer;
use crate::tokenizer::{TokenClassList, TokenDefinition, TokenizedResult};
use std::sync::Arc;
use vstd::hash_map::StringHashMap;
use vstd::prelude::*;

verus! {

/// How much the caches of an extractor hold.
#[derive(Debug, Clone, Copy, PartialEq, Eq, Structural)]
pub struct ExtractorConfig {
    pub compiled_pattern_cache_capacity: usize,
    pub object_plan_cache_capacity: usize,
    pub fallback_regex_cache_capacity: usize,
}

impl Default for ExtractorConfig {
    fn default() -> (r: Self)
        ensures
            r == (ExtractorConfig {
                compiled_pattern_cache_capacity: 512,
                object_plan_cache_capacity: 2048,
                fallback_regex_cache_capacity: 2048,
            }),
    {
        ExtractorConfig {
            compiled_pattern_cache_capacity: 512,
            object_plan_cache_capacity: 2048,
            fallback_regex_cache_capacity: 2048,
        }
    }
}

/// The expressions of token types by name; of two definitions of one name the later counts.
pub open spec fn definition_map(definitions: Definitions) -> Map<Seq<char>, Seq<char>>
    decreases definitions.len(),
{
    if definitions.len() == 0 {
        Map::empty()
    } else {
        definition_map(definitions.drop_last()).insert(definitions.last().0, definitions.last().1)
    }
}

/// Extracts fields from classified tokens by TEL patterns.
pub struct Extractor {
    config: ExtractorConfig,
    token_definitions: TokenDefinition,
    token_class_list: TokenClassList,
    token_definition_map: StringHashMap<String>,
    profiling: bool,
    state: State,
}

/// The value of an [`Extractor`].
#[verifier::ext_equal]
pub struct ExtractorView {
    pub config: ExtractorConfig,
    pub definitions: Definitions,
    pub classes: Classes,
    pub profiling: bool,
    pub state: StateView,
}

impl View for Extractor {
    type V = ExtractorView;

    closed spec fn view(&self) -> ExtractorView {
        ExtractorView {
            config: self.config,
            definitions: self.token_definitions.deep_view(),
            classes: self.token_class_list.deep_view(),
            profiling: self.profiling,
            state: self.state@,
        }
    }
}

fn map_definitions(definitions: &TokenDefinition) -> (r: StringHashMap<String>)
    ensures
        object::texts(r@) == definition_map(definitions.deep_view()),
{
    let ghost all = definitions.deep_view();
    let mut map: StringHashMap<String> = StringHashMap::new();
    let mut i: usize = 0;
    assert(object::texts(map@) =~= definition_map(all.take(0)));
    while i < definitions.len()
        invariant
            all == definitions.deep_view(),
            i <= definitions.len(),
            object::texts(map@) == definition_map(all.take(i as int)),
        decreases definitions.len() - i,
    {
        let (name, pattern) = &definitions[i];
        let ghost before = map@;
        map.insert(name.clone(), pattern.clone());
        proof {
            let next = all.take(i + 1);
            assert(next.drop_last() == all.take(i as int));
            assert(next.last() == (name@, pattern@));
            assert(object::texts(map@) =~= object::texts(before).insert(name@, pattern@));
        }
        i = i + 1;
    }
    assert(all.take(i as int) == all);
    map
}

/// How an extractor was used.
#[derive(Debug, Clone, Copy, PartialEq, Eq, Structural)]
pub struct ExtractorStats {
    pub compiled_pattern_cache: CacheStats,
    pub object_plan_cache: CacheStats,
    pub fallback_regex_cache: CacheStats,
    pub unique_plan_signature_count: usize,
    pub direct_only_plan_count: usize,
    pub with_fallback_plan_count: usize,
    pub total_plan_steps: usize,
    pub single_token_step_count: usize,
    pub captured_span_step_count: usize,
    pub literal_step_count: usize,
    pub direct_execution_attempts: usize,
    pub direct_execution_hits: usize,
    pub fallback_execution_count: usize,
    pub fallback_regex_realizations: usize,
    pub profiled_rows: usize,
    pub profile_total_ns: u128,
    pub profile_class_join_ns: u128,
    pub profile_class_regex_ns: u128,
    pub profile_offset_work_ns: u128,
    pub profile_object_join_ns: u128,
    pub profile_direct_execution_ns: u128,
    pub profile_fallback_regex_ns: u128,
}

/// How a cache was used.
pub open spec fn cache_stats(c: BoundedCacheView) -> CacheStats {
    CacheStats {
        capacity: c.capacity,
        len: c.entries.len() as usize,
        hits: c.hits,
        misses: c.misses,
        inserts: c.inserts,
        evictions: c.evictions,
    }
}

/// How an extractor in a state, with the times that it measured, was used.
pub open spec fn extractor_stats(state: StateView, times: ProfileTimes) -> ExtractorStats {
    let plans = tally::tally_of(state.plans.entries);
    ExtractorStats {
        compiled_pattern_cache: cache_stats(state.patterns),
        object_plan_cache: cache_stats(state.plans),
        fallback_regex_cache: cache_stats(state.regexes),
        unique_plan_signature_count: state.plans.entries.len() as usize,
        direct_only_plan_count: tally::clipped(plans.direct_only_plans),
        with_fallback_plan_count: tally::clipped(plans.with_fallback_plans),
        total_plan_steps: tally::clipped(plans.steps),
        single_token_step_count: tally::clipped(plans.single_token_steps),
        captured_span_step_count: tally::clipped(plans.captured_span_steps),
        literal_step_count: tally::clipped(plans.literal_steps),
        direct_execution_attempts: state.counters.direct_execution_attempts,
        direct_execution_hits: state.counters.direct_execution_hits,
        fallback_execution_count: state.counters.fallback_execution_count,
        fallback_regex_realizations: state.counters.fallback_regex_realizations,
        profiled_rows: state.counters.profiled_rows,
        profile_total_ns: times.total,
        profile_class_join_ns: times.class_join,
        profile_class_regex_ns: times.class_regex,
        profile_offset_work_ns: times.offset_work,
        profile_object_join_ns: times.object_join,
        profile_direct_execution_ns: times.direct_execution,
        profile_fallback_regex_ns: times.fallback_regex,
    }
}

/// Whether an extractor went from one value to another by an extraction with this result, where
/// the engine gives up on these searches.
pub open spec fn extracts_under(
    before: ExtractorView,
    after: ExtractorView,
    request: Request,
    faults: Faults,
    r: Result<ParseOutput, ParseError>,
) -> bool {
    &&& after == (ExtractorView { state: after.state, ..before })
    &&& outcome::is_run(
        outcome::parse_run(
            before.state,
            request,
            definition_map(before.definitions),
            before.profiling,
            faults,
        ),
        after.state,
        r,
        request,
    )
}

/// Whether an extractor went from one value to another by an extraction with this result.
pub open spec fn extracts(
    before: ExtractorView,
    after: ExtractorView,
    request: Request,
    r: Result<ParseOutput, ParseError>,
) -> bool {
    exists|faults: Faults| #[trigger] extracts_under(before, after, request, faults, r)
}

/// Whether measured times went from one value to another by an extraction: one that gave an output
/// while profiling adds to them what was spent on the stages that it went through.
pub open spec fn takes_time(
    before: ProfileTimes,
    after: ProfileTimes,
    extractor: ExtractorView,
    request: Request,
    given: bool,
) -> bool {
    if extractor.profiling && given {
        state::grow_by_row(
            before,
            after,
            outcome::last_stage(request, definition_map(extractor.definitions)),
        )
    } else {
        after == before
    }
}

/// What an extraction by a valid pattern is asked.
pub open spec fn pattern_request(
    uid: Seq<char>,
    objects: Seq<Seq<char>>,
    classes: Seq<Seq<char>>,
    pattern: Seq<char>,
    mode: MatchMode,
) -> Request {
    Request {
        uid,
        objects,
        classes,
        pattern: CompiledPatternView {
            source: pattern,
            segments: compiled::pattern_segments(pattern)->Ok_0,
        },
        mode,
    }
}

/// Whether an extractor went from one value to another by compiling a pattern and, where it is
/// valid, an extraction with this result, where the engine gives up on these searches.
pub open spec fn compiles_and_extracts_under(
    before: ExtractorView,
    after: ExtractorView,
    uid: Seq<char>,
    objects: Seq<Seq<char>>,
    classes: Seq<Seq<char>>,
    pattern: Seq<char>,
    mode: MatchMode,
    faults: Faults,
    r: Result<ParseOutput, ParseError>,
) -> bool {
    let middle = ExtractorView {
        state: state::after_pattern(before.state, pattern),
        ..before
    };
    match compiled::pattern_segments(pattern) {
        Err(m) => after == middle && (r matches Err(e) && error::is_invalid_pattern(e, m)),
        Ok(_) => extracts_under(
            middle,
            after,
            pattern_request(uid, objects, classes, pattern, mode),
            faults,
            r,
        ),
    }
}

/// Whether an extractor went from one value to another by compiling a pattern and, where it is
/// valid, an extraction with this result.
pub open spec fn compiles_and_extracts(
    before: ExtractorView,
    after: ExtractorView,
    uid: Seq<char>,
    objects: Seq<Seq<char>>,
    classes: Seq<Seq<char>>,
    pattern: Seq<char>,
    mode: MatchMode,
    r: Result<ParseOutput, ParseError>,
) -> bool {
    exists|faults: Faults|
        #[trigger] compiles_and_extracts_under(
            before,
            after,
            uid,
            objects,
            classes,
            pattern,
            mode,
            faults,
            r,
        )
}

impl Extractor {
    #[verifier::type_invariant]
    spec fn is_right(self) -> bool {
        &&& object::texts(self.token_definition_map@) == definition_map(
            self.token_definitions.deep_view(),
        )
        &&& self.state.wf(definition_map(self.token_definitions.deep_view()))
        &&& sound::is_sound(self@)
    }

    /// An extractor with the default cache capacities.
    #[must_use]
    pub fn new(token_definitions: TokenDefinition, token_class_list: TokenClassList) -> (r: Self)
        ensures
            r@ == new_extractor(
                token_definitions.deep_view(),
                token_class_list.deep_view(),
                ExtractorConfig {
                    compiled_pattern_cache_capacity: 512,
                    object_plan_cache_capacity: 2048,
                    fallback_regex_cache_capacity: 2048,
                },
            ),
            r.times() == state::zero_times(),
    {
        Extractor::new_with_config(token_definitions, token_class_list, ExtractorConfig::default())
    }

    /// An extractor with the given cache capacities.
    #[must_use]
    pub fn new_with_config(
        token_definitions: TokenDefinition,
        token_class_list: TokenClassList,
        config: ExtractorConfig,
    ) -> (r: Self)
        ensures
            r@ == new_extractor(
                token_definitions.deep_view(),
                token_class_list.deep_view(),
                config,
            ),
            r.times() == state::zero_times(),
    {
        let token_definition_map = map_definitions(&token_definitions);
        let state = State::new(
            config.compiled_pattern_cache_capacity,
            config.object_plan_cache_capacity,
            config.fallback_regex_cache_capacity,
            Ghost(definition_map(token_definitions.deep_view())),
        );
        Extractor {
            config,
            token_definitions,
            token_class_list,
            token_definition_map,
            profiling: false,
            state,
        }
    }

    /// The state of an unused extractor with the same capacities.
    fn unused_state(&self) -> (r: State)
        ensures
            r.wf(definition_map(self@.definitions)),
            sound::is_sound_state(r@),
            sound::has_capacities(r@, self@.config),
    {
        State::new(
            self.config.compiled_pattern_cache_capacity,
            self.config.object_plan_cache_capacity,
            self.config.fallback_regex_cache_capacity,
            Ghost(definition_map(self@.definitions)),
        )
    }

    /// The cache capacities.
    #[must_use]
    pub fn config(&self) -> (r: ExtractorConfig)
        ensures
            r == self@.config,
    {
        self.config
    }

    /// Switches the measuring of times on or off.
    pub fn set_profiling(&mut self, profiling: bool)
        ensures
            final(self)@ == (ExtractorView { profiling, ..old(self)@ }),
            final(self).times() == old(self).times(),
    {
        proof {
            use_type_invariant(&*self);
        }
        self.profiling = profiling;
    }

    /// Compiles a TEL pattern.
    ///
    /// # Errors
    ///
    /// [`ParseError::InvalidPattern`] where a token of the pattern is not valid TEL.
    pub fn compile_pattern(&self, pattern: &str) -> (r: Result<CompiledPattern, ParseError>)
        ensures
            match (r, compiled::pattern_segments(pattern@)) {
                (Ok(x), Ok(segments)) => x@ == (CompiledPatternView { source: pattern@, segments }),
                (Err(e), Err(m)) => error::is_invalid_pattern(e, m),
                _ => false,
            },
    {
        CompiledPattern::compile(pattern)
    }

    /// The tokens of a TEL pattern.
    ///
    /// # Errors
    ///
    /// [`ParseError::InvalidPattern`] where a token of the pattern is not valid TEL.
    pub fn extract_token_info(&self, pattern: &str) -> (r: Result<Vec<TokenInfo>, ParseError>)
        ensures
            match (r, compiled::pattern_segments(pattern@)) {
                (Ok(x), Ok(segments)) => x.deep_view() == compiled::infos(segments),
                (Err(e), Err(m)) => error::is_invalid_pattern(e, m),
                _ => false,
            },
    {
        match self.compile_pattern(pattern) {
            Ok(compiled) => {
                let infos = compiled.token_info();
                let mut copy: Vec<TokenInfo> = Vec::new();
                let mut i: usize = 0;
                while i < infos.len()
                    invariant
                        i <= infos.len(),
                        copy.len() == i,
                        forall|j: int| 0 <= j < i ==> (#[trigger] copy@[j])@ == infos@[j]@,
                    decreases infos.len() - i,
                {
                    copy.push(infos[i].clone());
                    i = i + 1;
                }
                assert(copy.deep_view() =~= infos.deep_view());
                Ok(copy)
            },
            Err(error) => Err(error),
        }
    }
}

impl Extractor {
    /// The times that were measured.
    pub closed spec fn times(self) -> ProfileTimes {
        self.state.times
    }

    /// How the extractor was used.
    ///
    /// # Errors
    ///
    /// None: the counts are always at hand.
    pub fn stats(&self) -> (r: Result<ExtractorStats, ParseError>)
        ensures
            r matches Ok(stats) && stats == extractor_stats(self@.state, self.times())
                && sound::adds_up(stats, self@.config),
    {
        proof {
            use_type_invariant(self);
            sound::law_stats_add_up(self@, self.times());
        }
        let compiled_pattern_cache = self.state.patterns.stats();
        let object_plan_cache = self.state.plans.stats();
        let fallback_regex_cache = self.state.regexes.stats();
        let values = self.state.plans.values();
        let plans = tally::count_plans(&values, Ghost(self.state.plans@.entries));
        let counters = self.state.counters;
        let times = self.state.times;
        Ok(
            ExtractorStats {
                compiled_pattern_cache,
                object_plan_cache,
                fallback_regex_cache,
                unique_plan_signature_count: values.len(),
                direct_only_plan_count: plans.direct_only_plans,
                with_fallback_plan_count: plans.with_fallback_plans,
                total_plan_steps: plans.steps,
                single_token_step_count: plans.single_token_steps,
                captured_span_step_count: plans.captured_span_steps,
                literal_step_count: plans.literal_steps,
                direct_execution_attempts: counters.direct_execution_attempts,
                direct_execution_hits: counters.direct_execution_hits,
                fallback_execution_count: counters.fallback_execution_count,
                fallback_regex_realizations: counters.fallback_regex_realizations,
                profiled_rows: counters.profiled_rows,
                profile_total_ns: times.total,
                profile_class_join_ns: times.class_join,
                profile_class_regex_ns: times.class_regex,
                profile_offset_work_ns: times.offset_work,
                profile_object_join_ns: times.object_join,
                profile_direct_execution_ns: times.direct_execution,
                profile_fallback_regex_ns: times.fallback_regex,
            },
        )
    }

    /// Extracts by a compiled pattern from borrowed tokens and classes.
    ///
    /// # Errors
    ///
    /// [`ParseError::InvalidPattern`] where the engine refuses an expression or gives up on a
    /// search.
    pub fn parse_compiled_tokens_with_views(
        &mut self,
        uid: &str,
        obj_string_list: &[&str],
        obj_class_list: &[&str],
        compiled_pattern: &CompiledPattern,
        mode: MatchMode,
    ) -> (r: Result<ParseOutput, ParseError>)
        ensures
            extracts(
                old(self)@,
                final(self)@,
                Request {
                    uid: uid@,
                    objects: obj_string_list.deep_view(),
                    classes: obj_class_list.deep_view(),
                    pattern: compiled_pattern@,
                    mode,
                },
                r,
            ),
            takes_time(
                old(self).times(),
                final(self).times(),
                old(self)@,
                Request {
                    uid: uid@,
                    objects: obj_string_list.deep_view(),
                    classes: obj_class_list.deep_view(),
                    pattern: compiled_pattern@,
                    mode,
                },
                r is Ok,
            ),
    {
        proof {
            use_type_invariant(&*self);
        }
        let ghost definitions = definition_map(self.token_definitions.deep_view());
        let mut state = self.unused_state();
        std::mem::swap(&mut state, &mut self.state);
        let task = Task {
            uid,
            object_list: obj_string_list,
            class_list: obj_class_list,
            pattern: compiled_pattern,
            mode,
        };
        let result = parse::run_task(&mut state, task, &self.token_definition_map, self.profiling);
        proof {
            let request = task.request();
            let faults = choose|faults: Faults|
                outcome::is_run(
                    #[trigger] outcome::parse_run(
                        old(self)@.state,
                        request,
                        definitions,
                        old(self)@.profiling,
                        faults,
                    ),
                    state@,
                    result,
                    request,
                );
            let after = ExtractorView { state: state@, ..old(self)@ };
            assert(extracts_under(old(self)@, after, request, faults, result));
            sound::law_extraction_keeps_sound(old(self)@, after, request, faults, result);
        }
        std::mem::swap(&mut state, &mut self.state);
        result
    }

    /// The compiled form of a pattern.
    fn get_or_compile_pattern(&mut self, pattern: &str) -> (r: Result<
        Arc<CompiledPattern>,
        ParseError,
    >)
        ensures
            final(self)@ == (ExtractorView {
                state: state::after_pattern(old(self)@.state, pattern@),
                ..old(self)@
            }),
            final(self).times() == old(self).times(),
            match (r, compiled::pattern_segments(pattern@)) {
                (Ok(x), Ok(segments)) => x@ == (CompiledPatternView { source: pattern@, segments }),
                (Err(e), Err(m)) => error::is_invalid_pattern(e, m),
                _ => false,
            },
    {
        proof {
            use_type_invariant(&*self);
        }
        let ghost definitions = definition_map(self.token_definitions.deep_view());
        let mut state = self.unused_state();
        std::mem::swap(&mut state, &mut self.state);
        let result = state.get_or_compile_pattern(pattern, Ghost(definitions));
        proof {
            sound::law_pattern_keeps_sound(old(self)@, pattern@);
        }
        std::mem::swap(&mut state, &mut self.state);
        result
    }

    /// Extracts by a compiled pattern.
    ///
    /// # Errors
    ///
    /// As for [`Extractor::parse_compiled_tokens_with_views`].
    pub fn parse_compiled_tokens(
        &mut self,
        uid: &str,
        obj_string_list: &[String],
        obj_class_list: &[String],
        compiled_pattern: &CompiledPattern,
        mode: MatchMode,
    ) -> (r: Result<ParseOutput, ParseError>)
        ensures
            extracts(
                old(self)@,
                final(self)@,
                Request {
                    uid: uid@,
                    objects: obj_string_list.deep_view(),
                    classes: obj_class_list.deep_view(),
                    pattern: compiled_pattern@,
                    mode,
                },
                r,
            ),
            takes_time(
                old(self).times(),
                final(self).times(),
                old(self)@,
                Request {
                    uid: uid@,
                    objects: obj_string_list.deep_view(),
                    classes: obj_class_list.deep_view(),
                    pattern: compiled_pattern@,
                    mode,
                },
                r is Ok,
            ),
    {
        let objects = text::texts_of(obj_string_list);
        let classes = text::texts_of(obj_class_list);
        self.parse_compiled_tokens_with_views(
            uid,
            objects.as_slice(),
            classes.as_slice(),
            compiled_pattern,
            mode,
        )
    }

    /// Extracts by a compiled pattern with borrowed classes.
    ///
    /// # Errors
    ///
    /// As for [`Extractor::parse_compiled_tokens_with_views`].
    pub fn parse_compiled_tokens_with_classes(
        &mut self,
        uid: &str,
        obj_string_list: &[String],
        obj_class_list: &[&str],
        compiled_pattern: &CompiledPattern,
        mode: MatchMode,
    ) -> (r: Result<ParseOutput, ParseError>)
        ensures
            extracts(
                old(self)@,
                final(self)@,
                Request {
                    uid: uid@,
                    objects: obj_string_list.deep_view(),
                    classes: obj_class_list.deep_view(),
                    pattern: compiled_pattern@,
                    mode,
                },
                r,
            ),
            takes_time(
                old(self).times(),
                final(self).times(),
                old(self)@,
                Request {
                    uid: uid@,
                    objects: obj_string_list.deep_view(),
                    classes: obj_class_list.deep_view(),
                    pattern: compiled_pattern@,
                    mode,
                },
                r is Ok,
            ),
    {
        let objects = text::texts_of(obj_string_list);
        self.parse_compiled_tokens_with_views(
            uid,
            objects.as_slice(),
            obj_class_list,
            compiled_pattern,
            mode,
        )
    }

    /// Extracts by a pattern from borrowed tokens and classes.
    ///
    /// # Errors
    ///
    /// [`ParseError::InvalidPattern`] where the pattern is not valid TEL, and as for
    /// [`Extractor::parse_compiled_tokens_with_views`].
    pub fn parse_tokens_with_views(
        &mut self,
        uid: &str,
        obj_string_list: &[&str],
        obj_class_list: &[&str],
        pattern: &str,
        mode: MatchMode,
    ) -> (r: Result<ParseOutput, ParseError>)
        ensures
            compiles_and_extracts(
                old(self)@,
                final(self)@,
                uid@,
                obj_string_list.deep_view(),
                obj_class_list.deep_view(),
                pattern@,
                mode,
                r,
            ),
            takes_time(
                old(self).times(),
                final(self).times(),
                old(self)@,
                pattern_request(
                    uid@,
                    obj_string_list.deep_view(),
                    obj_class_list.deep_view(),
                    pattern@,
                    mode,
                ),
                r is Ok,
            ),
    {
        let ghost request = pattern_request(
            uid@,
            obj_string_list.deep_view(),
            obj_class_list.deep_view(),
            pattern@,
            mode,
        );
        let compiled = self.get_or_compile_pattern(pattern);
        let ghost middle = self@;
        let result = match compiled {
            Ok(compiled) => self.parse_compiled_tokens_with_views(
                uid,
                obj_string_list,
                obj_class_list,
                &compiled,
                mode,
            ),
            Err(error) => Err(error),
        };
        proof {
            let faults = if compiled::pattern_segments(pattern@) is Ok {
                choose|faults: Faults|
                    #[trigger] extracts_under(middle, self@, request, faults, result)
            } else {
                Faults { class_search: false, object_search: false }
            };
            assert(compiles_and_extracts_under(
                old(self)@,
                self@,
                uid@,
                obj_string_list.deep_view(),
                obj_class_list.deep_view(),
                pattern@,
                mode,
                faults,
                result,
            ));
        }
        result
    }

    /// Extracts by a pattern.
    ///
    /// # Errors
    ///
    /// As for [`Extractor::parse_tokens_with_views`].
    pub fn parse_tokens(
        &mut self,
        uid: &str,
        obj_string_list: &[String],
        obj_class_list: &[String],
        pattern: &str,
        mode: MatchMode,
    ) -> (r: Result<ParseOutput, ParseError>)
        ensures
            compiles_and_extracts(
                old(self)@,
                final(self)@,
                uid@,
                obj_string_list.deep_view(),
                obj_class_list.deep_view(),
                pattern@,
                mode,
                r,
            ),
            takes_time(
                old(self).times(),
                final(self).times(),
                old(self)@,
                pattern_request(
                    uid@,
                    obj_string_list.deep_view(),
                    obj_class_list.deep_view(),
                    pattern@,
                    mode,
                ),
                r is Ok,
            ),
    {
        let objects = text::texts_of(obj_string_list);
        let classes = text::texts_of(obj_class_list);
        self.parse_tokens_with_views(uid, objects.as_slice(), classes.as_slice(), pattern, mode)
    }

    /// Extracts by a pattern with borrowed classes.
    ///
    /// # Errors
    ///
    /// As for [`Extractor::parse_tokens_with_views`].
    pub fn parse_tokens_with_classes(
        &mut self,
        uid: &str,
        obj_string_list: &[String],
        obj_class_list: &[&str],
        pattern: &str,
        mode: MatchMode,
    ) -> (r: Result<ParseOutput, ParseError>)
        ensures
            compiles_and_extracts(
                old(self)@,
                final(self)@,
                uid@,
                obj_string_list.deep_view(),
                obj_class_list.deep_view(),
                pattern@,
                mode,
                r,
            ),
            takes_time(
                old(self).times(),
                final(self).times(),
                old(self)@,
                pattern_request(
                    uid@,
                    obj_string_list.deep_view(),
                    obj_class_list.deep_view(),
                    pattern@,
                    mode,
                ),
                r is Ok,
            ),
    {
        let objects = text::texts_of(obj_string_list);
        self.parse_tokens_with_views(uid, objects.as_slice(), obj_class_list, pattern, mode)
    }

    /// Cuts a text into tokens, tells their classes, and extracts by a pattern that has to match
    /// the whole text.
    ///
    /// # Errors
    ///
    /// [`ParseError::InvalidTokenDefinition`] where the engine refuses the expression of a
    /// definition, [`ParseError::InvalidPattern`] where it gives up on finding the word edges of
    /// the text, and as for [`Extractor::parse_tokens_with_views`].
    pub fn parse_string(&mut self, raw_value: &str, pattern: &str) -> (r: Result<
        (String, FieldMap, String),
        ParseError,
    >)
        ensures
            if token_model::definitions_compile(old(self)@.definitions) {
                ||| final(self)@ == old(self)@ && final(self).times() == old(self).times() && (
                r matches Err(e) && error::is_invalid_pattern(e, tokenizer::NO_WORD_EDGES@))
                ||| exists|tokenized: TokenizedResult, output: Result<ParseOutput, ParseError>|
                    {
                        &&& #[trigger] tokenizer::is_tokenized(
                            tokenized,
                            raw_value@,
                            old(self)@.definitions,
                            Some(old(self)@.classes),
                        )
                        &&& tokenized.tokens.deep_view() == tokenizer::word_pieces(raw_value@)
                        &&& #[trigger] compiles_and_extracts(
                            old(self)@,
                            final(self)@,
                            raw_value@,
                            tokenized.tokens.deep_view(),
                            tokenized.classes.deep_view(),
                            pattern@,
                            MatchMode::Whole,
                            output,
                        )
                        &&& takes_time(
                            old(self).times(),
                            final(self).times(),
                            old(self)@,
                            pattern_request(
                                raw_value@,
                                tokenized.tokens.deep_view(),
                                tokenized.classes.deep_view(),
                                pattern@,
                                MatchMode::Whole,
                            ),
                            output is Ok,
                        )
                        &&& match (r, output) {
                            (Ok(x), Ok(y)) => x.0@ == y.uid@ && x.1@ == y.fields@ && x.2@
                                == y.complement@,
                            (Err(e), Err(f)) => e == f,
                            _ => false,
                        }
                    }
            } else {
                final(self)@ == old(self)@ && final(self).times() == old(self).times() && (
                r matches Err(e) && token_model::tells_refusal(
                    e,
                    old(self)@.definitions,
                ))
            },
    {
        let tokenized = match tokenizer::try_tokenize_and_classify(
            raw_value,
            &self.token_definitions,
            Some(&self.token_class_list),
        ) {
            Ok(tokenized) => tokenized,
            Err(error) => {
                return Err(error);
            },
        };
        let tokens = tokenized.tokens.as_slice();
        let classes = tokenized.classes.as_slice();
        let output = self.parse_tokens(
            raw_value,
            tokens,
            classes,
            pattern,
            MatchMode::Whole,
        );
        proof {
            assert(tokenizer::is_tokenized(
                tokenized,
                raw_value@,
                old(self)@.definitions,
                Some(old(self)@.classes),
            ));
            assert(tokens.deep_view() =~= tokenized.tokens.deep_view());
            assert(classes.deep_view() =~= tokenized.classes.deep_view());
            assert(compiles_and_extracts(
                old(self)@,
                self@,
                raw_value@,
                tokenized.tokens.deep_view(),
                tokenized.classes.deep_view(),
                pattern@,
                MatchMode::Whole,
                output,
            ));
        }
        match output {
            Ok(output) => Ok((output.uid, output.fields, output.complement)),
            Err(error) => Err(error),
        }
    }
}

/// An unused extractor.
pub open spec fn new_extractor(
    definitions: Definitions,
    classes: Classes,
    config: ExtractorConfig,
) -> ExtractorView {
    ExtractorView {
        config,
        definitions,
        classes,
        profiling: false,
        state: StateView {
            patterns: BoundedCacheView::unused(config.compiled_pattern_cache_capacity),
            plans: BoundedCacheView::unused(config.object_plan_cache_capacity),
            regexes: BoundedCacheView::unused(config.fallback_regex_cache_capacity),
            counters: ExecutionCounters {
                direct_execution_attempts: 0,
                direct_execution_hits: 0,
                fallback_execution_count: 0,
                fallback_regex_realizations: 0,
                profiled_rows: 0,
            },
        },
    }
}

} // verus!
