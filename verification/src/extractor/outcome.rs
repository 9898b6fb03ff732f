//! What an extraction comes to, and what it leaves behind in the caches and counts.

use crate::cache;
use crate::cache::{BoundedCacheView, CacheKeyView, CacheValueView};
use crate::error;
use crate::error::ParseError;
use crate::extractor::complement;
use crate::extractor::execute;
use crate::extractor::fields::FieldMap;
use crate::extractor::object_plan;
use crate::extractor::object_plan::ObjectPlanView;
use crate::extractor::reading;
use crate::regex;
use crate::regex::GroupSpan;
use crate::tel::compiled::CompiledPatternView;
use crate::tel::plan;
use crate::tel::MatchMode;
use crate::text;
use vstd::prelude::*;

verus! {

/// What an extraction gives: the name of the object, the fields that were filled, and what is left
/// over of the object text.
#[derive(Debug, PartialEq, Eq)]
pub struct ParseOutput {
    pub uid: String,
    pub fields: FieldMap,
    pub complement: String,
}

/// The value of a [`ParseOutput`].
#[verifier::ext_equal]
pub struct ParseOutputView {
    pub uid: Seq<char>,
    pub fields: Map<Seq<char>, Seq<char>>,
    pub complement: Seq<char>,
}

impl View for ParseOutput {
    type V = ParseOutputView;

    open spec fn view(&self) -> ParseOutputView {
        ParseOutputView {
            uid: self.uid@,
            fields: self.fields@,
            complement: self.complement@,
        }
    }
}

impl Clone for ParseOutput {
    fn clone(&self) -> (r: Self)
        ensures
            r@ == self@,
    {
        ParseOutput {
            uid: self.uid.clone(),
            fields: self.fields.clone(),
            complement: self.complement.clone(),
        }
    }
}

/// How often extractions took which way.
#[derive(Debug, Clone, Copy, PartialEq, Eq, Structural)]
pub struct ExecutionCounters {
    pub direct_execution_attempts: usize,
    pub direct_execution_hits: usize,
    pub fallback_execution_count: usize,
    pub fallback_regex_realizations: usize,
    pub profiled_rows: usize,
}

/// What extractions leave behind.
#[verifier::ext_equal]
pub struct StateView {
    pub patterns: BoundedCacheView,
    pub plans: BoundedCacheView,
    pub regexes: BoundedCacheView,
    pub counters: ExecutionCounters,
}

/// What an extraction is asked.
pub struct Request {
    pub uid: Seq<char>,
    pub objects: Seq<Seq<char>>,
    pub classes: Seq<Seq<char>>,
    pub pattern: CompiledPatternView,
    pub mode: MatchMode,
}

/// Which searches the engine gives up on.
pub struct Faults {
    pub class_search: bool,
    pub object_search: bool,
}

/// What an extraction comes to.
pub enum Outcome {
    /// An output.
    Output(ParseOutputView),
    /// The engine refuses the expression over classes.
    ClassPattern,
    /// The engine gives up on the search in the class text.
    ClassSearch,
    /// The class text matched without a whole match.
    NoWholeMatch,
    /// The engine refuses the expression over the object text.
    ObjectPattern(Seq<char>),
    /// The engine gives up on the search in the object text.
    ObjectSearch(Seq<char>),
    /// The groups in the object text do not enclose parts of it.
    GroupsAstray,
}

/// The number of a mode.
pub open spec fn mode_number(mode: MatchMode) -> u8 {
    match mode {
        MatchMode::Whole => 0,
        MatchMode::Start => 1,
        MatchMode::End => 2,
        MatchMode::Any => 3,
    }
}

/// The key of a pattern.
pub open spec fn pattern_key(pattern: Seq<char>) -> CacheKeyView {
    (pattern, 0, Seq::empty(), None)
}

/// The key of a plan.
pub open spec fn plan_key(
    pattern: Seq<char>,
    mode: MatchMode,
    captured: Seq<Option<Seq<char>>>,
    prefix: Option<usize>,
) -> CacheKeyView {
    (pattern, mode_number(mode), captured, prefix)
}

/// A cache after a value was asked for, and put in where it was not there.
pub open spec fn through(c: BoundedCacheView, key: CacheKeyView, value: CacheValueView) -> BoundedCacheView {
    if cache::has_key(c.entries, key) {
        c.looked_up(key)
    } else {
        c.looked_up(key).inserted(key, value)
    }
}

/// The output when nothing was extracted.
pub open spec fn unmatched(request: Request) -> ParseOutputView {
    ParseOutputView {
        uid: request.uid,
        fields: Map::empty(),
        complement: text::concat(request.objects),
    }
}

/// The output for fields and what is left over; where the texts began with a blank token, a space
/// comes first.
pub open spec fn matched(
    request: Request,
    fields: Map<Seq<char>, Seq<char>>,
    complement: Seq<char>,
) -> ParseOutputView {
    ParseOutputView {
        uid: request.uid,
        fields,
        complement: if reading::leads_blank(request.objects, request.classes) {
            " "@ + complement
        } else {
            complement
        },
    }
}

/// The plan for what a match in the class text tells.
pub open spec fn plan_for(
    request: Request,
    told: reading::ClassReadingView,
    definitions: Map<Seq<char>, Seq<char>>,
) -> ObjectPlanView {
    object_plan::object_plan(
        plan::class_plan(request.pattern.segments).segments,
        told.captured,
        request.mode,
        told.prefix,
        definitions,
    )
}

/// The key of the plan for what a match in the class text tells.
pub open spec fn key_for(request: Request, told: reading::ClassReadingView) -> CacheKeyView {
    plan_key(request.pattern.source, request.mode, told.captured, told.prefix)
}

/// What the steps of a plan come to on the tokens of a range.
pub open spec fn direct_for(request: Request, plan: ObjectPlanView, range: (int, int)) -> Option<
    (Map<Seq<char>, Seq<char>>, Seq<(usize, usize)>),
> {
    if reading::leads_blank(request.objects, request.classes) {
        None
    } else {
        execute::direct(
            plan.allow_direct,
            plan.steps,
            execute::Ground {
                objects: request.objects,
                classes: request.classes,
                object: reading::object_text(request.objects, request.classes),
                end: range.1,
            },
            range.0,
        )
    }
}

/// The state after steps were tried.
pub open spec fn after_direct(state: StateView, request: Request, hit: bool) -> StateView {
    let tried = !reading::leads_blank(request.objects, request.classes);
    StateView {
        counters: ExecutionCounters {
            direct_execution_attempts: if tried {
                cache::bumped(state.counters.direct_execution_attempts)
            } else {
                state.counters.direct_execution_attempts
            },
            direct_execution_hits: if hit {
                cache::bumped(state.counters.direct_execution_hits)
            } else {
                state.counters.direct_execution_hits
            },
            fallback_execution_count: if hit {
                state.counters.fallback_execution_count
            } else {
                cache::bumped(state.counters.fallback_execution_count)
            },
            ..state.counters
        },
        ..state
    }
}

/// The state after the expression of a plan was asked for.
pub open spec fn after_regex(state: StateView, pattern: Seq<char>) -> StateView {
    let key = pattern_key(pattern);
    if cache::has_key(state.regexes.entries, key) || !regex::regex_accepts(pattern) {
        StateView { regexes: state.regexes.looked_up(key), ..state }
    } else {
        StateView {
            regexes: through(state.regexes, key, CacheValueView::Regex(pattern)),
            counters: ExecutionCounters {
                fallback_regex_realizations: cache::bumped(
                    state.counters.fallback_regex_realizations,
                ),
                ..state.counters
            },
            ..state
        }
    }
}

/// What the groups of a match in the object text come to.
pub open spec fn object_outcome(request: Request, plan: ObjectPlanView, found: Option<Seq<GroupSpan>>) -> Outcome {
    let object = reading::object_text(request.objects, request.classes);
    match found {
        None => Outcome::Output(unmatched(request)),
        Some(found) => match complement::complement_of_groups(object, found) {
            None => Outcome::GroupsAstray,
            Some(rest) => Outcome::Output(
                matched(request, reading::fields_of(object, plan.variable_names, found), rest),
            ),
        },
    }
}

/// An extraction once the plan is there.
pub open spec fn planned_run(
    state: StateView,
    request: Request,
    plan: ObjectPlanView,
    range: (int, int),
    faults: Faults,
) -> (StateView, Outcome) {
    let object = reading::object_text(request.objects, request.classes);
    match direct_for(request, plan, range) {
        Some((fields, spans)) => (
            after_direct(state, request, true),
            Outcome::Output(
                matched(
                    request,
                    fields,
                    text::trim_start(complement::complement_of_spans(object, spans)),
                ),
            ),
        ),
        None => {
            let next = after_regex(after_direct(state, request, false), plan.pattern);
            if !regex::regex_accepts(plan.pattern) {
                (next, Outcome::ObjectPattern(plan.pattern))
            } else if faults.object_search {
                (next, Outcome::ObjectSearch(plan.pattern))
            } else {
                (
                    next,
                    object_outcome(request, plan, regex::regex_captures(plan.pattern, object)),
                )
            }
        },
    }
}

/// An extraction once the class text was searched.
pub open spec fn searched_run(
    state: StateView,
    request: Request,
    definitions: Map<Seq<char>, Seq<char>>,
    found: Option<Seq<GroupSpan>>,
    faults: Faults,
) -> (StateView, Outcome) {
    match found {
        None => (state, Outcome::Output(unmatched(request))),
        Some(found) => match reading::class_reading(
            request.objects,
            request.classes,
            plan::class_plan(request.pattern.segments).segments,
            request.mode,
            found,
        ) {
            None => (state, Outcome::Output(unmatched(request))),
            Some(told) => {
                let object_plan = plan_for(request, told, definitions);
                let next = StateView {
                    plans: through(
                        state.plans,
                        key_for(request, told),
                        CacheValueView::Plan(object_plan),
                    ),
                    ..state
                };
                if !told.has_whole_match {
                    (next, Outcome::NoWholeMatch)
                } else {
                    match told.range {
                        None => (next, Outcome::Output(unmatched(request))),
                        Some(range) => planned_run(next, request, object_plan, range, faults),
                    }
                }
            },
        },
    }
}

/// A state with one more profiled row where an output was given while profiling.
pub open spec fn profiled(result: (StateView, Outcome), profiling: bool) -> (StateView, Outcome) {
    if profiling && result.1 is Output {
        (
            StateView {
                counters: ExecutionCounters {
                    profiled_rows: cache::bumped(result.0.counters.profiled_rows),
                    ..result.0.counters
                },
                ..result.0
            },
            result.1,
        )
    } else {
        result
    }
}

/// An extraction.
pub open spec fn parse_run(
    state: StateView,
    request: Request,
    definitions: Map<Seq<char>, Seq<char>>,
    profiling: bool,
    faults: Faults,
) -> (StateView, Outcome) {
    let pattern = request.pattern.class_pattern(request.mode);
    let found = regex::regex_captures(
        pattern,
        reading::class_text(request.objects, request.classes),
    );
    if !regex::regex_accepts(pattern) {
        (state, Outcome::ClassPattern)
    } else if faults.class_search {
        (state, Outcome::ClassSearch)
    } else {
        profiled(searched_run(state, request, definitions, found, faults), profiling)
    }
}

/// The stages of an extraction, each after those before it.
#[derive(Clone, Copy, PartialEq, Eq, Structural)]
pub enum Stage {
    /// The class text is joined and searched.
    Classes,
    /// The match is read and its plan made.
    Offsets,
    /// The object text is joined and the steps of the plan are tried.
    Direct,
    /// The object text is searched.
    Fallback,
}

/// The last stage of an extraction that gives an output.
pub open spec fn last_stage(request: Request, definitions: Map<Seq<char>, Seq<char>>) -> Stage {
    match regex::regex_captures(
        request.pattern.class_pattern(request.mode),
        reading::class_text(request.objects, request.classes),
    ) {
        None => Stage::Classes,
        Some(found) => match reading::class_reading(
            request.objects,
            request.classes,
            plan::class_plan(request.pattern.segments).segments,
            request.mode,
            found,
        ) {
            None => Stage::Classes,
            Some(told) => match told.range {
                None => Stage::Offsets,
                Some(range) => if direct_for(
                    request,
                    plan_for(request, told, definitions),
                    range,
                ) is Some {
                    Stage::Direct
                } else {
                    Stage::Fallback
                },
            },
        },
    }
}

/// Whether a result is what an outcome says.
pub open spec fn tells(
    r: Result<ParseOutput, ParseError>,
    outcome: Outcome,
    request: Request,
) -> bool {
    let pattern = request.pattern.class_pattern(request.mode);
    match outcome {
        Outcome::Output(output) => r matches Ok(x) && x@ == output,
        Outcome::ClassPattern => r matches Err(e) && regex::is_engine_error(
            e,
            regex::compile_message("class comparator"@, pattern),
        ),
        Outcome::ClassSearch => r matches Err(e) && regex::is_engine_error(
            e,
            regex::run_message("class comparator"@, pattern),
        ),
        Outcome::NoWholeMatch => r matches Err(e) && error::is_invalid_pattern(
            e,
            "class comparator matched without a full match group"@,
        ),
        Outcome::ObjectPattern(p) => r matches Err(e) && regex::is_engine_error(
            e,
            regex::compile_message("object comparator"@, p),
        ),
        Outcome::ObjectSearch(p) => r matches Err(e) && regex::is_engine_error(
            e,
            regex::run_message("object comparator"@, p),
        ),
        Outcome::GroupsAstray => r matches Err(e) && error::is_invalid_pattern(
            e,
            "object comparator captured spans outside the text"@,
        ),
    }
}

/// Whether a state and a result are what a run says.
pub open spec fn is_run(
    run: (StateView, Outcome),
    after: StateView,
    r: Result<ParseOutput, ParseError>,
    request: Request,
) -> bool {
    after == run.0 && tells(r, run.1, request)
}

} // verus!
