//! Carrying out an extraction.

use crate::cache;
use crate::clock;
use crate::error::ParseError;
use crate::extractor::complement;
use crate::extractor::execute;
use crate::extractor::execute::Ground;
use crate::extractor::fields::FieldMap;
use crate::extractor::object;
use crate::extractor::object_plan;
use crate::extractor::object_plan::{ObjectPlan, PlanStep};
use crate::extractor::outcome;
use crate::extractor::outcome::{Faults, ParseOutput, Request};
use crate::extractor::reading;
use crate::extractor::spans;
use crate::extractor::state;
use crate::extractor::state::{ProfileTimes, State};
use crate::regex;
use crate::regex::GroupSpan;
use crate::tel::plan;
use crate::tel::{CompiledPattern, MatchMode};
use crate::text;
use vstd::hash_map::StringHashMap;
use vstd::prelude::*;

verus! {

/// What an extraction is asked.
#[derive(Clone, Copy)]
pub(crate) struct Task<'a> {
    pub(crate) uid: &'a str,
    pub(crate) object_list: &'a [&'a str],
    pub(crate) class_list: &'a [&'a str],
    pub(crate) pattern: &'a CompiledPattern,
    pub(crate) mode: MatchMode,
}

impl<'a> Task<'a> {
    pub(crate) open(crate) spec fn request(self) -> Request {
        Request {
            uid: self.uid@,
            objects: self.object_list.deep_view(),
            classes: self.class_list.deep_view(),
            pattern: self.pattern@,
            mode: self.mode,
        }
    }
}

/// Adds a time to a sum; a sum that can grow no further stays.
fn add_time(sum: u128, time: u128) -> (r: u128)
    ensures
        r == state::summed(sum, time),
{
    if time > u128::MAX - sum {
        u128::MAX
    } else {
        sum + time
    }
}

fn unmatched_output(task: Task<'_>) -> (r: ParseOutput)
    ensures
        r@ == outcome::unmatched(task.request()),
{
    ParseOutput {
        uid: task.uid.to_string(),
        fields: FieldMap::new(),
        complement: text::concat_texts(task.object_list),
    }
}

fn matched_output(task: Task<'_>, fields: FieldMap, complement: &str, leading: bool) -> (r:
    ParseOutput)
    requires
        leading == reading::leads_blank(
            task.object_list.deep_view(),
            task.class_list.deep_view(),
        ),
    ensures
        r@ == outcome::matched(task.request(), fields@, complement@),
{
    let complement = if leading {
        text::glue(" ", complement)
    } else {
        complement.to_string()
    };
    ParseOutput { uid: task.uid.to_string(), fields, complement }
}

/// What the groups of a match in the object text come to.
fn object_output(
    task: Task<'_>,
    object: &str,
    plan: &ObjectPlan,
    found: Option<Vec<GroupSpan>>,
    leading: bool,
    Ghost(groups): Ghost<Option<Seq<GroupSpan>>>,
) -> (r: Result<ParseOutput, ParseError>)
    requires
        leading == reading::leads_blank(
            task.object_list.deep_view(),
            task.class_list.deep_view(),
        ),
        object@ == reading::object_text(
            task.object_list.deep_view(),
            task.class_list.deep_view(),
        ),
        found is None <==> groups is None,
        found matches Some(found) ==> groups == Some(found@),
    ensures
        outcome::tells(
            r,
            outcome::object_outcome(task.request(), plan@, groups),
            task.request(),
        ),
{
    match found {
        None => Ok(unmatched_output(task)),
        Some(found) => match complement::get_complement_of_captured_groups(object, &found) {
            Some(rest) => {
                let fields = reading::read_fields(object, &plan.variable_names, &found);
                Ok(matched_output(task, fields, rest.as_str(), leading))
            },
            None => Err(
                ParseError::InvalidPattern(
                    "object comparator captured spans outside the text".to_string(),
                ),
            ),
        },
    }
}

/// Steps are the same with literals put together, where they are to be carried out alone.
proof fn lemma_direct_of_merged(
    allow_direct: bool,
    steps: Seq<PlanStep>,
    ground: Ground,
    start: int,
)
    requires
        allow_direct ==> object_plan::takes_single_tokens(object_plan::all_merged(steps)),
    ensures
        execute::direct(allow_direct, object_plan::all_merged(steps), ground, start)
            == execute::direct(allow_direct, steps, ground, start),
{
    object_plan::lemma_merging_keeps_single(steps);
}

/// Carries out a plan on the tokens of a range.
fn run_plan(
    state: &mut State,
    task: Task<'_>,
    plan: &ObjectPlan,
    range: (usize, usize),
    leading: bool,
    profiling: bool,
    times: &mut ProfileTimes,
    Ghost(definitions): Ghost<Map<Seq<char>, Seq<char>>>,
) -> (r: Result<ParseOutput, ParseError>)
    requires
        old(state).wf(definitions),
        range.0 <= range.1 <= task.class_list.len(),
        leading == reading::leads_blank(
            task.object_list.deep_view(),
            task.class_list.deep_view(),
        ),
        plan@.allow_direct ==> object_plan::takes_single_tokens(plan@.steps),
    ensures
        final(state).wf(definitions),
        final(state).times == old(state).times,
        *final(times) == (ProfileTimes {
            object_join: final(times).object_join,
            direct_execution: final(times).direct_execution,
            fallback_regex: final(times).fallback_regex,
            ..*old(times)
        }),
        outcome::direct_for(task.request(), plan@, (range.0 as int, range.1 as int)) is Some
            ==> final(times).fallback_regex == old(times).fallback_regex,
        exists|fault: bool|
            outcome::is_run(
                #[trigger] outcome::planned_run(
                    old(state)@,
                    task.request(),
                    plan@,
                    (range.0 as int, range.1 as int),
                    Faults { class_search: false, object_search: fault },
                ),
                final(state)@,
                r,
                task.request(),
            ),
{
    let ghost request = task.request();
    let ghost span = (range.0 as int, range.1 as int);
    let object_join_start = clock::started(profiling);
    let full_object = text::concat_texts(task.object_list);
    let trailing = reading::ends_with_space_pair(task.object_list, task.class_list);
    let object = reading::trim_with_space_flags(full_object.as_str(), leading, trailing);
    times.object_join = clock::elapsed_since(&object_join_start);
    let object_offsets = spans::token_offsets(task.object_list, full_object.as_str());
    let direct_start = clock::started(profiling);
    let direct = if leading {
        None
    } else {
        state.counters.direct_execution_attempts = cache::bump(
            state.counters.direct_execution_attempts,
        );
        execute::execute_object_plan(
            plan,
            task.object_list,
            task.class_list,
            object,
            &object_offsets,
            range,
        )
    };
    times.direct_execution = clock::elapsed_since(&direct_start);
    proof {
        lemma_direct_of_merged(
            plan.allow_direct,
            plan.steps.deep_view(),
            Ground {
                objects: request.objects,
                classes: request.classes,
                object: object@,
                end: range.1 as int,
            },
            range.0 as int,
        );
        let run = outcome::planned_run(
            old(state)@,
            request,
            plan@,
            span,
            Faults { class_search: false, object_search: false },
        );
        let fault_run = outcome::planned_run(
            old(state)@,
            request,
            plan@,
            span,
            Faults { class_search: false, object_search: true },
        );
    }
    if let Some(execution) = direct {
        state.counters.direct_execution_hits = cache::bump(state.counters.direct_execution_hits);
        let rest = complement::get_complement_of_spans(object, &execution.capture_spans);
        let rest = text::trimmed_start(rest.as_str());
        return Ok(matched_output(task, execution.fields, rest, leading));
    }
    state.counters.fallback_execution_count = cache::bump(state.counters.fallback_execution_count);
    let pattern = plan.pattern.as_str();
    let regex = match state.get_or_compile_fallback_regex(pattern, Ghost(definitions)) {
        Ok(regex) => regex,
        Err(error) => {
            return Err(error);
        },
    };
    let fallback_start = clock::started(profiling);
    let found = match regex::run_captures(&regex, object, "object comparator", pattern) {
        Ok(found) => found,
        Err(error) => {
            return Err(error);
        },
    };
    times.fallback_regex = clock::elapsed_since(&fallback_start);
    object_output(
        task,
        object,
        plan,
        found,
        leading,
        Ghost(regex::regex_captures(plan.pattern@, object@)),
    )
}

/// Carries out an extraction, without the profile.
fn run_stages(
    state: &mut State,
    task: Task<'_>,
    token_definitions: &StringHashMap<String>,
    profiling: bool,
    times: &mut ProfileTimes,
) -> (r: Result<ParseOutput, ParseError>)
    requires
        old(state).wf(object::texts(token_definitions@)),
        *old(times) == state::zero_times(),
    ensures
        final(state).wf(object::texts(token_definitions@)),
        final(state).times == old(state).times,
        final(times).total == 0,
        r is Ok ==> state::ends_at(
            *final(times),
            outcome::last_stage(task.request(), object::texts(token_definitions@)),
        ),
        exists|faults: Faults|
            outcome::is_run(
                #[trigger] outcome::parse_run(
                    old(state)@,
                    task.request(),
                    object::texts(token_definitions@),
                    false,
                    faults,
                ),
                final(state)@,
                r,
                task.request(),
            ),
{
    let ghost request = task.request();
    let ghost definitions = object::texts(token_definitions@);
    let ghost before = state@;
    let mode = task.mode;
    let leading = reading::starts_with_space_pair(task.object_list, task.class_list);
    let trailing = reading::ends_with_space_pair(task.object_list, task.class_list);
    let class_join_start = clock::started(profiling);
    let joined_classes = text::concat_texts(task.class_list);
    let class_text = reading::trim_with_space_flags(joined_classes.as_str(), leading, trailing);
    times.class_join = clock::elapsed_since(&class_join_start);
    proof {
        let calm = outcome::parse_run(
            before,
            request,
            definitions,
            false,
            Faults { class_search: false, object_search: false },
        );
        let stuck = outcome::parse_run(
            before,
            request,
            definitions,
            false,
            Faults { class_search: true, object_search: false },
        );
    }
    let class_regex = match task.pattern.class_regex(mode) {
        Ok(class_regex) => class_regex,
        Err(error) => {
            return Err(error);
        },
    };
    let class_regex_start = clock::started(profiling);
    let found = match regex::run_captures(
        &class_regex,
        class_text,
        "class comparator",
        task.pattern.class_pattern(mode),
    ) {
        Ok(found) => found,
        Err(error) => {
            return Err(error);
        },
    };
    times.class_regex = clock::elapsed_since(&class_regex_start);
    let found = match found {
        Some(found) => found,
        None => {
            return Ok(unmatched_output(task));
        },
    };
    let offset_start = clock::started(profiling);
    let told = match reading::read_class_match(
        task.object_list,
        task.class_list,
        task.pattern.class_segments(),
        mode,
        &found,
    ) {
        Some(told) => told,
        None => {
            return Ok(unmatched_output(task));
        },
    };
    let plan = state.get_or_build_object_plan(
        task.pattern,
        &told.captured,
        mode,
        told.prefix,
        token_definitions,
    );
    times.offset_work = clock::elapsed_since(&offset_start);
    if !told.has_whole_match {
        return Err(
            ParseError::InvalidPattern(
                "class comparator matched without a full match group".to_string(),
            ),
        );
    }
    let range = match told.range {
        Some(range) => range,
        None => {
            return Ok(unmatched_output(task));
        },
    };
    let ghost middle = state@;
    let result = run_plan(
        state,
        task,
        &plan,
        range,
        leading,
        profiling,
        times,
        Ghost(definitions),
    );
    proof {
        let span = (range.0 as int, range.1 as int);
        let fault = choose|fault: bool|
            outcome::is_run(
                #[trigger] outcome::planned_run(
                    middle,
                    request,
                    plan@,
                    span,
                    Faults { class_search: false, object_search: fault },
                ),
                state@,
                result,
                request,
            );
        let run = outcome::parse_run(
            before,
            request,
            definitions,
            false,
            Faults { class_search: false, object_search: fault },
        );
        assert(outcome::is_run(run, state@, result, request));
    }
    result
}

/// Carries out an extraction.
pub(crate) fn run_task(
    state: &mut State,
    task: Task<'_>,
    token_definitions: &StringHashMap<String>,
    profiling: bool,
) -> (r: Result<ParseOutput, ParseError>)
    requires
        old(state).wf(object::texts(token_definitions@)),
    ensures
        final(state).wf(object::texts(token_definitions@)),
        if profiling && r is Ok {
            state::grow_by_row(
                old(state).times,
                final(state).times,
                outcome::last_stage(task.request(), object::texts(token_definitions@)),
            )
        } else {
            final(state).times == old(state).times
        },
        exists|faults: Faults|
            outcome::is_run(
                #[trigger] outcome::parse_run(
                    old(state)@,
                    task.request(),
                    object::texts(token_definitions@),
                    profiling,
                    faults,
                ),
                final(state)@,
                r,
                task.request(),
            ),
{
    let ghost before = state@;
    let total_start = clock::started(profiling);
    let mut times = state::no_time();
    let result = run_stages(state, task, token_definitions, profiling, &mut times);
    let ghost middle = state@;
    let total = clock::elapsed_since(&total_start);
    if profiling && result.is_ok() {
        state.counters.profiled_rows = cache::bump(state.counters.profiled_rows);
        state.times = ProfileTimes {
            total: add_time(state.times.total, total),
            class_join: add_time(state.times.class_join, times.class_join),
            class_regex: add_time(state.times.class_regex, times.class_regex),
            offset_work: add_time(state.times.offset_work, times.offset_work),
            object_join: add_time(state.times.object_join, times.object_join),
            direct_execution: add_time(state.times.direct_execution, times.direct_execution),
            fallback_regex: add_time(state.times.fallback_regex, times.fallback_regex),
        };
    }
    proof {
        let definitions = object::texts(token_definitions@);
        let request = task.request();
        let faults = choose|faults: Faults|
            outcome::is_run(
                #[trigger] outcome::parse_run(before, request, definitions, false, faults),
                middle,
                result,
                request,
            );
        let run = outcome::parse_run(before, request, definitions, profiling, faults);
        assert(outcome::is_run(run, state@, result, request));
        if profiling && result is Ok {
            let row = ProfileTimes { total, ..times };
            assert(state.times == state::with_row(old(state).times, row));
            assert(state::ends_at(row, outcome::last_stage(request, definitions)));
        }
    }
    result
}

} // verus!
