//! What holds of every extraction.

use crate::error::ParseError;
use crate::extractor;
use crate::extractor::execute;
use crate::extractor::execute::{Ground, Progress};
use crate::extractor::fields;
use crate::extractor::object_plan;
use crate::extractor::object_plan::{ObjComparatorTokenInfoView, PlanStep};
use crate::extractor::outcome;
use crate::extractor::outcome::{Faults, Outcome, ParseOutput, Request, StateView};
use crate::extractor::reading;
use crate::extractor::ExtractorView;
use crate::regex;
use crate::regex::GroupSpan;
use crate::tel::compiled;
use crate::tel::compiled::CompiledPatternView;
use crate::tel::plan;
use crate::tel::{CompiledClassSegmentView, TokenKind};
use crate::text;
use vstd::prelude::*;

verus! {

/// What an extraction comes to depends neither on what the caches hold and the counts show, nor on
/// whether times are measured.
pub proof fn law_outcome_ignores_state(
    a: StateView,
    b: StateView,
    request: Request,
    definitions: Map<Seq<char>, Seq<char>>,
    profiling_a: bool,
    profiling_b: bool,
    faults: Faults,
)
    ensures
        outcome::parse_run(a, request, definitions, profiling_a, faults).1 == outcome::parse_run(
            b,
            request,
            definitions,
            profiling_b,
            faults,
        ).1,
{
}

/// Extracting by a pattern and extracting by its compiled form both give the same output or both
/// fail in the same way, whatever the two extractors did before and whatever their caches hold, as
/// long as they have the same definitions and the engine gives up on the same searches.
pub proof fn law_entry_points_agree(
    by_text: (ExtractorView, ExtractorView, Result<ParseOutput, ParseError>),
    by_compiled: (ExtractorView, ExtractorView, Result<ParseOutput, ParseError>),
    request: Request,
    faults: Faults,
)
    requires
        by_text.0.definitions == by_compiled.0.definitions,
        request.pattern.is_compiled(),
        extractor::compiles_and_extracts_under(
            by_text.0,
            by_text.1,
            request.uid,
            request.objects,
            request.classes,
            request.pattern.source,
            request.mode,
            faults,
            by_text.2,
        ),
        extractor::extracts_under(
            by_compiled.0,
            by_compiled.1,
            request,
            faults,
            by_compiled.2,
        ),
    ensures
        by_text.2 is Ok <==> by_compiled.2 is Ok,
        by_text.2 is Ok ==> by_text.2->Ok_0@ == by_compiled.2->Ok_0@,
        exists|outcome: Outcome|
            #[trigger] outcome::tells(by_text.2, outcome, request) && outcome::tells(
                by_compiled.2,
                outcome,
                request,
            ),
{
    let definitions = extractor::definition_map(by_text.0.definitions);
    assert(extractor::pattern_request(
        request.uid,
        request.objects,
        request.classes,
        request.pattern.source,
        request.mode,
    ) == request);
    let told = outcome::parse_run(
        by_compiled.0.state,
        request,
        definitions,
        by_compiled.0.profiling,
        faults,
    ).1;
    law_outcome_ignores_state(
        extractor::state::after_pattern(by_text.0.state, request.pattern.source),
        by_compiled.0.state,
        request,
        definitions,
        by_text.0.profiling,
        by_compiled.0.profiling,
        faults,
    );
    assert(outcome::tells(by_text.2, told, request));
    assert(outcome::tells(by_compiled.2, told, request));
}

/// Whether an error says that the engine gave up on a search.
pub open spec fn gave_up(error: ParseError, request: Request) -> bool {
    ||| regex::is_engine_error(
        error,
        regex::run_message(
            "class comparator"@,
            request.pattern.class_pattern(request.mode),
        ),
    )
    ||| exists|pattern: Seq<char>|
        regex::is_engine_error(
            error,
            #[trigger] regex::run_message("object comparator"@, pattern),
        )
}

/// Two extractions of the same by the same definitions, whatever came before them, give the same
/// output, or both fail, unless the one that fails says that the engine gave up.
pub proof fn law_only_the_engine_parts_results(
    a: (ExtractorView, ExtractorView, Result<ParseOutput, ParseError>),
    b: (ExtractorView, ExtractorView, Result<ParseOutput, ParseError>),
    request: Request,
)
    requires
        a.0.definitions == b.0.definitions,
        extractor::extracts(a.0, a.1, request, a.2),
        extractor::extracts(b.0, b.1, request, b.2),
    ensures
        match (a.2, b.2) {
            (Ok(x), Ok(y)) => x@ == y@,
            (Err(_), Err(_)) => true,
            (Ok(_), Err(e)) => gave_up(e, request),
            (Err(e), Ok(_)) => gave_up(e, request),
        },
{
    let definitions = extractor::definition_map(a.0.definitions);
    let f = choose|f: Faults| #[trigger] extractor::extracts_under(a.0, a.1, request, f, a.2);
    let g = choose|g: Faults| #[trigger] extractor::extracts_under(b.0, b.1, request, g, b.2);
    let told_a = outcome::parse_run(a.0.state, request, definitions, a.0.profiling, f).1;
    let told_b = outcome::parse_run(b.0.state, request, definitions, b.0.profiling, g).1;
    if let Outcome::ObjectSearch(pattern) = told_a {
        let message = regex::run_message("object comparator"@, pattern);
    }
    if let Outcome::ObjectSearch(pattern) = told_b {
        let message = regex::run_message("object comparator"@, pattern);
    }
}

/// Where the class text does not match, no field is filled and the whole object text is left over.
pub proof fn law_unmatched_text_is_left_whole(
    state: StateView,
    request: Request,
    definitions: Map<Seq<char>, Seq<char>>,
    profiling: bool,
    faults: Faults,
)
    requires
        regex::regex_accepts(request.pattern.class_pattern(request.mode)),
        !faults.class_search,
        regex::regex_captures(
            request.pattern.class_pattern(request.mode),
            reading::class_text(request.objects, request.classes),
        ) is None,
    ensures
        outcome::parse_run(state, request, definitions, profiling, faults).1 == Outcome::Output(
            outcome::ParseOutputView {
                uid: request.uid,
                fields: Map::empty(),
                complement: text::concat(request.objects),
            },
        ),
        outcome::parse_run(state, request, definitions, false, faults).0 == state,
{
}

/// Where object text and class text both begin with a blank token, what a match leaves over begins
/// with a space.
pub proof fn law_leading_space_is_kept(
    state: StateView,
    request: Request,
    definitions: Map<Seq<char>, Seq<char>>,
    profiling: bool,
    faults: Faults,
    output: outcome::ParseOutputView,
)
    requires
        reading::leads_blank(request.objects, request.classes),
        outcome::parse_run(state, request, definitions, profiling, faults).1 == Outcome::Output(
            output,
        ),
    ensures
        output == outcome::unmatched(request) || (output.complement.len() > 0
            && output.complement[0] == ' '),
{
    reveal_strlit(" ");
}

/// The names of the captures of a pattern.
pub open spec fn capture_names(pattern: CompiledPatternView) -> Set<Seq<char>> {
    Set::new(|name: Seq<char>| exists|i: int|
        0 <= i < pattern.segments.len() && (#[trigger] pattern.segments[i]).token_info.kind
            == TokenKind::Capturing && pattern.segments[i].token_info.var_name == Some(name))
}

/// Whether a name, where there is one, is among those of a set.
spec fn is_among(name: Option<Seq<char>>, names: Set<Seq<char>>) -> bool {
    name matches Some(name) ==> names.contains(name)
}

spec fn step_name(step: PlanStep) -> Option<Seq<char>> {
    match step {
        PlanStep::Literal { .. } => None,
        PlanStep::CapturedSpan { capture_name, .. } => capture_name,
        PlanStep::SingleToken { capture_name, .. } => capture_name,
    }
}

proof fn lemma_run_fills_named(
    ground: Ground,
    progress: Progress,
    steps: Seq<PlanStep>,
    names: Set<Seq<char>>,
)
    requires
        progress.fields.dom().subset_of(names),
        forall|i: int| 0 <= i < steps.len() ==> is_among(step_name(#[trigger] steps[i]), names),
    ensures
        execute::run(ground, progress, steps) matches Some(end) ==> end.fields.dom().subset_of(
            names,
        ),
    decreases steps.len(),
{
    if steps.len() > 0 {
        assert(is_among(step_name(steps[0]), names));
        match execute::step(ground, progress, steps[0]) {
            Some(next) => {
                assert(next.fields.dom().subset_of(names));
                let rest = steps.skip(1);
                assert forall|i: int| 0 <= i < rest.len() implies is_among(
                    step_name(#[trigger] rest[i]),
                    names,
                ) by {
                    assert(rest[i] == steps[i + 1]);
                }
                lemma_run_fills_named(ground, next, rest, names);
            },
            None => {},
        }
    }
}

/// Whether every segment is named, if at all, by a name of a set.
spec fn are_named(segments: Seq<CompiledClassSegmentView>, names: Set<Seq<char>>) -> bool {
    forall|i: int|
        0 <= i < segments.len() ==> is_among(
            (#[trigger] segments[i]).segment.token_info.var_name,
            names,
        )
}

proof fn lemma_named_rest(segments: Seq<CompiledClassSegmentView>, names: Set<Seq<char>>)
    requires
        are_named(segments, names),
        segments.len() > 0,
    ensures
        are_named(segments.skip(1), names),
        is_among(segments[0].segment.token_info.var_name, names),
{
    let rest = segments.skip(1);
    assert forall|i: int| 0 <= i < rest.len() implies is_among(
        (#[trigger] rest[i]).segment.token_info.var_name,
        names,
    ) by {
        assert(rest[i] == segments[i + 1]);
    }
    assert(is_among(segments[0].segment.token_info.var_name, names));
}

proof fn lemma_steps_are_named(
    segments: Seq<CompiledClassSegmentView>,
    captured: Seq<Option<Seq<char>>>,
    names: Set<Seq<char>>,
)
    requires
        are_named(segments, names),
    ensures
        forall|i: int|
            0 <= i < object_plan::plan_steps(segments, captured).len() ==> is_among(
                step_name(#[trigger] object_plan::plan_steps(segments, captured)[i]),
                names,
            ),
    decreases segments.len(),
{
    if segments.len() > 0 {
        lemma_named_rest(segments, names);
        let rest_captured = if segments[0].segment.token_info.kind != TokenKind::Literal
            && object_plan::takes_captured_class(segments[0].segment.token_info.flags)
            && captured.len() > 0 {
            captured.skip(1)
        } else {
            captured
        };
        lemma_steps_are_named(segments.skip(1), rest_captured, names);
        let all = object_plan::plan_steps(segments, captured);
        let rest = object_plan::plan_steps(segments.skip(1), rest_captured);
        assert(all == seq![all[0]] + rest);
        assert forall|i: int| 0 <= i < all.len() implies is_among(step_name(#[trigger] all[i]), names) by {
            if i > 0 {
                assert(all[i] == rest[i - 1]);
            }
        }
    }
}

proof fn lemma_infos_are_named(
    segments: Seq<CompiledClassSegmentView>,
    captured: Seq<Option<Seq<char>>>,
    definitions: Map<Seq<char>, Seq<char>>,
    names: Set<Seq<char>>,
)
    requires
        are_named(segments, names),
    ensures
        forall|i: int|
            0 <= i < object_plan::comparator_infos(segments, captured, definitions).len()
                ==> is_among(
                (#[trigger] object_plan::comparator_infos(
                    segments,
                    captured,
                    definitions,
                )[i]).segment.token_info.var_name,
                names,
            ),
    decreases segments.len(),
{
    if segments.len() > 0 {
        lemma_named_rest(segments, names);
        let takes = segments[0].segment.token_info.kind != TokenKind::Literal
            && object_plan::takes_captured_class(segments[0].segment.token_info.flags);
        let rest_captured = if takes && captured.len() > 0 {
            captured.skip(1)
        } else {
            captured
        };
        lemma_infos_are_named(segments.skip(1), rest_captured, definitions, names);
        let all = object_plan::comparator_infos(segments, captured, definitions);
        let rest = object_plan::comparator_infos(segments.skip(1), rest_captured, definitions);
        if takes && captured.len() == 0 {
            assert(all == rest);
        } else {
            assert(all == seq![all[0]] + rest);
            assert forall|i: int| 0 <= i < all.len() implies is_among(
                (#[trigger] all[i]).segment.token_info.var_name,
                names,
            ) by {
                if i > 0 {
                    assert(all[i] == rest[i - 1]);
                }
            }
        }
    }
}

proof fn lemma_field_names_are_named(
    infos: Seq<ObjComparatorTokenInfoView>,
    names: Set<Seq<char>>,
)
    requires
        forall|i: int|
            0 <= i < infos.len() ==> is_among(
                (#[trigger] infos[i]).segment.token_info.var_name,
                names,
            ),
    ensures
        forall|i: int|
            0 <= i < object_plan::field_names(infos).len() ==> names.contains(
                #[trigger] object_plan::field_names(infos)[i],
            ),
    decreases infos.len(),
{
    if infos.len() > 0 {
        let before = infos.drop_last();
        assert forall|i: int| 0 <= i < before.len() implies is_among(
            (#[trigger] before[i]).segment.token_info.var_name,
            names,
        ) by {
            assert(before[i] == infos[i]);
        }
        lemma_field_names_are_named(before, names);
        assert(is_among(infos[infos.len() - 1].segment.token_info.var_name, names));
        let all = object_plan::field_names(infos);
        let some = object_plan::field_names(before);
        assert forall|i: int| 0 <= i < all.len() implies names.contains(#[trigger] all[i]) by {
            if i < some.len() {
                assert(all[i] == some[i]);
            }
        }
    }
}

proof fn lemma_groups_fill_named(
    object: Seq<char>,
    list: Seq<Seq<char>>,
    found: Seq<GroupSpan>,
    names: Set<Seq<char>>,
)
    requires
        forall|i: int| 0 <= i < list.len() ==> names.contains(#[trigger] list[i]),
    ensures
        reading::fields_of(object, list, found).dom().subset_of(names),
    decreases list.len(),
{
    if list.len() > 0 {
        let before = list.drop_last();
        assert forall|i: int| 0 <= i < before.len() implies names.contains(#[trigger] before[i]) by {
            assert(before[i] == list[i]);
        }
        lemma_groups_fill_named(object, before, found, names);
        assert(names.contains(list[list.len() - 1]));
    }
}

/// Only captures of the pattern are named.
proof fn lemma_only_captures_are_named(tokens: Seq<Seq<char>>)
    ensures
        compiled::segments_of(tokens) matches Ok(segments) ==> forall|i: int|
            0 <= i < segments.len() && (#[trigger] segments[i]).token_info.var_name is Some
                ==> segments[i].token_info.kind == TokenKind::Capturing,
    decreases tokens.len(),
{
    if tokens.len() > 0 {
        lemma_only_captures_are_named(tokens.drop_last());
    }
}

/// Every field of an output is a capture of the pattern: vanishing groups, classes and literals
/// fill none.
pub proof fn law_fields_are_captures(
    state: StateView,
    request: Request,
    definitions: Map<Seq<char>, Seq<char>>,
    profiling: bool,
    faults: Faults,
    output: outcome::ParseOutputView,
)
    requires
        request.pattern.is_compiled(),
        outcome::parse_run(state, request, definitions, profiling, faults).1 == Outcome::Output(
            output,
        ),
    ensures
        output.fields.dom().subset_of(capture_names(request.pattern)),
{
    let pattern = request.pattern;
    let names = capture_names(pattern);
    lemma_only_captures_are_named(crate::tel::split::split_tokens(pattern.source));
    let segments = plan::class_plan(pattern.segments).segments;
    assert forall|i: int| 0 <= i < segments.len() implies is_among(
        (#[trigger] segments[i]).segment.token_info.var_name,
        names,
    ) by {
        let own = pattern.segments[i];
        assert(segments[i] == plan::compiled_segment(own));
        if own.token_info.var_name is Some {
            assert(names.contains(own.token_info.var_name->0));
        }
    }
    let found = regex::regex_captures(
        pattern.class_pattern(request.mode),
        reading::class_text(request.objects, request.classes),
    );
    if found is Some {
        let told = reading::class_reading(
            request.objects,
            request.classes,
            segments,
            request.mode,
            found->0,
        );
        if told is Some && told->0.range is Some {
            let object_plan = outcome::plan_for(request, told->0, definitions);
            let object = reading::object_text(request.objects, request.classes);
            lemma_steps_are_named(segments, told->0.captured, names);
            lemma_infos_are_named(segments, told->0.captured, definitions, names);
            lemma_field_names_are_named(
                object_plan::comparator_infos(segments, told->0.captured, definitions),
                names,
            );
            lemma_run_fills_named(
                Ground {
                    objects: request.objects,
                    classes: request.classes,
                    object,
                    end: (told->0.range->0).1,
                },
                Progress {
                    current: (told->0.range->0).0,
                    fields: Map::empty(),
                    spans: Seq::empty(),
                },
                object_plan.steps,
                names,
            );
            let groups = regex::regex_captures(object_plan.pattern, object);
            if groups is Some {
                lemma_groups_fill_named(object, object_plan.variable_names, groups->0, names);
            }
        }
    }
}

/// Whether a text holds something, and no white space at its ends.
pub open spec fn is_trimmed(s: Seq<char>) -> bool {
    s.len() > 0 && !crate::unicode::is_white(s[0]) && !crate::unicode::is_white(s.last())
}

/// Whether all values of fields hold something, and no white space at their ends.
pub open spec fn all_trimmed(fields: Map<Seq<char>, Seq<char>>) -> bool {
    forall|name: Seq<char>| fields.contains_key(name) ==> is_trimmed(#[trigger] fields[name])
}

proof fn lemma_trim_trims(s: Seq<char>)
    ensures
        text::trim(s).len() > 0 ==> is_trimmed(text::trim(s)),
{
    let front = text::trim_start(s);
    text::lemma_run(s, text::CharClass::White);
    text::lemma_trailing(front);
    let n = text::run_len(s, text::CharClass::White) as int;
    if text::trim(s).len() > 0 {
        assert(front[0] == s[n]);
        assert(text::trim(s)[0] == front[0]);
        assert(text::trim(s).last() == front[front.len() - text::trailing_white(front) - 1]);
    }
}

proof fn lemma_with_value_trimmed(
    fields: Map<Seq<char>, Seq<char>>,
    name: Seq<char>,
    value: Seq<char>,
)
    requires
        all_trimmed(fields),
    ensures
        all_trimmed(fields::with_value(fields, name, text::trim(value))),
{
    lemma_trim_trims(value);
    let v = text::trim(value);
    let after = fields::with_value(fields, name, v);
    if v.len() > 0 {
        assert forall|n: Seq<char>| after.contains_key(n) implies is_trimmed(#[trigger] after[n]) by {
            if n == name && fields.contains_key(name) {
                assert(is_trimmed(fields[name]));
                let joined = fields[name] + " "@ + v;
                assert(joined[0] == fields[name][0]);
                assert(joined.last() == v.last());
            } else if n != name {
                assert(is_trimmed(fields[n]));
            }
        }
    }
}

proof fn lemma_run_trims(ground: Ground, progress: Progress, steps: Seq<PlanStep>)
    requires
        all_trimmed(progress.fields),
    ensures
        execute::run(ground, progress, steps) matches Some(end) ==> all_trimmed(end.fields),
    decreases steps.len(),
{
    if steps.len() > 0 {
        match execute::step(ground, progress, steps[0]) {
            Some(next) => {
                if next.fields != progress.fields {
                    let added = choose|added: (Seq<char>, (usize, usize))|
                        next.fields == #[trigger] execute::with_span(
                            progress.fields,
                            added.0,
                            added.1,
                            ground.object,
                        );
                    lemma_step_adds_span(ground, progress, steps[0]);
                    lemma_with_value_trimmed(
                        progress.fields,
                        added.0,
                        crate::offsets::slice(
                            ground.object,
                            (added.1).0 as int,
                            (added.1).1 as int,
                        ),
                    );
                }
                lemma_run_trims(ground, next, steps.skip(1));
            },
            None => {},
        }
    }
}

/// A step that fills a field fills it from a span.
proof fn lemma_step_adds_span(ground: Ground, progress: Progress, step: PlanStep)
    ensures
        execute::step(ground, progress, step) matches Some(next) ==> next.fields == progress.fields
            || exists|added: (Seq<char>, (usize, usize))|
            next.fields == #[trigger] execute::with_span(
                progress.fields,
                added.0,
                added.1,
                ground.object,
            ),
{
    match execute::step(ground, progress, step) {
        Some(next) => {
            if next.fields != progress.fields {
                let name = execute::filled(
                    step_name(step),
                    match step {
                        PlanStep::Literal { .. } => false,
                        PlanStep::CapturedSpan { is_vanishing, .. } => is_vanishing,
                        PlanStep::SingleToken { is_vanishing, .. } => is_vanishing,
                    },
                );
                let span = next.spans.last();
                let added = (name->0, span);
                assert(next.fields == execute::with_span(
                    progress.fields,
                    added.0,
                    added.1,
                    ground.object,
                ));
            }
        },
        None => {},
    }
}

proof fn lemma_groups_trim(object: Seq<char>, list: Seq<Seq<char>>, found: Seq<GroupSpan>)
    ensures
        all_trimmed(reading::fields_of(object, list, found)),
    decreases list.len(),
{
    if list.len() > 0 {
        let before = reading::fields_of(object, list.drop_last(), found);
        lemma_groups_trim(object, list.drop_last(), found);
        let span = if list.len() < found.len() {
            found[list.len() as int]
        } else {
            None
        };
        if let Some(value) = regex::group_text(object, span) {
            lemma_with_value_trimmed(before, list.last(), value);
        }
    }
}

/// Every field of an output holds something, and no white space at its ends.
pub proof fn law_field_values_are_trimmed(
    state: StateView,
    request: Request,
    definitions: Map<Seq<char>, Seq<char>>,
    profiling: bool,
    faults: Faults,
    output: outcome::ParseOutputView,
)
    requires
        outcome::parse_run(state, request, definitions, profiling, faults).1 == Outcome::Output(
            output,
        ),
    ensures
        all_trimmed(output.fields),
{
    let pattern = request.pattern;
    let segments = plan::class_plan(pattern.segments).segments;
    let found = regex::regex_captures(
        pattern.class_pattern(request.mode),
        reading::class_text(request.objects, request.classes),
    );
    if found is Some {
        let told = reading::class_reading(
            request.objects,
            request.classes,
            segments,
            request.mode,
            found->0,
        );
        if told is Some && told->0.range is Some {
            let object_plan = outcome::plan_for(request, told->0, definitions);
            let object = reading::object_text(request.objects, request.classes);
            lemma_run_trims(
                Ground {
                    objects: request.objects,
                    classes: request.classes,
                    object,
                    end: (told->0.range->0).1,
                },
                Progress {
                    current: (told->0.range->0).0,
                    fields: Map::empty(),
                    spans: Seq::empty(),
                },
                object_plan.steps,
            );
            let groups = regex::regex_captures(object_plan.pattern, object);
            if groups is Some {
                lemma_groups_trim(object, object_plan.variable_names, groups->0);
            }
        }
    }
}

} // verus!
