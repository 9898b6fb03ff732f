//! Taking tokens step by step, without running an expression over the object text.

use crate::extractor::fields;
use crate::extractor::fields::FieldMap;
use crate::extractor::object_plan::{ObjectPlan, ObjectPlanStep, PlanStep};
use crate::extractor::spans;
use crate::offsets;
use crate::text;
use vstd::prelude::*;

verus! {

/// What steps work on: the tokens of the object text and of the class text, the object text, and
/// the position where the match ends.
pub struct Ground {
    pub objects: Seq<Seq<char>>,
    pub classes: Seq<Seq<char>>,
    pub object: Seq<char>,
    pub end: int,
}

/// How far steps have come: the next token, the fields that are filled, and the spans that they
/// were filled from.
#[verifier::ext_equal]
pub struct Progress {
    pub current: int,
    pub fields: Map<Seq<char>, Seq<char>>,
    pub spans: Seq<(usize, usize)>,
}

/// The span of tokens in the object text.
pub open spec fn token_span(objects: Seq<Seq<char>>, start: int, end: int) -> Option<
    (usize, usize),
> {
    if 0 <= start < end <= objects.len() {
        Some((spans::start_of(objects, start) as usize, spans::end_of(objects, end - 1) as usize))
    } else {
        None
    }
}

/// The end of the first run of class tokens from `start` on that makes `class_text`, among those
/// that end after `i`.
pub open spec fn class_run_end(
    classes: Seq<Seq<char>>,
    start: int,
    i: int,
    end: int,
    class_text: Seq<char>,
) -> Option<int>
    decreases end - i,
{
    if i < start || start < 0 || i >= end || i >= classes.len() {
        None
    } else if text::concat(classes.subrange(start, i + 1)) == class_text {
        Some(i + 1)
    } else {
        class_run_end(classes, start, i + 1, end, class_text)
    }
}

/// Fields with the text of a span added to one of them; a span that encloses no part of the text
/// adds nothing.
pub open spec fn with_span(
    fields: Map<Seq<char>, Seq<char>>,
    name: Seq<char>,
    span: (usize, usize),
    object: Seq<char>,
) -> Map<Seq<char>, Seq<char>> {
    if offsets::is_span(object, span.0 as int, span.1 as int) {
        fields::with_value(
            fields,
            name,
            text::trim(offsets::slice(object, span.0 as int, span.1 as int)),
        )
    } else {
        fields
    }
}

/// The tokens from `start` up to `end` taken, for the field `name` where there is one.
pub open spec fn taken(
    ground: Ground,
    progress: Progress,
    name: Option<Seq<char>>,
    start: int,
    end: int,
) -> Progress {
    match (name, token_span(ground.objects, start, end)) {
        (Some(name), Some(span)) => Progress {
            current: end,
            fields: with_span(progress.fields, name, span, ground.object),
            spans: progress.spans.push(span),
        },
        _ => Progress { current: end, ..progress },
    }
}

/// The field that a step fills.
pub open spec fn filled(capture_name: Option<Seq<char>>, is_vanishing: bool) -> Option<Seq<char>> {
    if is_vanishing {
        None
    } else {
        capture_name
    }
}

/// One step; `None` where the tokens are not what it asks for.
pub open spec fn step(ground: Ground, progress: Progress, step: PlanStep) -> Option<Progress> {
    match step {
        PlanStep::Literal { tokens } => {
            let start = spans::skip_blank(ground.objects, progress.current, ground.end);
            let end = start + tokens.len();
            if end <= ground.end && end <= ground.objects.len() && ground.objects.subrange(
                start,
                end,
            ) == tokens {
                Some(Progress { current: end, ..progress })
            } else {
                None
            }
        },
        PlanStep::CapturedSpan { class_text, capture_name, is_vanishing } => {
            if class_text is None || class_text->0.len() == 0 {
                Some(progress)
            } else {
                let start = spans::skip_blank(ground.classes, progress.current, ground.end);
                match class_run_end(ground.classes, start, start, ground.end, class_text->0) {
                    Some(end) => Some(
                        taken(ground, progress, filled(capture_name, is_vanishing), start, end),
                    ),
                    None => None,
                }
            }
        },
        PlanStep::SingleToken { capture_name, is_vanishing, consume_trailing_space } => {
            let start = spans::skip_blank(ground.classes, progress.current, ground.end);
            if start >= ground.end {
                None
            } else {
                let end = if consume_trailing_space {
                    spans::skip_blank(ground.classes, start + 1, ground.end)
                } else {
                    start + 1
                };
                Some(taken(ground, progress, filled(capture_name, is_vanishing), start, end))
            }
        },
    }
}

/// Steps one after another.
pub open spec fn run(ground: Ground, progress: Progress, steps: Seq<PlanStep>) -> Option<Progress>
    decreases steps.len(),
{
    if steps.len() == 0 {
        Some(progress)
    } else {
        match step(ground, progress, steps[0]) {
            Some(next) => run(ground, next, steps.skip(1)),
            None => None,
        }
    }
}

/// Whether all spans enclose parts of a text.
pub open spec fn spans_fit(object: Seq<char>, spans: Seq<(usize, usize)>) -> bool {
    forall|i: int|
        0 <= i < spans.len() ==> offsets::is_span(
            object,
            (#[trigger] spans[i]).0 as int,
            spans[i].1 as int,
        )
}

/// What the steps of a plan come to from the token `start` on; `None` where they do not do, or where
/// they give spans that do not fit the object text.
pub open spec fn direct(
    allow_direct: bool,
    steps: Seq<PlanStep>,
    ground: Ground,
    start: int,
) -> Option<(Map<Seq<char>, Seq<char>>, Seq<(usize, usize)>)> {
    match run(
        ground,
        Progress { current: start, fields: Map::empty(), spans: Seq::empty() },
        steps,
    ) {
        Some(progress) => if allow_direct && spans_fit(ground.object, progress.spans) {
            Some((progress.fields, progress.spans))
        } else {
            None
        },
        None => None,
    }
}

/// Fields with the spans that they were filled from.
#[derive(Debug)]
pub struct DirectExecution {
    pub fields: FieldMap,
    pub capture_spans: Vec<(usize, usize)>,
}

fn object_span_for_tokens(
    object_offsets: &Vec<(usize, usize)>,
    start: usize,
    end: usize,
    Ghost(objects): Ghost<Seq<Seq<char>>>,
) -> (r: Option<(usize, usize)>)
    requires
        spans::are_offsets(object_offsets@, objects),
    ensures
        r == token_span(objects, start as int, end as int),
{
    if start >= end || end > object_offsets.len() {
        return None;
    }
    assert(object_offsets@[start as int].0 == spans::start_of(objects, start as int));
    assert(object_offsets@[end - 1].1 == spans::end_of(objects, end - 1));
    Some((object_offsets[start].0, object_offsets[end - 1].1))
}

/// The end of the run of class tokens from `start` on that makes `class_text`.
#[must_use]
pub fn consume_class_text(class_list: &[&str], start: usize, end: usize, class_text: &str) -> (r:
    Option<usize>)
    requires
        end <= class_list.len(),
    ensures
        match r {
            Some(i) => class_run_end(
                class_list.deep_view(),
                start as int,
                start as int,
                end as int,
                class_text@,
            ) == Some(i as int) && start < i <= end,
            None => class_run_end(
                class_list.deep_view(),
                start as int,
                start as int,
                end as int,
                class_text@,
            ) is None,
        },
{
    let ghost classes = class_list.deep_view();
    let mut accumulated = String::new();
    let mut i: usize = start;
    proof {
        if start <= end {
            assert(classes.subrange(start as int, start as int) == Seq::<Seq<char>>::empty());
        }
    }
    while i < end
        invariant
            classes == class_list.deep_view(),
            end <= class_list.len(),
            start <= i,
            start <= end ==> i <= end,
            start <= end ==> accumulated@ == text::concat(classes.subrange(start as int, i as int)),
            class_run_end(classes, start as int, start as int, end as int, class_text@)
                == class_run_end(classes, start as int, i as int, end as int, class_text@),
        decreases end - i,
    {
        accumulated.append(class_list[i]);
        proof {
            let next = classes.subrange(start as int, i + 1);
            assert(next.drop_last() == classes.subrange(start as int, i as int));
            assert(next.last() == class_list@[i as int]@);
        }
        if text::same_text(accumulated.as_str(), class_text) {
            return Some(i + 1);
        }
        if !text::has_prefix(class_text, accumulated.as_str()) {
            proof {
                lemma_no_run_after(classes, start as int, i + 1, end as int, class_text@);
            }
            return None;
        }
        i = i + 1;
    }
    None
}

/// Where class tokens have gone astray from a text, no more of them make it.
proof fn lemma_no_run_after(
    classes: Seq<Seq<char>>,
    start: int,
    i: int,
    end: int,
    class_text: Seq<char>,
)
    requires
        0 <= start < i,
        end <= classes.len(),
        i <= end ==> !text::concat(classes.subrange(start, i)).is_prefix_of(class_text),
    ensures
        class_run_end(classes, start, i, end, class_text) is None,
    decreases end - i,
{
    if i < end {
        let now = text::concat(classes.subrange(start, i));
        let more = classes.subrange(start, i + 1);
        assert(more.drop_last() == classes.subrange(start, i));
        let next = text::concat(more);
        assert(next == now + more.last());
        if next.is_prefix_of(class_text) {
            assert(now == next.take(now.len() as int));
            assert(now.is_prefix_of(class_text));
        }
        if next == class_text {
            assert(next.is_prefix_of(class_text));
        }
        lemma_no_run_after(classes, start, i + 1, end, class_text);
    }
}

/// Whether tokens stand at a position of a list.
fn tokens_stand_at(list: &[&str], at: usize, tokens: &Vec<String>) -> (r: bool)
    requires
        at + tokens.len() <= list.len(),
    ensures
        r == (list.deep_view().subrange(at as int, at + tokens.len()) == tokens.deep_view()),
{
    let ghost part = list.deep_view().subrange(at as int, at + tokens.len());
    let mut i: usize = 0;
    while i < tokens.len()
        invariant
            at + tokens.len() <= list.len(),
            part == list.deep_view().subrange(at as int, at + tokens.len()),
            i <= tokens.len(),
            forall|j: int| 0 <= j < i ==> #[trigger] part[j] == tokens@[j]@,
        decreases tokens.len() - i,
    {
        assert(part[i as int] == list@[at + i]@);
        if !text::same_text(list[at + i], tokens[i].as_str()) {
            assert(tokens.deep_view()[i as int] != part[i as int]);
            return false;
        }
        i = i + 1;
    }
    assert(part =~= tokens.deep_view());
    true
}

/// The lists that steps work on.
struct Lists<'a> {
    objects: &'a [&'a str],
    classes: &'a [&'a str],
    object: &'a str,
    object_offsets: &'a Vec<(usize, usize)>,
    end: usize,
}

impl<'a> Lists<'a> {
    spec fn ground(self) -> Ground {
        Ground {
            objects: self.objects.deep_view(),
            classes: self.classes.deep_view(),
            object: self.object@,
            end: self.end as int,
        }
    }

    spec fn fit(self) -> bool {
        self.end <= self.classes.len() && spans::are_offsets(
            self.object_offsets@,
            self.objects.deep_view(),
        )
    }
}

spec fn progress_of(current: usize, execution: DirectExecution) -> Progress {
    Progress {
        current: current as int,
        fields: execution.fields@,
        spans: execution.capture_spans@,
    }
}

/// Takes the tokens from `start` up to `end`.
fn take_tokens(
    lists: &Lists<'_>,
    execution: &mut DirectExecution,
    capture_name: &Option<String>,
    is_vanishing: bool,
    start: usize,
    end: usize,
    Ghost(current): Ghost<usize>,
)
    requires
        lists.fit(),
    ensures
        progress_of(end, *final(execution)) == taken(
            lists.ground(),
            progress_of(current, *old(execution)),
            filled(capture_name.deep_view(), is_vanishing),
            start as int,
            end as int,
        ),
{
    if is_vanishing {
        return;
    }
    if let Some(name) = capture_name {
        if let Some((from, to)) = object_span_for_tokens(
            lists.object_offsets,
            start,
            end,
            Ghost(lists.objects.deep_view()),
        ) {
            if offsets::spans(lists.object, from, to) {
                let value = text::trimmed(offsets::slice_of(lists.object, from, to));
                execution.fields.append(name.as_str(), value);
            }
            execution.capture_spans.push((from, to));
        }
    }
}

/// Makes one step; gives the next token.
fn execute_step(
    lists: &Lists<'_>,
    current: usize,
    execution: &mut DirectExecution,
    step: &ObjectPlanStep,
) -> (r: Option<usize>)
    requires
        lists.fit(),
        current <= lists.end,
    ensures
        match r {
            Some(next) => next <= lists.end && self::step(
                lists.ground(),
                progress_of(current, *old(execution)),
                step@,
            ) == Some(progress_of(next, *final(execution))),
            None => self::step(lists.ground(), progress_of(current, *old(execution)), step@) is None,
        },
{
    match step {
        ObjectPlanStep::Literal { tokens } => {
            let start = spans::skip_whitespace_tokens(lists.objects, current, lists.end);
            if tokens.len() > lists.end - start {
                return None;
            }
            let end = start + tokens.len();
            if end > lists.objects.len() || !tokens_stand_at(lists.objects, start, tokens) {
                return None;
            }
            Some(end)
        },
        ObjectPlanStep::CapturedSpan { class_text, capture_name, is_vanishing } => {
            let class_text = match class_text {
                Some(class_text) => class_text.as_str(),
                None => {
                    return Some(current);
                },
            };
            if class_text.is_empty() {
                return Some(current);
            }
            let start = spans::skip_whitespace_tokens(lists.classes, current, lists.end);
            match consume_class_text(lists.classes, start, lists.end, class_text) {
                Some(end) => {
                    take_tokens(
                        lists,
                        execution,
                        capture_name,
                        *is_vanishing,
                        start,
                        end,
                        Ghost(current),
                    );
                    Some(end)
                },
                None => None,
            }
        },
        ObjectPlanStep::SingleToken { capture_name, is_vanishing, consume_trailing_space } => {
            let start = spans::skip_whitespace_tokens(lists.classes, current, lists.end);
            if start >= lists.end {
                return None;
            }
            let end = if *consume_trailing_space {
                spans::skip_whitespace_tokens(lists.classes, start + 1, lists.end)
            } else {
                start + 1
            };
            take_tokens(
                lists,
                execution,
                capture_name,
                *is_vanishing,
                start,
                end,
                Ghost(current),
            );
            Some(end)
        },
    }
}

/// Makes the steps of a plan on the tokens from the first of `match_range` up to the second.
#[must_use]
pub fn execute_object_plan_steps(
    steps: &Vec<ObjectPlanStep>,
    object_list: &[&str],
    class_list: &[&str],
    object: &str,
    object_offsets: &Vec<(usize, usize)>,
    match_range: (usize, usize),
) -> (r: Option<DirectExecution>)
    requires
        spans::are_offsets(object_offsets@, object_list.deep_view()),
        match_range.0 <= match_range.1 <= class_list.len(),
    ensures
        match (
            r,
            run(
                Ground {
                    objects: object_list.deep_view(),
                    classes: class_list.deep_view(),
                    object: object@,
                    end: match_range.1 as int,
                },
                Progress {
                    current: match_range.0 as int,
                    fields: Map::empty(),
                    spans: Seq::empty(),
                },
                steps.deep_view(),
            ),
        ) {
            (Some(execution), Some(progress)) => execution.fields@ == progress.fields
                && execution.capture_spans@ == progress.spans,
            (None, None) => true,
            _ => false,
        },
{
    let lists = Lists {
        objects: object_list,
        classes: class_list,
        object,
        object_offsets,
        end: match_range.1,
    };
    let ghost ground = lists.ground();
    let ghost all = steps.deep_view();
    let mut execution = DirectExecution { fields: FieldMap::new(), capture_spans: Vec::new() };
    let mut current: usize = match_range.0;
    let ghost first = progress_of(current, execution);
    let mut i: usize = 0;
    assert(all.skip(0) == all);
    while i < steps.len()
        invariant
            lists.fit(),
            ground == lists.ground(),
            all == steps.deep_view(),
            i <= steps.len(),
            current <= lists.end,
            run(ground, first, all) == run(
                ground,
                progress_of(current, execution),
                all.skip(i as int),
            ),
            ground == (Ground {
                objects: object_list.deep_view(),
                classes: class_list.deep_view(),
                object: object@,
                end: match_range.1 as int,
            }),
            first == (Progress {
                current: match_range.0 as int,
                fields: Map::empty(),
                spans: Seq::empty(),
            }),
        decreases steps.len() - i,
    {
        proof {
            let rest = all.skip(i as int);
            assert(rest[0] == steps@[i as int]@);
            assert(rest.skip(1) == all.skip(i + 1));
        }
        match execute_step(&lists, current, &mut execution, &steps[i]) {
            Some(next) => {
                current = next;
            },
            None => {
                return None;
            },
        }
        i = i + 1;
    }
    Some(execution)
}

/// Whether all spans enclose parts of a text.
fn all_fit(object: &str, spans: &Vec<(usize, usize)>) -> (r: bool)
    ensures
        r == spans_fit(object@, spans@),
{
    let mut i: usize = 0;
    while i < spans.len()
        invariant
            i <= spans.len(),
            forall|j: int|
                0 <= j < i ==> offsets::is_span(
                    object@,
                    (#[trigger] spans@[j]).0 as int,
                    spans@[j].1 as int,
                ),
        decreases spans.len() - i,
    {
        let (from, to) = spans[i];
        if !offsets::spans(object, from, to) {
            assert(spans@[i as int] == (from, to));
            return false;
        }
        i = i + 1;
    }
    true
}

/// Makes the steps of a plan, where it is to be carried out by steps alone.
#[must_use]
pub fn execute_object_plan(
    plan: &ObjectPlan,
    object_list: &[&str],
    class_list: &[&str],
    object: &str,
    object_offsets: &Vec<(usize, usize)>,
    match_range: (usize, usize),
) -> (r: Option<DirectExecution>)
    requires
        spans::are_offsets(object_offsets@, object_list.deep_view()),
        match_range.0 <= match_range.1 <= class_list.len(),
    ensures
        match (
            r,
            direct(
                plan.allow_direct,
                plan.steps.deep_view(),
                Ground {
                    objects: object_list.deep_view(),
                    classes: class_list.deep_view(),
                    object: object@,
                    end: match_range.1 as int,
                },
                match_range.0 as int,
            ),
        ) {
            (Some(execution), Some((fields, spans))) => execution.fields@ == fields
                && execution.capture_spans@ == spans && spans_fit(object@, spans),
            (None, None) => true,
            _ => false,
        },
{
    let execution = match execute_object_plan_steps(
        &plan.steps,
        object_list,
        class_list,
        object,
        object_offsets,
        match_range,
    ) {
        Some(execution) => execution,
        None => {
            return None;
        },
    };
    if !plan.allow_direct {
        return None;
    }
    if !all_fit(object, &execution.capture_spans) {
        return None;
    }
    Some(execution)
}

} // verus!
