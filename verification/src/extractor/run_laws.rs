//! What holds of reading matches and filling fields.

use crate::extractor::complement;
use crate::extractor::execute;
use crate::extractor::execute::{Ground, Progress};
use crate::extractor::fields;
use crate::extractor::groups;
use crate::extractor::object;
use crate::extractor::object_plan;
use crate::extractor::object_plan::{ObjectPlanView, PlanStep};
use crate::extractor::outcome;
use crate::extractor::outcome::{Faults, Outcome, Request, StateView};
use crate::extractor::reading;
use crate::extractor::spans;
use crate::offsets;
use crate::regex;
use crate::regex::GroupSpan;
use crate::tel::plan;
use crate::tel::segment;
use crate::tel::{CompiledClassSegmentView, MatchMode, Quantity, TelSegmentView, TokenKind};
use crate::text;
use crate::text::CharClass;
use crate::unicode;
use vstd::prelude::*;
use vstd::utf8;

verus! {

/// The first value of a field is its value, a further one comes after it with a space between, an
/// empty one adds nothing, and other fields stay as they are.
pub proof fn law_values_add_up(
    before: Map<Seq<char>, Seq<char>>,
    name: Seq<char>,
    a: Seq<char>,
    b: Seq<char>,
    other: Seq<char>,
)
    requires
        !before.contains_key(name),
        a.len() > 0,
        b.len() > 0,
        other != name,
    ensures
        ({
            let one = fields::with_value(before, name, a);
            let two = fields::with_value(one, name, b);
            &&& one.contains_key(name) && one[name] == a
            &&& two.contains_key(name) && two[name] == a + seq![' '] + b
            &&& fields::with_value(one, name, Seq::empty()) == one
            &&& fields::with_value(before, name, Seq::empty()) == before
            &&& two.contains_key(other) == before.contains_key(other)
            &&& before.contains_key(other) ==> two[other] == before[other]
        }),
{
    reveal_strlit(" ");
    assert(" "@ =~= seq![' ']);
}

/// The text of a group is the part of the text that its offsets enclose; a group that took no part
/// in the match has none.
pub proof fn law_groups_have_their_text(s: Seq<char>, from: usize, to: usize)
    ensures
        regex::group_text(s, None) is None,
        offsets::is_span(s, from as int, to as int) ==> regex::group_text(s, Some((from, to)))
            == Some(offsets::slice(s, from as int, to as int)),
        from < to && !offsets::is_span(s, from as int, to as int) ==> regex::group_text(
            s,
            Some((from, to)),
        ) is None,
{
    if offsets::is_span(s, from as int, to as int) && from == to {
        offsets::lemma_slice_none(s, from as int);
    }
}

/// Where fields have different names, each is filled from its own group without white space at its
/// ends, the first from the group after the whole match, and a field whose group has no text, or a
/// blank one, is not filled.
pub proof fn law_fields_read_their_group(
    object: Seq<char>,
    names: Seq<Seq<char>>,
    found: Seq<GroupSpan>,
    k: int,
)
    requires
        0 <= k < names.len(),
        names.no_duplicates(),
    ensures
        ({
            let filled = reading::fields_of(object, names, found);
            let value = if k + 1 < found.len() {
                regex::group_text(object, found[k + 1])
            } else {
                None
            };
            &&& value is Some && text::trim(value->0).len() > 0 ==> filled.contains_key(names[k])
                && filled[names[k]] == text::trim(value->0)
            &&& value is None || text::trim(value->0).len() == 0 ==> !filled.contains_key(names[k])
        }),
    decreases names.len(),
{
    let before = names.drop_last();
    let n = names.len() - 1;
    lemma_fields_among(object, before, found);
    assert(before.no_duplicates()) by {
        assert forall|i: int, j: int|
            0 <= i < before.len() && 0 <= j < before.len() && i != j implies before[i]
            != before[j] by {
            assert(names[i] != names[j]);
        }
    }
    if k < n {
        law_fields_read_their_group(object, before, found, k);
        assert(before[k] == names[k]);
        assert(names[k] != names[n]);
    } else {
        assert(!before.contains(names[n])) by {
            if before.contains(names[n]) {
                let i = choose|i: int| 0 <= i < before.len() && before[i] == names[n];
                assert(names[i] == names[n]);
            }
        }
        assert(!reading::fields_of(object, before, found).contains_key(names[n]));
    }
    assert(regex::group_text(object, None) is None);
    assert(names.last() == names[n]);
}

proof fn lemma_fields_among(object: Seq<char>, names: Seq<Seq<char>>, found: Seq<GroupSpan>)
    ensures
        forall|name: Seq<char>| #[trigger]
            reading::fields_of(object, names, found).contains_key(name) ==> names.contains(name),
    decreases names.len(),
{
    if names.len() > 0 {
        let before = names.drop_last();
        lemma_fields_among(object, before, found);
        assert forall|name: Seq<char>| #[trigger]
            reading::fields_of(object, names, found).contains_key(name) implies names.contains(
            name,
        ) by {
            if name == names.last() {
                assert(names[names.len() - 1] == name);
            } else {
                assert(reading::fields_of(object, before, found).contains_key(name));
                let i = choose|i: int| 0 <= i < before.len() && before[i] == name;
                assert(names[i] == name);
            }
        }
    }
}

/// The raw groups of a match are the texts of its groups after the first.
pub proof fn law_raw_groups_follow_the_match(s: Seq<char>, found: Seq<GroupSpan>, i: int)
    requires
        0 <= i < found.len() - 1,
    ensures
        groups::raw_groups(s, found).len() == found.len() - 1,
        groups::raw_groups(s, found)[i] == regex::group_text(s, found[i + 1]),
{
    assert(complement::inner_groups(found)[i] == found[i + 1]);
}

/// Each segment takes as many of the groups as its part of the comparator captures. Those of a
/// segment with `=`, and neither `+` nor `?`, are dropped, unless it is a vanishing group; those of
/// any other are kept, in order.
pub proof fn law_groups_are_shared_out(
    own: Seq<Option<Seq<char>>>,
    rest: Seq<Option<Seq<char>>>,
    first: CompiledClassSegmentView,
    segments: Seq<CompiledClassSegmentView>,
)
    requires
        first.capturing_group_count == own.len(),
    ensures
        ({
            let flags = first.segment.token_info.flags;
            let kept = groups::kept_groups(own + rest, seq![first] + segments);
            let dropped = flags.strict_class && !flags.multi_group && !flags.optional
                && first.segment.token_info.kind != TokenKind::Vanishing;
            if dropped {
                kept == groups::kept_groups(rest, segments)
            } else {
                kept == own + groups::kept_groups(rest, segments)
            }
        }),
        groups::kept_groups(rest, Seq::empty()) == rest,
{
    let all = seq![first] + segments;
    assert(all.skip(1) == segments);
    assert((own + rest).skip(own.len() as int) == rest);
    assert((own + rest).take(own.len() as int) == own);
    if own.len() == 0 {
        assert(own + rest == rest);
        assert(own + groups::kept_groups(rest, segments) == groups::kept_groups(rest, segments));
    }
}

/// A part of the joined text that reaches from the start of one token to the end of another is the
/// range of these tokens.
pub proof fn law_parts_are_ranges_of_tokens(tokens: Seq<Seq<char>>, i: int, j: int)
    requires
        0 <= i <= j < tokens.len(),
        tokens[i].len() > 0,
        tokens[j].len() > 0,
    ensures
        spans::token_range(
            tokens,
            offsets::byte_len(text::concat(tokens.take(i))) as int,
            offsets::byte_len(text::concat(tokens.take(j + 1))) as int,
        ) == Some((i, j + 1)),
{
    let from = spans::start_of(tokens, i) as int;
    let to = spans::end_of(tokens, j) as int;
    spans::lemma_total_len(tokens.take(i));
    spans::lemma_total_len(tokens.take(j + 1));
    lemma_token_bytes(tokens, i);
    lemma_token_bytes(tokens, j);
    lemma_token_at(tokens, from, i, 0);
    lemma_token_before(tokens, to, j, 0);
}

proof fn lemma_token_bytes(tokens: Seq<Seq<char>>, i: int)
    requires
        0 <= i < tokens.len(),
        tokens[i].len() > 0,
    ensures
        spans::start_of(tokens, i) < spans::end_of(tokens, i),
{
    assert(tokens.take(i + 1).drop_last() == tokens.take(i));
    assert(tokens.take(i + 1).last() == tokens[i]);
    reveal_with_fuel(utf8::encode_utf8, 2);
    assert(utf8::encode_scalar(tokens[i][0] as u32).len() > 0);
}

proof fn lemma_token_at(tokens: Seq<Seq<char>>, at: int, i: int, k: int)
    requires
        0 <= k <= i < tokens.len(),
        spans::start_of(tokens, i) <= at < spans::end_of(tokens, i),
    ensures
        spans::token_at(tokens, at, k) == Some(i),
    decreases i - k,
{
    if k < i {
        spans::lemma_start_grows(tokens, k + 1, i);
        lemma_token_at(tokens, at, i, k + 1);
    }
}

proof fn lemma_token_before(tokens: Seq<Seq<char>>, at: int, i: int, k: int)
    requires
        0 <= k <= i < tokens.len(),
        spans::start_of(tokens, i) < at <= spans::end_of(tokens, i),
    ensures
        spans::token_before(tokens, at, k) == Some(i),
    decreases i - k,
{
    if k < i {
        spans::lemma_start_grows(tokens, k + 1, i);
        lemma_token_before(tokens, at, i, k + 1);
    }
}

/// Blank tokens are passed over, and nothing else is.
pub proof fn law_blanks_are_passed_over(tokens: Seq<Seq<char>>, from: int, end: int)
    requires
        0 <= from <= end <= tokens.len(),
    ensures
        ({
            let at = spans::skip_blank(tokens, from, end);
            &&& from <= at <= end
            &&& forall|i: int| from <= i < at ==> spans::is_blank(#[trigger] tokens[i])
            &&& at < end ==> !spans::is_blank(tokens[at])
        }),
    decreases end - from,
{
    if from < end && spans::is_blank(tokens[from]) {
        law_blanks_are_passed_over(tokens, from + 1, end);
    }
}

/// A step for a single token takes the next token that is not blank, with the blanks after it, and
/// fills its field with that token; a vanishing one fills none. It fails just where there is no
/// such token before the end of the match.
pub proof fn law_single_token_is_taken(
    ground: Ground,
    progress: Progress,
    name: Option<Seq<char>>,
    is_vanishing: bool,
)
    requires
        0 <= progress.current <= ground.end <= ground.classes.len(),
        ground.classes.len() == ground.objects.len(),
    ensures
        ({
            let start = spans::skip_blank(ground.classes, progress.current, ground.end);
            let step = PlanStep::SingleToken {
                capture_name: name,
                is_vanishing,
                consume_trailing_space: true,
            };
            match execute::step(ground, progress, step) {
                None => forall|i: int|
                    progress.current <= i < ground.end ==> spans::is_blank(
                        #[trigger] ground.classes[i],
                    ),
                Some(next) => {
                    &&& start < ground.end && !spans::is_blank(ground.classes[start])
                    &&& start < next.current <= ground.end
                    &&& forall|i: int|
                        start < i < next.current ==> spans::is_blank(#[trigger] ground.classes[i])
                    &&& next.current < ground.end ==> !spans::is_blank(
                        ground.classes[next.current],
                    )
                    &&& is_vanishing || name is None ==> next.fields == progress.fields
                        && next.spans == progress.spans
                    &&& !is_vanishing && name is Some ==> {
                        let span = (
                            spans::start_of(ground.objects, start) as usize,
                            spans::end_of(ground.objects, next.current - 1) as usize,
                        );
                        &&& next.spans == progress.spans.push(span)
                        &&& offsets::is_span(ground.object, span.0 as int, span.1 as int)
                            ==> next.fields == fields::with_value(
                            progress.fields,
                            name->0,
                            text::trim(
                                offsets::slice(ground.object, span.0 as int, span.1 as int),
                            ),
                        )
                    }
                },
            }
        }),
{
    let start = spans::skip_blank(ground.classes, progress.current, ground.end);
    law_blanks_are_passed_over(ground.classes, progress.current, ground.end);
    if start < ground.end {
        law_blanks_are_passed_over(ground.classes, start + 1, ground.end);
    }
}

/// A step for captured classes takes the shortest run of tokens, after blanks, whose classes make
/// the text that was captured; an absent one takes nothing.
pub proof fn law_captured_classes_are_taken(
    ground: Ground,
    progress: Progress,
    class_text: Option<Seq<char>>,
    name: Option<Seq<char>>,
    is_vanishing: bool,
)
    requires
        0 <= progress.current <= ground.end <= ground.classes.len(),
    ensures
        ({
            let start = spans::skip_blank(ground.classes, progress.current, ground.end);
            let step = PlanStep::CapturedSpan { class_text, capture_name: name, is_vanishing };
            let after = execute::step(ground, progress, step);
            &&& class_text is None || class_text->0.len() == 0 ==> after == Some(progress)
            &&& class_text is Some && class_text->0.len() > 0 ==> match after {
                Some(next) => start < next.current <= ground.end && text::concat(
                    ground.classes.subrange(start, next.current),
                ) == class_text->0 && forall|k: int|
                    start < k < next.current ==> text::concat(
                        #[trigger] ground.classes.subrange(start, k),
                    ) != class_text->0,
                None => forall|k: int|
                    start < k <= ground.end ==> text::concat(
                        #[trigger] ground.classes.subrange(start, k),
                    ) != class_text->0,
            }
        }),
{
    let start = spans::skip_blank(ground.classes, progress.current, ground.end);
    law_blanks_are_passed_over(ground.classes, progress.current, ground.end);
    if class_text is Some && class_text->0.len() > 0 {
        lemma_run_end(ground.classes, start, start, ground.end, class_text->0);
    }
}

proof fn lemma_run_end(
    classes: Seq<Seq<char>>,
    start: int,
    i: int,
    end: int,
    class_text: Seq<char>,
)
    requires
        0 <= start <= i <= end <= classes.len(),
        forall|k: int|
            start < k <= i ==> text::concat(#[trigger] classes.subrange(start, k)) != class_text,
    ensures
        match execute::class_run_end(classes, start, i, end, class_text) {
            Some(at) => start < at <= end && text::concat(classes.subrange(start, at))
                == class_text && forall|k: int|
                start < k < at ==> text::concat(#[trigger] classes.subrange(start, k))
                    != class_text,
            None => forall|k: int|
                start < k <= end ==> text::concat(#[trigger] classes.subrange(start, k))
                    != class_text,
        },
    decreases end - i,
{
    if i < end && text::concat(classes.subrange(start, i + 1)) != class_text {
        lemma_run_end(classes, start, i + 1, end, class_text);
    }
}

/// A plan is carried out by steps alone just where every segment takes a single token: there is no
/// literal, no `+`, and no class that was captured is absent or of several words. It has one step
/// for each segment, with the segment's field.
pub proof fn law_steps_do_for_single_tokens(
    segments: Seq<CompiledClassSegmentView>,
    captured: Seq<Option<Seq<char>>>,
    i: int,
)
    requires
        0 <= i < segments.len(),
    ensures
        ({
            let steps = object_plan::plan_steps(segments, captured);
            let info = segments[i].segment.token_info;
            let single = PlanStep::SingleToken {
                capture_name: info.var_name,
                is_vanishing: info.kind == TokenKind::Vanishing,
                consume_trailing_space: true,
            };
            &&& steps.len() == segments.len()
            &&& info.kind == TokenKind::Literal ==> steps[i] == (PlanStep::Literal {
                tokens: seq![info.token],
            })
            &&& info.kind != TokenKind::Literal && info.flags.multi_group ==> steps[i]
                is CapturedSpan && steps[i]->CapturedSpan_capture_name == info.var_name
            &&& info.kind != TokenKind::Literal && info.flags.strict_class
                && !info.flags.multi_group && !info.flags.optional ==> steps[i] == single
            &&& info.kind != TokenKind::Literal && !info.flags.multi_group ==> steps[i] == single
                || (steps[i] is CapturedSpan && steps[i]->CapturedSpan_capture_name
                == info.var_name && !(steps[i]->class_text is Some && text::all_in(
                steps[i]->class_text->0,
                CharClass::Dark,
            )))
        }),
    decreases segments.len(),
{
    let steps = object_plan::plan_steps(segments, captured);
    let segment = segments[0].segment;
    let rest = segments.skip(1);
    let takes = segment.token_info.kind != TokenKind::Literal && object_plan::takes_captured_class(
        segment.token_info.flags,
    );
    let left = if takes && captured.len() > 0 {
        captured.skip(1)
    } else {
        captured
    };
    let more = object_plan::plan_steps(rest, left);
    lemma_steps_len(rest, left);
    assert(steps == seq![steps[0]] + more);
    if i > 0 {
        law_steps_do_for_single_tokens(rest, left, i - 1);
        assert(rest[i - 1] == segments[i]);
        assert(steps[i] == more[i - 1]);
    }
}

proof fn lemma_steps_len(
    segments: Seq<CompiledClassSegmentView>,
    captured: Seq<Option<Seq<char>>>,
)
    ensures
        object_plan::plan_steps(segments, captured).len() == segments.len(),
    decreases segments.len(),
{
    if segments.len() > 0 {
        let segment = segments[0].segment;
        let rest = segments.skip(1);
        lemma_steps_len(rest, captured);
        if captured.len() > 0 {
            lemma_steps_len(rest, captured.skip(1));
        }
    }
}

/// Segments that take a captured class take the captured classes in turn.
pub proof fn law_captured_classes_go_in_turn(
    first: CompiledClassSegmentView,
    segments: Seq<CompiledClassSegmentView>,
    class: Option<Seq<char>>,
    captured: Seq<Option<Seq<char>>>,
    definitions: Map<Seq<char>, Seq<char>>,
)
    requires
        first.segment.token_info.kind != TokenKind::Literal,
    ensures
        ({
            let flags = first.segment.token_info.flags;
            let takes = flags.multi_group || flags.optional || !flags.strict_class;
            let all = seq![first] + segments;
            let given = seq![class] + captured;
            let infos = object_plan::comparator_infos(all, given, definitions);
            &&& takes ==> infos.skip(1) == object_plan::comparator_infos(
                segments,
                captured,
                definitions,
            ) && object_plan::plan_steps(all, given).skip(1) == object_plan::plan_steps(
                segments,
                captured,
            ) && infos[0].multi_group_optional == class
            &&& !takes ==> infos.skip(1) == object_plan::comparator_infos(
                segments,
                given,
                definitions,
            ) && object_plan::plan_steps(all, given).skip(1) == object_plan::plan_steps(
                segments,
                given,
            ) && infos[0].new_class_type == first.segment.token_info.class_type
            &&& infos[0].segment == first.segment
            &&& takes ==> infos[0].new_class_type == (if class is Some && class->0.len() > 0 {
                class
            } else {
                None
            })
            &&& infos[0].regex_pattern == Some(
                object::object_regex(infos[0].new_class_type, first.segment, definitions),
            )
        }),
{
    let all = seq![first] + segments;
    let given = seq![class] + captured;
    assert(all.skip(1) == segments);
    assert(given.skip(1) == captured);
    let infos = object_plan::comparator_infos(all, given, definitions);
    let steps = object_plan::plan_steps(all, given);
    let flags = first.segment.token_info.flags;
    if flags.multi_group || flags.optional || !flags.strict_class {
        assert(infos.skip(1) =~= object_plan::comparator_infos(segments, captured, definitions));
        assert(steps.skip(1) =~= object_plan::plan_steps(segments, captured));
    } else {
        assert(infos.skip(1) =~= object_plan::comparator_infos(segments, given, definitions));
        assert(steps.skip(1) =~= object_plan::plan_steps(segments, given));
    }
}

/// The expression over the object text is made of those of the segments, with any white space
/// between them.
pub proof fn law_object_comparators_join(
    a: Seq<object_plan::ObjComparatorTokenInfoView>,
    b: Seq<object_plan::ObjComparatorTokenInfoView>,
)
    requires
        a.len() > 0,
        b.len() > 0,
    ensures
        object_plan::object_comparator(a + b) == object_plan::object_comparator(a) + r"\s*"@
            + object_plan::object_comparator(b),
{
    let x = object_plan::patterns_of(a);
    let y = object_plan::patterns_of(b);
    assert(object_plan::patterns_of(a + b) =~= x + y);
    text::laws::law_joins_join(x, y, r"\s*"@);
}

/// Anchors are taken off as they were put on.
pub proof fn law_anchors_come_off(pattern: Seq<char>)
    ensures
        object::unanchored(seq!['^'] + pattern + seq!['$']) == pattern,
        pattern.len() > 0 && pattern[0] != '^' && pattern.last() != '$' ==> object::unanchored(
            pattern,
        ) == pattern,
{
    reveal_strlit("^");
    reveal_strlit("$");
    assert("^"@ =~= seq!['^'] && "$"@ =~= seq!['$']);
    let s = seq!['^'] + pattern + seq!['$'];
    assert(s.subrange(0, 1) =~= "^"@);
    let front = s.skip(1);
    assert(front == pattern + seq!['$']);
    assert(front.subrange(front.len() - 1, front.len() as int) =~= "$"@);
    assert(front.take(front.len() - 1) == pattern);
    if pattern.len() > 0 && pattern[0] != '^' && pattern.last() != '$' {
        assert(pattern.subrange(0, 1)[0] == pattern[0]);
        assert("^"@[0] == '^');
        assert(pattern.subrange(pattern.len() - 1, pattern.len() as int)[0] == pattern.last());
        assert("$"@[0] == '$');
    }
}

/// An optional segment for which nothing was captured makes no expression, and neither does any
/// other but a vanishing group; a vanishing group then goes by its own class.
pub proof fn law_absent_segments_make_no_expression(
    segment: TelSegmentView,
    definitions: Map<Seq<char>, Seq<char>>,
)
    ensures
        segment.quantity == Quantity::Optional || segment.token_info.kind != TokenKind::Vanishing
            ==> object::object_regex(None, segment, definitions).len() == 0,
        segment.quantity != Quantity::Optional && segment.token_info.kind == TokenKind::Vanishing
            && segment.token_info.class_type is Some && segment.token_info.class_type->0.len() > 0
            ==> object::object_regex(None, segment, definitions) == object::object_regex(
            segment.token_info.class_type,
            segment,
            definitions,
        ),
{
}

/// Whether a text is a single class name.
pub open spec fn is_class_word(word: Seq<char>) -> bool {
    word.len() > 0 && text::all_in(word, CharClass::Dark) && word[0] != '('
}

/// A capture of one class that is defined takes tokens as the definition says, and white space
/// after them, in a group of its own, which may be missing where the capture is optional.
pub proof fn law_captures_go_by_definitions(
    class: Seq<char>,
    pattern: Seq<char>,
    segment: TelSegmentView,
    definitions: Map<Seq<char>, Seq<char>>,
)
    requires
        is_class_word(class),
        definitions.contains_key(class),
        definitions[class] == seq!['^'] + pattern + seq!['$'],
        segment.token_info.kind == TokenKind::Capturing,
    ensures
        object::object_regex(Some(class), segment, definitions) == if segment.quantity
            == Quantity::Optional {
            r"((?:"@ + pattern + r")\s*)?"@
        } else {
            r"((?:"@ + pattern + r")\s*)"@
        },
{
    lemma_one_class(class, pattern, segment, definitions);
    reveal_strlit("(");
    reveal_strlit(")");
    reveal_strlit("?");
    reveal_strlit("(?:");
    reveal_strlit(r"\s*");
    reveal_strlit(r"((?:");
    reveal_strlit(r")\s*)");
    reveal_strlit(r")\s*)?");
    let base = "(?:"@ + pattern + ")"@ + r"\s*"@;
    assert("("@ + base + ")"@ =~= r"((?:"@ + pattern + r")\s*)"@);
    assert("("@ + base + ")"@ + "?"@ =~= r"((?:"@ + pattern + r")\s*)?"@);
}

proof fn lemma_one_class(
    class: Seq<char>,
    pattern: Seq<char>,
    segment: TelSegmentView,
    definitions: Map<Seq<char>, Seq<char>>,
)
    requires
        is_class_word(class),
        definitions.contains_key(class),
        definitions[class] == seq!['^'] + pattern + seq!['$'],
    ensures
        text::join(object::class_regexes(text::words(class), segment, definitions), r"\s*"@)
            == "(?:"@ + pattern + ")"@,
{
    crate::normalize::lemma_one_word(class);
    law_anchors_come_off(pattern);
    reveal_strlit("(");
    assert("("@[0] == '(');
    assert(class.subrange(0, 1)[0] == class[0]);
    assert(!"("@.is_prefix_of(class));
    assert(object::unbounded(class) == class) by {
        reveal_strlit(r"(?:(?=[\w\-'])(?<![\w\-'])|(?<=[\w\-'])(?![\w\-']))");
        let edge = plan::WORD_BOUNDARY_REGEX@;
        assert(edge[0] == '(');
        if edge.is_prefix_of(class) {
            assert(class.subrange(0, edge.len() as int)[0] == class[0]);
        }
    }
    let names = object::class_names(class);
    assert(names == seq![class]);
    let known = object::defined(names, definitions);
    assert(names.drop_last() == Seq::<Seq<char>>::empty());
    assert(object::defined(names.drop_last(), definitions) == Seq::<Seq<char>>::empty());
    assert(known =~= seq![pattern]);
    assert(text::join(known, "|"@) == pattern);
    assert(!definitions.is_empty()) by {
        assert(definitions.dom().contains(class));
    }
    let made = object::class_regexes(text::words(class), segment, definitions);
    assert(made =~= seq!["(?:"@ + pattern + ")"@]);
}

/// Where nothing is defined, a capture goes by its type modifiers: `@` for letters, `#` for digits,
/// `,` for separators, and none of them for a word.
pub proof fn law_modifiers_tell_where_definitions_do_not(
    class: Seq<char>,
    segment: TelSegmentView,
)
    requires
        is_class_word(class),
        segment.type_modifiers == segment::type_modifiers_of(segment.token_info.modifier),
        !segment::marks(segment.token_info.modifier, '%'),
        !segment::marks(segment.token_info.modifier, '='),
        !segment::marks(segment.token_info.modifier, '$'),
        !segment::marks(segment.token_info.modifier, '['),
    ensures
        ({
            let letters = segment::marks(segment.token_info.modifier, '@');
            let digits = segment::marks(segment.token_info.modifier, '#');
            let separators = segment::marks(segment.token_info.modifier, ',');
            let made = object::class_regex(class, segment, Map::empty());
            &&& letters && !digits && !separators ==> made == "[a-zA-Z]+"@
            &&& !letters && digits && !separators ==> made == r"[\d]+"@
            &&& !letters && !digits && separators ==> made == r"[,\-:;]+"@
            &&& !letters && !digits && !separators ==> made == r"[\w\-']+"@
        }),
{
    let none = Map::<Seq<char>, Seq<char>>::empty();
    assert(none.is_empty());
}

/// Several words of classes make their expressions one after another, with any white space between.
pub proof fn law_words_of_classes_follow_one_another(
    a: Seq<Seq<char>>,
    b: Seq<Seq<char>>,
    segment: TelSegmentView,
    definitions: Map<Seq<char>, Seq<char>>,
)
    requires
        a.len() > 0,
        b.len() > 0,
    ensures
        text::join(object::class_regexes(a + b, segment, definitions), r"\s*"@) == text::join(
            object::class_regexes(a, segment, definitions),
            r"\s*"@,
        ) + r"\s*"@ + text::join(object::class_regexes(b, segment, definitions), r"\s*"@),
{
    let x = object::class_regexes(a, segment, definitions);
    let y = object::class_regexes(b, segment, definitions);
    assert(object::class_regexes(a + b, segment, definitions) =~= x + y);
    text::laws::law_joins_join(x, y, r"\s*"@);
}

/// Making a pattern non-capturing changes nothing but how its groups open: text without brackets
/// and backslashes and escaped characters stay, a plain group and a named one open with `(?:`, and
/// any other group stays.
pub proof fn law_groups_open_without_capturing(plain: Seq<char>, c: char, rest: Seq<char>)
    requires
        forall|i: int| 0 <= i < plain.len() ==> #[trigger] plain[i] != '(' && plain[i] != '\\',
    ensures
        object::non_capturing(plain) == plain,
        object::non_capturing(plain + rest) == plain + object::non_capturing(rest),
        object::non_capturing(seq!['\\', c] + rest) == seq!['\\', c] + object::non_capturing(rest),
        rest.len() > 0 && rest[0] != '?' ==> object::non_capturing(seq!['('] + rest) == seq![
            '(',
            '?',
            ':',
        ] + object::non_capturing(rest),
        object::non_capturing(seq!['(', '?', ':'] + rest) == seq!['(', '?', ':']
            + object::non_capturing(rest),
        (forall|i: int| 0 <= i < plain.len() ==> #[trigger] plain[i] != '>')
            ==> object::non_capturing(seq!['(', '?', 'P', '<'] + plain + seq!['>'] + rest) == seq![
            '(',
            '?',
            ':',
        ] + object::non_capturing(rest),
{
    reveal_strlit("(?:");
    assert("(?:"@ =~= seq!['(', '?', ':']);
    let none = Seq::<char>::empty();
    lemma_plain_front(plain, none);
    assert(plain + none == plain);
    assert(object::non_capturing(none) == none);
    lemma_plain_front(plain, rest);
    let escaped = seq!['\\', c] + rest;
    assert(escaped.take(2) == seq!['\\', c]);
    assert(escaped.skip(2) == rest);
    let group = seq!['('] + rest;
    assert(group.skip(1) == rest);
    let other = seq!['(', '?', ':'] + rest;
    let mark = seq!['?', ':'];
    assert(other.skip(1) == mark + rest);
    lemma_plain_front(mark, rest);
    assert(seq!['('] + (mark + object::non_capturing(rest)) == seq!['(', '?', ':']
        + object::non_capturing(rest));
    let named = seq!['(', '?', 'P', '<'] + plain + seq!['>'] + rest;
    assert(named.skip(4) == plain + seq!['>'] + rest);
    if forall|i: int| 0 <= i < plain.len() ==> #[trigger] plain[i] != '>' {
        lemma_after_name(plain, rest);
    }
}

proof fn lemma_plain_front(plain: Seq<char>, rest: Seq<char>)
    requires
        forall|i: int| 0 <= i < plain.len() ==> #[trigger] plain[i] != '(' && plain[i] != '\\',
    ensures
        object::non_capturing(plain + rest) == plain + object::non_capturing(rest),
    decreases plain.len(),
{
    let s = plain + rest;
    if plain.len() == 0 {
        assert(s == rest);
        assert(plain + object::non_capturing(rest) == object::non_capturing(rest));
    } else {
        let t = plain.skip(1);
        assert forall|i: int| 0 <= i < t.len() implies #[trigger] t[i] != '(' && t[i] != '\\' by {
            assert(t[i] == plain[i + 1]);
        }
        lemma_plain_front(t, rest);
        assert(s.skip(1) == t + rest);
        assert(s[0] == plain[0]);
        assert(s.take(1) + (t + object::non_capturing(rest)) == plain + object::non_capturing(
            rest,
        ));
    }
}

proof fn lemma_after_name(name: Seq<char>, rest: Seq<char>)
    requires
        forall|i: int| 0 <= i < name.len() ==> #[trigger] name[i] != '>',
    ensures
        object::after_name(name + seq!['>'] + rest) == rest,
    decreases name.len(),
{
    let s = name + seq!['>'] + rest;
    if name.len() == 0 {
        assert(s[0] == '>');
        assert(s.skip(1) == rest);
    } else {
        let t = name.skip(1);
        assert forall|i: int| 0 <= i < t.len() implies #[trigger] t[i] != '>' by {
            assert(t[i] == name[i + 1]);
        }
        lemma_after_name(t, rest);
        assert(s[0] == name[0]);
        assert(s.skip(1) == t + seq!['>'] + rest);
    }
}

/// Only an expression whose match has a group of one space alone is taken for no match; where it
/// starts is of use only where it may lie anywhere; and its range is that of the tokens it reaches
/// into.
pub proof fn law_matches_are_read(
    objects: Seq<Seq<char>>,
    classes: Seq<Seq<char>>,
    segments: Seq<CompiledClassSegmentView>,
    mode: MatchMode,
    found: Seq<GroupSpan>,
)
    ensures
        reading::class_reading(objects, classes, segments, mode, found) is None <==> exists|i: int|
            0 < i < found.len() && regex::group_text(
                reading::class_text(objects, classes),
                #[trigger] found[i],
            ) == Some(seq![' ']),
        reading::class_reading(objects, classes, segments, mode, found) matches Some(told) ==> {
            &&& told.has_whole_match == (found.len() > 0 && found[0] is Some)
            &&& mode != MatchMode::Any ==> told.prefix is None
            &&& told.captured == groups::kept_groups(
                groups::raw_groups(reading::class_text(objects, classes), found),
                segments,
            )
        },
{
    reveal_strlit(" ");
    assert(" "@ =~= seq![' ']);
    let s = reading::class_text(objects, classes);
    let raw = groups::raw_groups(s, found);
    if raw.contains(Some(" "@)) {
        let i = choose|i: int| 0 <= i < raw.len() && raw[i] == Some(" "@);
        law_raw_groups_follow_the_match(s, found, i);
        assert(regex::group_text(s, found[i + 1]) == Some(seq![' ']));
    }
    if exists|i: int|
        0 < i < found.len() && regex::group_text(s, #[trigger] found[i]) == Some(seq![' ']) {
        let i = choose|i: int|
            0 < i < found.len() && regex::group_text(s, #[trigger] found[i]) == Some(seq![' ']);
        law_raw_groups_follow_the_match(s, found, i - 1);
        assert(raw[i - 1] == Some(" "@));
    }
}

/// Where neither text has a blank token at an end that the other has too, both are the tokens put
/// together; where both begin or end with one, both lose the white space there.
pub proof fn law_texts_are_the_tokens(objects: Seq<Seq<char>>, classes: Seq<Seq<char>>)
    ensures
        !reading::leads_blank(objects, classes) && !reading::trails_blank(objects, classes)
            ==> reading::class_text(objects, classes) == text::concat(classes)
            && reading::object_text(objects, classes) == text::concat(objects),
        reading::leads_blank(objects, classes) && reading::trails_blank(objects, classes)
            ==> reading::class_text(objects, classes) == text::trim(text::concat(classes))
            && reading::object_text(objects, classes) == text::trim(text::concat(objects)),
        reading::leads_blank(objects, classes) <==> objects.len() > 0 && classes.len() > 0
            && is_blank_text(objects[0]) && is_blank_text(classes[0]),
        reading::trails_blank(objects, classes) <==> objects.len() > 0 && classes.len() > 0
            && is_blank_text(objects[objects.len() - 1]) && is_blank_text(
            classes[classes.len() - 1],
        ),
{
    if objects.len() > 0 {
        lemma_blank(objects[0]);
        lemma_blank(objects[objects.len() - 1]);
    }
    if classes.len() > 0 {
        lemma_blank(classes[0]);
        lemma_blank(classes[classes.len() - 1]);
    }
}

/// Whether a text is white space throughout.
pub open spec fn is_blank_text(s: Seq<char>) -> bool {
    forall|i: int| 0 <= i < s.len() ==> unicode::is_white(#[trigger] s[i])
}

proof fn lemma_blank(s: Seq<char>)
    ensures
        spans::is_blank(s) == is_blank_text(s),
{
    if spans::is_blank(s) {
        assert forall|i: int| 0 <= i < s.len() implies unicode::is_white(#[trigger] s[i]) by {
            assert(text::in_class(CharClass::White, s[i]));
        }
    }
}

/// Once there is a plan, its steps are tried first, unless the texts begin with a blank: where they
/// do, their fields are the output, with what their spans leave over of the object text. Else the
/// expression is run, and its groups fill the fields; no match leaves the whole text.
pub proof fn law_plans_are_followed(
    state: StateView,
    request: Request,
    made: ObjectPlanView,
    range: (int, int),
    faults: Faults,
)
    ensures
        ({
            let object = reading::object_text(request.objects, request.classes);
            let direct = outcome::direct_for(request, made, range);
            let (after, told) = outcome::planned_run(state, request, made, range, faults);
            let leads = reading::leads_blank(request.objects, request.classes);
            &&& leads ==> direct is None
            &&& direct matches Some((filled, taken)) ==> told == Outcome::Output(
                outcome::ParseOutputView {
                    uid: request.uid,
                    fields: filled,
                    complement: text::trim_start(complement::complement_of_spans(object, taken)),
                },
            )
            &&& direct is None && !regex::regex_accepts(made.pattern) ==> told
                == Outcome::ObjectPattern(made.pattern)
            &&& direct is None && regex::regex_accepts(made.pattern) && faults.object_search ==> told
                == Outcome::ObjectSearch(made.pattern)
            &&& direct is None && regex::regex_accepts(made.pattern) && !faults.object_search
                ==> match regex::regex_captures(made.pattern, object) {
                None => told == Outcome::Output(
                    outcome::ParseOutputView {
                        uid: request.uid,
                        fields: Map::empty(),
                        complement: text::concat(request.objects),
                    },
                ),
                Some(found) => match complement::complement_of_groups(object, found) {
                    None => told == Outcome::GroupsAstray,
                    Some(rest) => told == Outcome::Output(
                        outcome::ParseOutputView {
                            uid: request.uid,
                            fields: reading::fields_of(object, made.variable_names, found),
                            complement: if leads {
                                seq![' '] + rest
                            } else {
                                rest
                            },
                        },
                    ),
                },
            }
            &&& after.patterns == state.patterns
            &&& after.plans == state.plans
        }),
{
    reveal_strlit(" ");
    assert(" "@ =~= seq![' ']);
}

/// Each plan that is followed counts once: as a hit of its steps or as a run of its expression; and
/// its steps count as tried unless the texts begin with a blank.
pub proof fn law_plans_count_once(
    state: StateView,
    request: Request,
    made: ObjectPlanView,
    range: (int, int),
    faults: Faults,
)
    requires
        state.counters.direct_execution_attempts < usize::MAX,
        state.counters.direct_execution_hits < usize::MAX,
        state.counters.fallback_execution_count < usize::MAX,
    ensures
        ({
            let after = outcome::planned_run(state, request, made, range, faults).0;
            let hit = outcome::direct_for(request, made, range) is Some;
            &&& after.counters.direct_execution_hits == state.counters.direct_execution_hits + (if
                hit {
                1int
            } else {
                0int
            })
            &&& after.counters.fallback_execution_count == state.counters.fallback_execution_count
                + (if hit {
                0int
            } else {
                1int
            })
            &&& after.counters.direct_execution_attempts
                == state.counters.direct_execution_attempts + (if reading::leads_blank(
                request.objects,
                request.classes,
            ) {
                0int
            } else {
                1int
            })
            &&& after.counters.profiled_rows == state.counters.profiled_rows
            &&& hit ==> after.regexes == state.regexes
                && after.counters.fallback_regex_realizations
                == state.counters.fallback_regex_realizations
        }),
{
}

/// A class token is replaced up to the first character that neither belongs to a name nor is one of
/// the modifiers that may follow it; a token that begins otherwise stays.
pub proof fn law_class_tokens_are_replaced(
    name: Seq<char>,
    rest: Seq<char>,
    pattern: Seq<char>,
)
    requires
        forall|i: int| 0 <= i < name.len() ==> is_replaced(#[trigger] name[i]),
        rest.len() > 0 ==> !is_replaced(rest[0]),
    ensures
        name.len() > 0 ==> plan::with_prefix_replaced(name + rest, pattern) == pattern + rest,
        plan::with_prefix_replaced(rest, pattern) == rest,
{
    let token = name + rest;
    assert forall|i: int| 0 <= i < name.len() implies text::in_class(
        CharClass::ClassPrefix,
        #[trigger] token[i],
    ) by {
        assert(token[i] == name[i]);
        assert(is_replaced(name[i]));
    }
    if rest.len() > 0 {
        assert(token[name.len() as int] == rest[0]);
    }
    text::lemma_run_is(token, CharClass::ClassPrefix, name.len() as int);
    text::lemma_run_is(rest, CharClass::ClassPrefix, 0);
    assert(token.skip(name.len() as int) == rest);
}

/// Whether a character belongs to a class name, or is a modifier that may follow one.
pub open spec fn is_replaced(c: char) -> bool {
    unicode::is_alnum(c) || c == '_' || c == '@' || c == '#' || c == ',' || c == '+' || c == '?'
        || c == '|'
}

/// A bracket that is neither escaped nor followed by `?` opens a group; nothing else does.
pub proof fn law_brackets_open_groups(plain: Seq<char>, c: char, rest: Seq<char>)
    requires
        forall|i: int| 0 <= i < plain.len() ==> #[trigger] plain[i] != '(' && plain[i] != '\\',
    ensures
        plan::group_count(plain) == 0,
        plan::group_count(plain + rest) == plan::group_count(rest),
        plan::group_count(seq!['\\', c] + rest) == plan::group_count(rest),
        rest.len() == 0 || rest[0] != '?' ==> plan::group_count(seq!['('] + rest) == 1
            + plan::group_count(rest),
        rest.len() > 0 && rest[0] == '?' ==> plan::group_count(seq!['('] + rest)
            == plan::group_count(rest),
{
    let none = Seq::<char>::empty();
    lemma_plain_groups(plain, none);
    assert(plain + none == plain);
    lemma_plain_groups(plain, rest);
    assert((seq!['\\', c] + rest).skip(2) == rest);
    assert((seq!['('] + rest).skip(1) == rest);
}

proof fn lemma_plain_groups(plain: Seq<char>, rest: Seq<char>)
    requires
        forall|i: int| 0 <= i < plain.len() ==> #[trigger] plain[i] != '(' && plain[i] != '\\',
    ensures
        plan::group_count(plain + rest) == plan::group_count(rest),
    decreases plain.len(),
{
    let s = plain + rest;
    if plain.len() == 0 {
        assert(s == rest);
    } else {
        let t = plain.skip(1);
        assert forall|i: int| 0 <= i < t.len() implies #[trigger] t[i] != '(' && t[i] != '\\' by {
            assert(t[i] == plain[i + 1]);
        }
        lemma_plain_groups(t, rest);
        assert(s.skip(1) == t + rest);
        assert(s[0] == plain[0]);
    }
}

} // verus!
