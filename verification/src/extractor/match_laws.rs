//! What holds of finding matches in the object text and of the expressions for it.

use crate::extractor;
use crate::extractor::execute;
use crate::extractor::execute::{Ground, Progress};
use crate::extractor::groups;
use crate::extractor::object;
use crate::extractor::object_plan;
use crate::extractor::object_plan::PlanStep;
use crate::extractor::outcome;
use crate::extractor::outcome::{Faults, Outcome, ParseOutputView, Request, StateView};
use crate::extractor::reading;
use crate::extractor::run_laws;
use crate::extractor::spans;
use crate::offsets;
use crate::regex::GroupSpan;
use crate::tel::plan;
use crate::tel::segment;
use crate::tel::{CompiledClassSegmentView, MatchMode, Quantity, TelSegmentView, TokenKind};
use crate::text;
use crate::text::CharClass;
use crate::token_model::Definitions;
use vstd::prelude::*;

verus! {

/// The number of bytes of the tokens before a position.
pub open spec fn bytes_before(tokens: Seq<Seq<char>>, i: int) -> int {
    offsets::byte_len(text::concat(tokens.take(i))) as int
}

/// Going back over blank tokens does not pass one that is not blank.
proof fn lemma_going_back_stops(tokens: Seq<Seq<char>>, k: int, j: int)
    requires
        0 <= k <= j < tokens.len(),
        !spans::is_blank(tokens[k]),
    ensures
        k <= spans::skip_blank_back(tokens, j),
    decreases j,
{
    if j > k && spans::is_blank(tokens[j]) {
        lemma_going_back_stops(tokens, k, j - 1);
    }
}

proof fn lemma_going_on_stops(tokens: Seq<Seq<char>>, i: int, k: int, end: int)
    requires
        0 <= i <= k < end <= tokens.len(),
        forall|m: int| i <= m < k ==> spans::is_blank(#[trigger] tokens[m]),
        !spans::is_blank(tokens[k]),
    ensures
        spans::skip_blank(tokens, i, end) == k,
    decreases k - i,
{
    if i < k {
        assert(spans::is_blank(tokens[i]));
        lemma_going_on_stops(tokens, i + 1, k, end);
    }
}

/// A match that reaches over class tokens begins in the object text where the object of the first
/// of them that is not blank begins.
pub proof fn law_matches_are_aligned(
    objects: Seq<Seq<char>>,
    classes: Seq<Seq<char>>,
    i: int,
    k: int,
    j: int,
)
    requires
        0 <= i <= k <= j < classes.len(),
        k < objects.len(),
        classes[i].len() > 0,
        classes[j].len() > 0,
        forall|m: int| i <= m < k ==> spans::is_blank(#[trigger] classes[m]),
        !spans::is_blank(classes[k]),
    ensures
        spans::aligned_start(
            classes,
            objects,
            bytes_before(classes, i),
            bytes_before(classes, j + 1),
        ) == Some(bytes_before(objects, k)),
{
    let from = bytes_before(classes, i);
    let to = bytes_before(classes, j + 1);
    run_laws::law_parts_are_ranges_of_tokens(classes, i, j);
    lemma_going_on_stops(classes, i, k, classes.len() as int);
    lemma_going_back_stops(classes, k, j);
    spans::lemma_total_len(objects.take(k));
}

/// What a match tells of where it lies: in the texts as they are where they do not both begin with
/// a blank token, and else counted from the end of that token.
pub proof fn law_matches_tell_where_they_lie(
    objects: Seq<Seq<char>>,
    classes: Seq<Seq<char>>,
    segments: Seq<CompiledClassSegmentView>,
    mode: MatchMode,
    found: Seq<GroupSpan>,
    i: int,
    k: int,
    j: int,
)
    requires
        0 <= i <= k <= j < classes.len(),
        k < objects.len(),
        classes[i].len() > 0,
        classes[j].len() > 0,
        forall|m: int| i <= m < k ==> spans::is_blank(#[trigger] classes[m]),
        !spans::is_blank(classes[k]),
        bytes_before(objects, k) <= usize::MAX,
        found.len() > 0,
        found[0] is Some,
        ({
            let lead = if spans::is_blank(objects[0]) && spans::is_blank(classes[0]) {
                offsets::byte_len(classes[0]) as int
            } else {
                0
            };
            let (from, to) = found[0]->0;
            from == bytes_before(classes, i) - lead && to == bytes_before(classes, j + 1) - lead
        }),
    ensures
        reading::class_reading(objects, classes, segments, mode, found) matches Some(told) ==> {
            &&& told.range == Some((i, j + 1))
            &&& mode == MatchMode::Any ==> told.prefix is Some && told.prefix->0 == bytes_before(
                objects,
                k,
            )
            &&& mode != MatchMode::Any ==> told.prefix is None
        },
{
    law_matches_are_aligned(objects, classes, i, k, j);
    run_laws::law_parts_are_ranges_of_tokens(classes, i, j);
}

/// Of the definitions of a name the last counts, and names without a definition have none.
pub proof fn law_last_definition_counts(definitions: Definitions, name: Seq<char>, i: int)
    ensures
        ({
            let all = extractor::definition_map(definitions);
            &&& all.contains_key(name) <==> exists|k: int|
                0 <= k < definitions.len() && (#[trigger] definitions[k]).0 == name
            &&& 0 <= i < definitions.len() && definitions[i].0 == name && (forall|k: int|
                i < k < definitions.len() ==> (#[trigger] definitions[k]).0 != name) ==> all[name]
                == definitions[i].1
        }),
    decreases definitions.len(),
{
    if definitions.len() > 0 {
        let before = definitions.drop_last();
        let last = definitions.len() - 1;
        law_last_definition_counts(before, name, i);
        if definitions[last].0 != name {
            if exists|k: int| 0 <= k < definitions.len() && (#[trigger] definitions[k]).0 == name {
                let k = choose|k: int|
                    0 <= k < definitions.len() && (#[trigger] definitions[k]).0 == name;
                assert(before[k].0 == name);
            }
            if exists|k: int| 0 <= k < before.len() && (#[trigger] before[k]).0 == name {
                let k = choose|k: int| 0 <= k < before.len() && (#[trigger] before[k]).0 == name;
                assert(definitions[k].0 == name);
            }
            if 0 <= i < definitions.len() && definitions[i].0 == name && (forall|k: int|
                i < k < definitions.len() ==> (#[trigger] definitions[k]).0 != name) {
                assert(before[i].0 == name);
                assert forall|k: int| i < k < before.len() implies (#[trigger] before[k]).0
                    != name by {
                    assert(definitions[k].0 != name);
                }
            }
        } else if 0 <= i < last {
            assert(definitions[last].0 == name);
        }
    }
}

/// A plan is carried out by its steps alone just where each of them takes a single token.
pub proof fn law_plans_of_single_tokens_are_direct(
    segments: Seq<CompiledClassSegmentView>,
    captured: Seq<Option<Seq<char>>>,
    mode: MatchMode,
    prefix: Option<usize>,
    definitions: Map<Seq<char>, Seq<char>>,
)
    ensures
        ({
            let made = object_plan::object_plan(segments, captured, mode, prefix, definitions);
            &&& made.steps.len() == segments.len()
            &&& made.allow_direct <==> forall|i: int|
                0 <= i < made.steps.len() ==> (#[trigger] made.steps[i]) is SingleToken
            &&& (exists|i: int|
                0 <= i < segments.len() && ((
                #[trigger] segments[i]).segment.token_info.kind == TokenKind::Literal
                    || segments[i].segment.token_info.flags.multi_group)) ==> !made.allow_direct
        }),
{
    let made = object_plan::object_plan(segments, captured, mode, prefix, definitions);
    if segments.len() > 0 {
        run_laws::law_steps_do_for_single_tokens(segments, captured, 0);
    }
    if exists|i: int|
        0 <= i < segments.len() && ((
        #[trigger] segments[i]).segment.token_info.kind == TokenKind::Literal
            || segments[i].segment.token_info.flags.multi_group) {
        let i = choose|i: int|
            0 <= i < segments.len() && ((
            #[trigger] segments[i]).segment.token_info.kind == TokenKind::Literal
                || segments[i].segment.token_info.flags.multi_group);
        run_laws::law_steps_do_for_single_tokens(segments, captured, i);
        assert(!(made.steps[i] is SingleToken));
    }
}

/// The step of a segment that takes a captured class: a single token where the class is one word and
/// the segment takes one token, and else the tokens of the captured class.
pub proof fn law_captured_classes_make_steps(
    first: CompiledClassSegmentView,
    segments: Seq<CompiledClassSegmentView>,
    class: Option<Seq<char>>,
    captured: Seq<Option<Seq<char>>>,
)
    requires
        first.segment.token_info.kind != TokenKind::Literal,
        first.segment.token_info.flags.multi_group || first.segment.token_info.flags.optional
            || !first.segment.token_info.flags.strict_class,
    ensures
        ({
            let info = first.segment.token_info;
            let vanishes = info.kind == TokenKind::Vanishing;
            let step = object_plan::plan_steps(seq![first] + segments, seq![class] + captured)[0];
            let absent = object_plan::plan_steps(seq![first] + segments, Seq::empty())[0];
            let span = |text: Option<Seq<char>>|
                PlanStep::CapturedSpan {
                    class_text: text,
                    capture_name: info.var_name,
                    is_vanishing: vanishes,
                };
            let single = PlanStep::SingleToken {
                capture_name: info.var_name,
                is_vanishing: vanishes,
                consume_trailing_space: true,
            };
            &&& class is Some && !info.flags.multi_group && (forall|i: int|
                0 <= i < class->0.len() ==> !crate::unicode::is_white(#[trigger] class->0[i]))
                ==> step == single
            &&& info.flags.multi_group || class is None || (exists|i: int|
                0 <= i < class->0.len() && crate::unicode::is_white(#[trigger] class->0[i]))
                ==> step == span(class)
            &&& absent == span(None)
        }),
{
    let all = seq![first] + segments;
    let given = seq![class] + captured;
    assert(all[0] == first && given[0] == class);
    if class is Some {
        let word = class->0;
        if exists|i: int| 0 <= i < word.len() && crate::unicode::is_white(#[trigger] word[i]) {
            let i = choose|i: int| 0 <= i < word.len() && crate::unicode::is_white(
                #[trigger] word[i],
            );
            assert(!text::in_class(CharClass::Dark, word[i]));
        } else {
            assert forall|i: int| 0 <= i < word.len() implies text::in_class(
                CharClass::Dark,
                #[trigger] word[i],
            ) by {}
        }
    }
}

/// A literal is looked for as it is, takes no captured class, and has a step of its own.
pub proof fn law_literals_are_looked_for(
    first: CompiledClassSegmentView,
    segments: Seq<CompiledClassSegmentView>,
    captured: Seq<Option<Seq<char>>>,
    definitions: Map<Seq<char>, Seq<char>>,
)
    requires
        first.segment.token_info.kind == TokenKind::Literal,
    ensures
        ({
            let all = seq![first] + segments;
            let infos = object_plan::comparator_infos(all, captured, definitions);
            let steps = object_plan::plan_steps(all, captured);
            &&& infos[0].regex_pattern == Some(plan::escaped(first.segment.token_info.token))
            &&& infos[0].segment == first.segment
            &&& infos.skip(1) == object_plan::comparator_infos(segments, captured, definitions)
            &&& steps[0] == (PlanStep::Literal { tokens: seq![first.segment.token_info.token] })
            &&& steps.skip(1) == object_plan::plan_steps(segments, captured)
        }),
{
    let all = seq![first] + segments;
    assert(all.skip(1) =~= segments);
    let infos = object_plan::comparator_infos(all, captured, definitions);
    let steps = object_plan::plan_steps(all, captured);
    assert(infos.skip(1) =~= object_plan::comparator_infos(segments, captured, definitions));
    assert(steps.skip(1) =~= object_plan::plan_steps(segments, captured));
}

/// A segment that takes a captured class where none is left makes no expression, and the others go
/// on as if it were not there.
pub proof fn law_segments_without_a_class_are_passed_over(
    first: CompiledClassSegmentView,
    segments: Seq<CompiledClassSegmentView>,
    definitions: Map<Seq<char>, Seq<char>>,
)
    requires
        first.segment.token_info.kind != TokenKind::Literal,
        first.segment.token_info.flags.multi_group || first.segment.token_info.flags.optional
            || !first.segment.token_info.flags.strict_class,
    ensures
        object_plan::comparator_infos(seq![first] + segments, Seq::empty(), definitions)
            == object_plan::comparator_infos(segments, Seq::empty(), definitions),
{
    assert((seq![first] + segments).skip(1) =~= segments);
}

/// The names in a group of alternatives are those that it is made of.
pub proof fn law_alternatives_are_named(names: Seq<Seq<char>>)
    requires
        names.len() > 0,
        forall|i: int| 0 <= i < names.len() ==> !(#[trigger] names[i]).contains('|'),
    ensures
        object::class_names(r"(?:"@ + text::join(names, seq!['|']) + ")"@) == names,
{
    reveal_strlit("(?:");
    reveal_strlit("(");
    reveal_strlit(")");
    let inner = text::join(names, seq!['|']);
    let class = "(?:"@ + inner + ")"@;
    assert("("@ =~= class.subrange(0, 1));
    assert(")"@ =~= class.subrange(class.len() - 1, class.len() as int));
    offsets::law_parts_are_found_again("(?:"@, inner, ")"@);
    offsets::law_parts_are_found_again("(?:"@ + inner, ")"@, Seq::empty());
    assert("(?:"@ + inner + ")"@ + Seq::<char>::empty() =~= class);
    assert(crate::unicode::is_ascii_text("(?:"@));
    assert(crate::unicode::is_ascii_text(")"@));
    offsets::lemma_ascii("(?:"@);
    offsets::lemma_ascii(")"@);
    text::laws::law_joined_parts_come_apart(names, '|');
}

/// A class between word edges is named by what stands between them.
pub proof fn law_edges_come_off(name: Seq<char>)
    requires
        name.len() == 0 || name[0] != '(',
    ensures
        object::unbounded(plan::WORD_BOUNDARY_REGEX@ + name + plan::WORD_BOUNDARY_REGEX@) == name,
        object::unbounded(name) == name,
        !name.contains('(') ==> object::class_names(name) == seq![name],
{
    let edge = plan::WORD_BOUNDARY_REGEX@;
    text::laws::law_between_is_what_was_put_between(edge, name, edge);
    reveal_strlit(r"(?:(?=[\w\-'])(?<![\w\-'])|(?<=[\w\-'])(?![\w\-']))");
    reveal_strlit("(");
    assert(edge[0] == '(');
    assert("("@[0] == '(');
    if name.len() > 0 {
        assert(name.subrange(0, 1)[0] == name[0]);
        if edge.is_prefix_of(name) {
            assert(name.subrange(0, edge.len() as int)[0] == name[0]);
        }
    }
}

/// The expressions of names are those of their definitions without anchors, in order; names without
/// a definition add nothing.
pub proof fn law_names_go_by_their_definitions(
    names: Seq<Seq<char>>,
    name: Seq<char>,
    pattern: Seq<char>,
    definitions: Map<Seq<char>, Seq<char>>,
)
    ensures
        !definitions.contains_key(name) ==> object::defined(names.push(name), definitions)
            == object::defined(names, definitions),
        definitions.contains_key(name) && definitions[name] == seq!['^'] + pattern + seq!['$']
            ==> object::defined(names.push(name), definitions) == object::defined(
            names,
            definitions,
        ).push(pattern),
        object::defined(Seq::empty(), definitions).len() == 0,
{
    assert(names.push(name).drop_last() =~= names);
    run_laws::law_anchors_come_off(pattern);
}

/// A class of alternatives goes by the definitions of all of them, as alternatives in a group; where
/// there are definitions but none of a name, by the type modifiers.
pub proof fn law_classes_go_by_their_names(
    class: Seq<char>,
    segment: TelSegmentView,
    definitions: Map<Seq<char>, Seq<char>>,
)
    requires
        class.len() > 0,
        !definitions.is_empty(),
        segment.type_modifiers == segment::type_modifiers_of(segment.token_info.modifier),
    ensures
        ({
            let known = object::defined(object::class_names(class), definitions);
            let made = object::class_regex(class, segment, definitions);
            let letters = segment::marks(segment.token_info.modifier, '@');
            let digits = segment::marks(segment.token_info.modifier, '#');
            let separators = segment::marks(segment.token_info.modifier, ',');
            &&& known.len() > 0 ==> made == "(?:"@ + text::join(known, seq!['|']) + ")"@
            &&& known.len() == 0 && letters && !digits && !separators ==> made == "[a-zA-Z]+"@
            &&& known.len() == 0 && !letters && digits && !separators ==> made == r"[\d]+"@
            &&& known.len() == 0 && !letters && !digits && separators ==> made == r"[,\-:;]+"@
            &&& known.len() == 0 && !letters && !digits && !separators ==> made == r"[\w\-']+"@
        }),
{
    reveal_strlit("|");
    assert("|"@ =~= seq!['|']);
}

/// Where nothing is defined, `%`, `=`, `$` and a list ask for what they ask for in the class text.
pub proof fn law_other_modifiers_ask_as_over_classes(
    class: Seq<char>,
    segment: TelSegmentView,
    asked: Seq<char>,
)
    requires
        plan::segment_pattern(segment, None) == Some(asked),
        segment::marks(segment.token_info.modifier, '%') || segment::marks(
            segment.token_info.modifier,
            '=',
        ) || segment::marks(segment.token_info.modifier, '$') || segment::marks(
            segment.token_info.modifier,
            '[',
        ),
    ensures
        object::class_regex(class, segment, Map::empty()) == asked,
{
    assert(Map::<Seq<char>, Seq<char>>::empty().is_empty());
}

/// A vanishing group is looked for without capturing, an optional one as a group that may be
/// missing; a capture is looked for in a group of its own.
pub proof fn law_kinds_make_groups(base: Seq<char>)
    ensures
        object::grouped(base, true, false, false) == seq!['('] + base + seq![')'],
        object::grouped(base, true, true, false) == seq!['('] + base + seq![')', '?'],
        object::grouped(base, false, false, true) == object::non_capturing(base),
        object::grouped(base, false, false, false) == object::non_capturing(base),
        object::grouped(base, false, true, false) == seq!['('] + object::non_capturing(base) + seq![
            ')',
            '?',
        ],
        object::grouped(base, false, true, true) == seq!['('] + object::non_capturing(base) + seq![
            ')',
            '?',
        ],
{
    reveal_strlit("(");
    reveal_strlit(")");
    reveal_strlit("?");
    reveal_strlit(")?");
    assert("("@ =~= seq!['('] && ")"@ =~= seq![')']);
    assert(")?"@ =~= seq![')', '?']);
    assert("("@ + base + ")"@ + "?"@ =~= seq!['('] + base + seq![')', '?']);
}

/// Tokens of a vanishing group and of a bare class go by the definition of the class, with white
/// space after them; of a bare class, what follows its name in the pattern stays.
pub proof fn law_uncaptured_tokens_go_by_definitions(
    class: Seq<char>,
    segment: TelSegmentView,
    definitions: Map<Seq<char>, Seq<char>>,
)
    requires
        class.len() > 0,
        segment.quantity != Quantity::Optional,
        segment.token_info.kind != TokenKind::Capturing,
    ensures
        ({
            let base = text::join(
                object::class_regexes(text::words(class), segment, definitions),
                r"\s*"@,
            ) + r"\s*"@;
            let made = object::object_regex(Some(class), segment, definitions);
            &&& segment.token_info.kind == TokenKind::Vanishing ==> made == object::non_capturing(
                base,
            )
            &&& segment.token_info.kind == TokenKind::Class ==> made == plan::with_prefix_replaced(
                segment.token_info.token,
                object::non_capturing(base),
            )
        }),
{
    assert(Some(class) != Some(Seq::<char>::empty()));
}

/// A match in the class text is read, and followed by its plan; one of whose groups is one space
/// counts for no match, as does one that reaches into no token; and one without a whole match is an
/// error.
pub proof fn law_matches_are_followed(
    s: StateView,
    request: Request,
    definitions: Map<Seq<char>, Seq<char>>,
    found: Seq<GroupSpan>,
    faults: Faults,
)
    ensures
        ({
            let told = outcome::searched_run(s, request, definitions, Some(found), faults).1;
            let none = Outcome::Output(
                ParseOutputView {
                    uid: request.uid,
                    fields: Map::empty(),
                    complement: text::concat(request.objects),
                },
            );
            let segments = plan::class_plan(request.pattern.segments).segments;
            match reading::class_reading(
                request.objects,
                request.classes,
                segments,
                request.mode,
                found,
            ) {
                None => told == none,
                Some(read) => {
                    &&& found.len() == 0 || found[0] is None ==> told == Outcome::NoWholeMatch
                    &&& found.len() > 0 && found[0] is Some && read.range is None ==> told == none
                    &&& found.len() > 0 && found[0] is Some && read.range is Some ==> told
                        == outcome::planned_run(
                        s,
                        request,
                        object_plan::object_plan(
                            segments,
                            read.captured,
                            request.mode,
                            read.prefix,
                            definitions,
                        ),
                        read.range->0,
                        faults,
                    ).1
                },
            }
        }),
{
}

/// Steps are carried out one after another, each where the one before it ended.
pub proof fn law_steps_are_carried_out_in_turn(
    ground: Ground,
    progress: Progress,
    a: Seq<PlanStep>,
    b: Seq<PlanStep>,
)
    ensures
        execute::run(ground, progress, a + b) == (match execute::run(ground, progress, a) {
            Some(middle) => execute::run(ground, middle, b),
            None => None,
        }),
        execute::run(ground, progress, Seq::empty()) == Some(progress),
        a.len() == 1 ==> execute::run(ground, progress, a) == execute::step(ground, progress, a[0]),
    decreases a.len(),
{
    if a.len() == 0 {
        assert(a + b =~= b);
    } else {
        assert((a + b).skip(1) =~= a.skip(1) + b);
        assert((a + b)[0] == a[0]);
        if let Some(next) = execute::step(ground, progress, a[0]) {
            law_steps_are_carried_out_in_turn(ground, next, a.skip(1), b);
        }
        if a.len() == 1 {
            assert(a.skip(1) =~= Seq::empty());
        }
    }
}

/// The step of a literal passes over blanks and the tokens of the literal, which have to stand there,
/// and fills no field.
pub proof fn law_literals_are_passed(ground: Ground, progress: Progress, token: Seq<char>)
    requires
        0 <= progress.current <= ground.end <= ground.objects.len(),
    ensures
        ({
            let at = spans::skip_blank(ground.objects, progress.current, ground.end);
            let after = execute::step(
                ground,
                progress,
                PlanStep::Literal { tokens: seq![token] },
            );
            &&& at < ground.end && ground.objects[at] == token ==> after == Some(
                Progress { current: at + 1, ..progress },
            )
            &&& at >= ground.end || ground.objects[at] != token ==> after is None
        }),
{
    let at = spans::skip_blank(ground.objects, progress.current, ground.end);
    run_laws::law_blanks_are_passed_over(ground.objects, progress.current, ground.end);
    if at < ground.end {
        assert(ground.objects.subrange(at, at + 1)[0] == ground.objects[at]);
        assert(ground.objects.subrange(at, at + 1) =~= seq![ground.objects[at]]);
    }
}

/// Steps do just where all of them can be carried out from the start of the match, the plan allows
/// it, and what they take are parts of the object text; what they come to is then what they filled
/// and took.
pub proof fn law_steps_do_where_they_can(
    allow_direct: bool,
    steps: Seq<PlanStep>,
    ground: Ground,
    start: int,
)
    ensures
        ({
            let begun = Progress { current: start, fields: Map::empty(), spans: Seq::empty() };
            let done = execute::run(ground, begun, steps);
            let direct = execute::direct(allow_direct, steps, ground, start);
            &&& !allow_direct ==> direct is None
            &&& done is None ==> direct is None
            &&& done is Some && (exists|i: int|
                0 <= i < done->0.spans.len() && !offsets::is_span(
                    ground.object,
                    (#[trigger] done->0.spans[i]).0 as int,
                    done->0.spans[i].1 as int,
                )) ==> direct is None
            &&& allow_direct && done is Some && (forall|i: int|
                0 <= i < done->0.spans.len() ==> offsets::is_span(
                    ground.object,
                    (#[trigger] done->0.spans[i]).0 as int,
                    done->0.spans[i].1 as int,
                )) ==> direct == Some((done->0.fields, done->0.spans))
        }),
{
}

/// A segment whose class is empty is looked for as it is written.
pub proof fn law_segments_of_no_class_are_looked_for(
    segment: TelSegmentView,
    definitions: Map<Seq<char>, Seq<char>>,
)
    ensures
        object::object_regex(Some(Seq::empty()), segment, definitions) == plan::escaped(
            segment.token_info.token,
        ),
{
}

/// The fields of expressions are, in order, those of captures and of optional segments that make an
/// expression; vanishing groups have none.
pub proof fn law_expressions_name_their_fields(
    infos: Seq<object_plan::ObjComparatorTokenInfoView>,
    info: object_plan::ObjComparatorTokenInfoView,
)
    ensures
        ({
            let token = info.segment.token_info;
            let before = object_plan::field_names(infos);
            let all = object_plan::field_names(infos.push(info));
            let made = info.regex_pattern is Some && info.regex_pattern->0.len() > 0;
            &&& made && token.kind == TokenKind::Capturing && token.var_name is Some ==> all
                == before.push(token.var_name->0)
            &&& made && token.kind != TokenKind::Vanishing && token.flags.optional
                && token.var_name is Some ==> all == before.push(token.var_name->0)
            &&& !made || token.kind == TokenKind::Vanishing || token.var_name is None || (
            token.kind != TokenKind::Capturing && !token.flags.optional) ==> all == before
            &&& object_plan::field_names(Seq::empty()).len() == 0
        }),
{
    assert(infos.push(info).drop_last() =~= infos);
}

/// Two of `@`, `#` and `,` together ask for no tokens of a class that no definition tells.
pub proof fn law_mixed_modifiers_ask_for_nothing(
    class: Seq<char>,
    segment: TelSegmentView,
    definitions: Map<Seq<char>, Seq<char>>,
)
    requires
        segment.type_modifiers == segment::type_modifiers_of(segment.token_info.modifier),
        segment.token_info.modifier is Some,
        !segment.token_info.modifier->0.contains('%'),
        !segment.token_info.modifier->0.contains('='),
        !segment.token_info.modifier->0.contains('$'),
        !segment.token_info.modifier->0.contains('['),
        object::defined(object::class_names(class), definitions).len() == 0,
        ({
            let m = segment.token_info.modifier->0;
            ||| m.contains('@') && m.contains('#')
            ||| m.contains('@') && m.contains(',')
            ||| m.contains('#') && m.contains(',')
        }),
    ensures
        object::class_regex(class, segment, definitions).len() == 0,
{
}

/// Where a segment needs more groups than there are left, all that are left are kept as they are.
pub proof fn law_groups_that_are_too_few_stay(
    raw: Seq<Option<Seq<char>>>,
    first: CompiledClassSegmentView,
    segments: Seq<CompiledClassSegmentView>,
)
    requires
        first.capturing_group_count > raw.len(),
    ensures
        groups::kept_groups(raw, seq![first] + segments) == raw,
{
    assert((seq![first] + segments)[0] == first);
}

} // verus!
