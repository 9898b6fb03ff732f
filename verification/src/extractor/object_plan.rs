//! What an extraction does with the object text once the class text has matched.

use crate::extractor::object;
use crate::tel::plan;
use crate::tel::{
    CompiledClassSegment, CompiledClassSegmentView, MatchMode, ModifierFlags, TelSegment,
    TelSegmentView, TokenKind,
};
use crate::text;
use crate::text::CharClass;
use crate::tokenizer;
use vstd::hash_map::StringHashMap;
use vstd::prelude::*;

verus! {

/// A segment with the expression over the object text that it makes.
#[derive(Debug, PartialEq, Eq)]
pub struct ObjComparatorTokenInfo {
    pub segment: TelSegment,
    pub class_comparator_substring: String,
    pub multi_group_optional: Option<String>,
    pub new_class_type: Option<String>,
    pub regex_pattern: Option<String>,
}

/// The value of an [`ObjComparatorTokenInfo`].
#[verifier::ext_equal]
pub struct ObjComparatorTokenInfoView {
    pub segment: TelSegmentView,
    pub class_comparator_substring: Seq<char>,
    pub multi_group_optional: Option<Seq<char>>,
    pub new_class_type: Option<Seq<char>>,
    pub regex_pattern: Option<Seq<char>>,
}

impl View for ObjComparatorTokenInfo {
    type V = ObjComparatorTokenInfoView;

    open spec fn view(&self) -> ObjComparatorTokenInfoView {
        ObjComparatorTokenInfoView {
            segment: self.segment@,
            class_comparator_substring: self.class_comparator_substring@,
            multi_group_optional: self.multi_group_optional.deep_view(),
            new_class_type: self.new_class_type.deep_view(),
            regex_pattern: self.regex_pattern.deep_view(),
        }
    }
}

impl DeepView for ObjComparatorTokenInfo {
    type V = ObjComparatorTokenInfoView;

    open spec fn deep_view(&self) -> ObjComparatorTokenInfoView {
        self.view()
    }
}

impl Clone for ObjComparatorTokenInfo {
    fn clone(&self) -> (r: Self)
        ensures
            r@ == self@,
    {
        ObjComparatorTokenInfo {
            segment: self.segment.clone(),
            class_comparator_substring: self.class_comparator_substring.clone(),
            multi_group_optional: text::clone_text(&self.multi_group_optional),
            new_class_type: text::clone_text(&self.new_class_type),
            regex_pattern: text::clone_text(&self.regex_pattern),
        }
    }
}

/// Whether the class of a segment is what the match captured for it, not its own.
pub open spec fn takes_captured_class(flags: ModifierFlags) -> bool {
    flags.multi_group || flags.optional || !flags.strict_class
}

/// A captured class, unless it is empty.
pub open spec fn captured_class(captured: Option<Seq<char>>) -> Option<Seq<char>> {
    match captured {
        Some(class) => if class.len() == 0 {
            None
        } else {
            Some(class)
        },
        None => None,
    }
}

/// The segments with their expressions. Each segment that takes a captured class takes the next
/// one; where none is left it is passed over.
pub open spec fn comparator_infos(
    segments: Seq<CompiledClassSegmentView>,
    captured: Seq<Option<Seq<char>>>,
    definitions: Map<Seq<char>, Seq<char>>,
) -> Seq<ObjComparatorTokenInfoView>
    decreases segments.len(),
{
    if segments.len() == 0 {
        Seq::empty()
    } else {
        let segment = segments[0].segment;
        let rest = segments.skip(1);
        let substring = segments[0].class_comparator_substring;
        if segment.token_info.kind == TokenKind::Literal {
            seq![
                ObjComparatorTokenInfoView {
                    segment,
                    class_comparator_substring: substring,
                    multi_group_optional: None,
                    new_class_type: None,
                    regex_pattern: Some(plan::escaped(segment.token_info.token)),
                },
            ] + comparator_infos(rest, captured, definitions)
        } else if takes_captured_class(segment.token_info.flags) {
            if captured.len() == 0 {
                comparator_infos(rest, captured, definitions)
            } else {
                seq![
                    ObjComparatorTokenInfoView {
                        segment,
                        class_comparator_substring: substring,
                        multi_group_optional: captured[0],
                        new_class_type: captured_class(captured[0]),
                        regex_pattern: Some(
                            object::object_regex(captured_class(captured[0]), segment, definitions),
                        ),
                    },
                ] + comparator_infos(rest, captured.skip(1), definitions)
            }
        } else {
            seq![
                ObjComparatorTokenInfoView {
                    segment,
                    class_comparator_substring: substring,
                    multi_group_optional: None,
                    new_class_type: segment.token_info.class_type,
                    regex_pattern: Some(
                        object::object_regex(
                            segment.token_info.class_type,
                            segment,
                            definitions,
                        ),
                    ),
                },
            ] + comparator_infos(rest, captured, definitions)
        }
    }
}

/// The expressions of segments.
pub open spec fn patterns_of(infos: Seq<ObjComparatorTokenInfoView>) -> Seq<Seq<char>> {
    Seq::new(infos.len(), |i: int| infos[i].regex_pattern->0)
}

/// The expression over the object text, before a mode is applied.
pub open spec fn object_comparator(infos: Seq<ObjComparatorTokenInfoView>) -> Seq<char> {
    text::join(patterns_of(infos), r"\s*"@)
}

/// A decimal digit.
pub open spec fn digit(n: nat) -> char {
    ('0' as u32 + n) as char
}

/// A number in decimal digits.
pub open spec fn decimal(n: nat) -> Seq<char>
    decreases n,
{
    if n < 10 {
        seq![digit(n)]
    } else {
        decimal(n / 10).push(digit(n % 10))
    }
}

/// The expression over the object text. Where a match may lie anywhere and it is known where it
/// starts, that many characters come before it.
pub open spec fn object_pattern(comparator: Seq<char>, mode: MatchMode, prefix: Option<usize>) -> Seq<
    char,
> {
    let anchored = plan::anchored(comparator, mode);
    if mode == MatchMode::Any && prefix is Some {
        if prefix->0 > 0 {
            "(?s)^(?:.{"@ + decimal(prefix->0 as nat) + "})"@ + anchored + "(?:.*)$"@
        } else {
            "(?s)^"@ + anchored + "(?:.*)$"@
        }
    } else {
        anchored
    }
}

/// Whether the expression of a segment captures a field.
pub open spec fn fills_field(info: ObjComparatorTokenInfoView) -> bool {
    info.segment.token_info.kind != TokenKind::Vanishing && (info.segment.token_info.kind
        == TokenKind::Capturing || info.segment.token_info.flags.optional)
        && info.regex_pattern is Some && info.regex_pattern->0.len() > 0
}

/// The fields that expressions capture, in order.
pub open spec fn field_names(infos: Seq<ObjComparatorTokenInfoView>) -> Seq<Seq<char>>
    decreases infos.len(),
{
    if infos.len() == 0 {
        Seq::empty()
    } else {
        let before = field_names(infos.drop_last());
        let info = infos.last();
        if fills_field(info) && info.segment.token_info.var_name is Some {
            before.push(info.segment.token_info.var_name->0)
        } else {
            before
        }
    }
}

fn digit_of(n: usize) -> (r: char)
    requires
        n < 10,
    ensures
        r == digit(n as nat),
{
    match n {
        0 => '0',
        1 => '1',
        2 => '2',
        3 => '3',
        4 => '4',
        5 => '5',
        6 => '6',
        7 => '7',
        8 => '8',
        _ => '9',
    }
}

fn decimal_of(n: usize) -> (r: String)
    ensures
        r@ == decimal(n as nat),
    decreases n,
{
    if n < 10 {
        let mut r = String::new();
        r.push(digit_of(n));
        assert(r@ == seq![digit(n as nat)]);
        r
    } else {
        let mut r = decimal_of(n / 10);
        r.push(digit_of(n % 10));
        r
    }
}

/// The expression over the object text.
#[must_use]
pub fn build_object_pattern(comparator: &str, mode: MatchMode, any_prefix_len: Option<usize>) -> (r:
    String)
    ensures
        r@ == object_pattern(comparator@, mode, any_prefix_len),
{
    let anchored = plan::apply_match_mode(comparator, mode);
    match any_prefix_len {
        Some(start) if mode == MatchMode::Any => {
            let mut pattern = if start > 0 {
                let count = decimal_of(start);
                text::glue3("(?s)^(?:.{", count.as_str(), "})")
            } else {
                "(?s)^".to_string()
            };
            pattern.append(anchored.as_str());
            pattern.append("(?:.*)$");
            pattern
        },
        _ => anchored,
    }
}

/// The values of captured classes.
pub open spec fn captured_view(captured: Seq<Option<String>>) -> Seq<Option<Seq<char>>> {
    Seq::new(captured.len(), |i: int| captured[i].deep_view())
}

fn nonempty_class(captured: &Option<String>) -> (r: Option<String>)
    ensures
        r.deep_view() == captured_class(captured.deep_view()),
{
    match captured {
        Some(class) => if class.as_str().is_empty() {
            None
        } else {
            Some(class.clone())
        },
        None => None,
    }
}

/// The segments with the expressions over the object text that they make, and these joined.
#[must_use]
pub fn create_obj_comparator_string(
    segments: &[CompiledClassSegment],
    captured: &[Option<String>],
    token_definitions: &StringHashMap<String>,
) -> (r: (String, Vec<ObjComparatorTokenInfo>))
    ensures
        r.1.deep_view() == comparator_infos(
            segments.deep_view(),
            captured_view(captured@),
            object::texts(token_definitions@),
        ),
        r.0@ == object_comparator(r.1.deep_view()),
{
    let ghost all = segments.deep_view();
    let ghost given = captured_view(captured@);
    let ghost definitions = object::texts(token_definitions@);
    let mut parts: Vec<String> = Vec::new();
    let mut infos: Vec<ObjComparatorTokenInfo> = Vec::new();
    let mut used: usize = 0;
    let mut i: usize = 0;
    proof {
        assert(all.skip(0) == all);
        assert(given.skip(0) == given);
        assert(infos.deep_view() + comparator_infos(all, given, definitions) == comparator_infos(
            all,
            given,
            definitions,
        ));
        assert(parts.deep_view() =~= patterns_of(infos.deep_view()));
    }
    while i < segments.len()
        invariant
            all == segments.deep_view(),
            given == captured_view(captured@),
            definitions == object::texts(token_definitions@),
            i <= segments.len(),
            used <= captured.len(),
            infos.deep_view() + comparator_infos(
                all.skip(i as int),
                given.skip(used as int),
                definitions,
            ) == comparator_infos(all, given, definitions),
            parts.deep_view() == patterns_of(infos.deep_view()),
        decreases segments.len() - i,
    {
        let compiled = &segments[i];
        let segment = &compiled.segment;
        let flags = segment.token_info.flags;
        let ghost before = infos.deep_view();
        let ghost had = parts.deep_view();
        let ghost rest = all.skip(i as int);
        let ghost open = given.skip(used as int);
        proof {
            assert(rest[0] == compiled@);
            assert(rest.skip(1) == all.skip(i + 1));
            assert(open.len() > 0 ==> open[0] == captured@[used as int].deep_view() && open.skip(1)
                == given.skip(used + 1));
        }
        let is_literal = segment.token_info.kind == TokenKind::Literal;
        let needs_captured_class = flags.multi_group || flags.optional || !flags.strict_class;
        if !is_literal && needs_captured_class && used >= captured.len() {
            i = i + 1;
            continue;
        }
        let (multi_group_optional, new_class_type, regex_pattern) = if is_literal {
            (None, None, plan::escape_regex_literal(segment.token_info.token.as_str()))
        } else if needs_captured_class {
            let class = nonempty_class(&captured[used]);
            let regex = object::create_regex_pattern(
                text::borrowed(&class),
                segment,
                token_definitions,
            );
            let given_class = text::clone_text(&captured[used]);
            used = used + 1;
            (given_class, class, regex)
        } else {
            let class = text::clone_text(&segment.token_info.class_type);
            let regex = object::create_regex_pattern(
                text::borrowed(&class),
                segment,
                token_definitions,
            );
            (None, class, regex)
        };
        parts.push(regex_pattern.clone());
        let info = ObjComparatorTokenInfo {
            segment: segment.clone(),
            class_comparator_substring: compiled.class_comparator_substring.clone(),
            multi_group_optional,
            new_class_type,
            regex_pattern: Some(regex_pattern),
        };
        infos.push(info);
        proof {
            let more = comparator_infos(all.skip(i + 1), given.skip(used as int), definitions);
            assert(infos.deep_view() == before.push(info@));
            assert(comparator_infos(rest, open, definitions) == seq![info@] + more);
            assert(before.push(info@) + more == before + (seq![info@] + more));
            assert(parts.deep_view() == had.push(regex_pattern@));
            assert(parts.deep_view() =~= patterns_of(infos.deep_view()));
        }
        i = i + 1;
    }
    proof {
        let more = comparator_infos(all.skip(i as int), given.skip(used as int), definitions);
        assert(more.len() == 0);
        assert(infos.deep_view() + more == infos.deep_view());
    }
    (text::join_texts(&parts, r"\s*"), infos)
}

/// The fields that the expressions of segments capture, in order.
fn variable_names(infos: &Vec<ObjComparatorTokenInfo>) -> (r: Vec<String>)
    ensures
        r.deep_view() == field_names(infos.deep_view()),
{
    let ghost all = infos.deep_view();
    let mut names: Vec<String> = Vec::new();
    let mut i: usize = 0;
    while i < infos.len()
        invariant
            all == infos.deep_view(),
            i <= infos.len(),
            names.deep_view() == field_names(all.take(i as int)),
        decreases infos.len() - i,
    {
        let info = &infos[i];
        let token_info = &info.segment.token_info;
        let ghost before = names.deep_view();
        proof {
            let next = all.take(i + 1);
            assert(next.drop_last() == all.take(i as int));
            assert(next.last() == info@);
        }
        let has_pattern = match &info.regex_pattern {
            Some(pattern) => !pattern.as_str().is_empty(),
            None => false,
        };
        if !token_info.is_vanishing_group() && (token_info.is_capturing_group()
            || token_info.flags.optional) && has_pattern {
            if let Some(name) = &token_info.var_name {
                names.push(name.clone());
                assert(names.deep_view() == before.push(name@));
            }
        }
        i = i + 1;
    }
    assert(all.take(i as int) == all);
    names
}

/// What an extraction does for one segment.
#[derive(Debug, PartialEq, Eq)]
pub enum ObjectPlanStep {
    Literal { tokens: Vec<String> },
    CapturedSpan {
        class_text: Option<String>,
        capture_name: Option<String>,
        is_vanishing: bool,
    },
    SingleToken {
        capture_name: Option<String>,
        is_vanishing: bool,
        consume_trailing_space: bool,
    },
}

/// The value of an [`ObjectPlanStep`].
#[verifier::ext_equal]
pub enum PlanStep {
    Literal { tokens: Seq<Seq<char>> },
    CapturedSpan {
        class_text: Option<Seq<char>>,
        capture_name: Option<Seq<char>>,
        is_vanishing: bool,
    },
    SingleToken {
        capture_name: Option<Seq<char>>,
        is_vanishing: bool,
        consume_trailing_space: bool,
    },
}

impl View for ObjectPlanStep {
    type V = PlanStep;

    open spec fn view(&self) -> PlanStep {
        match self {
            ObjectPlanStep::Literal { tokens } => PlanStep::Literal { tokens: tokens.deep_view() },
            ObjectPlanStep::CapturedSpan { class_text, capture_name, is_vanishing } =>
                PlanStep::CapturedSpan {
                class_text: class_text.deep_view(),
                capture_name: capture_name.deep_view(),
                is_vanishing: *is_vanishing,
            },
            ObjectPlanStep::SingleToken { capture_name, is_vanishing, consume_trailing_space } =>
                PlanStep::SingleToken {
                capture_name: capture_name.deep_view(),
                is_vanishing: *is_vanishing,
                consume_trailing_space: *consume_trailing_space,
            },
        }
    }
}

impl DeepView for ObjectPlanStep {
    type V = PlanStep;

    open spec fn deep_view(&self) -> PlanStep {
        self.view()
    }
}

/// A step with the tokens of a literal put together.
pub open spec fn merged(step: PlanStep) -> PlanStep {
    match step {
        PlanStep::Literal { tokens } => PlanStep::Literal { tokens: seq![text::concat(tokens)] },
        _ => step,
    }
}

/// Steps with the tokens of literals put together.
pub open spec fn all_merged(steps: Seq<PlanStep>) -> Seq<PlanStep> {
    Seq::new(steps.len(), |i: int| merged(steps[i]))
}

/// The step of a segment that takes the captured class `captured`.
pub open spec fn captured_step(segment: TelSegmentView, captured: Option<Seq<char>>) -> PlanStep {
    let capture_name = segment.token_info.var_name;
    let is_vanishing = segment.token_info.kind == TokenKind::Vanishing;
    if !segment.token_info.flags.multi_group && captured is Some && text::all_in(
        captured->0,
        CharClass::Dark,
    ) {
        PlanStep::SingleToken { capture_name, is_vanishing, consume_trailing_space: true }
    } else {
        PlanStep::CapturedSpan { class_text: captured, capture_name, is_vanishing }
    }
}

/// The steps of segments, literals put together. Each segment that takes a captured class takes the
/// next one, as long as there are any.
pub open spec fn plan_steps(
    segments: Seq<CompiledClassSegmentView>,
    captured: Seq<Option<Seq<char>>>,
) -> Seq<PlanStep>
    decreases segments.len(),
{
    if segments.len() == 0 {
        Seq::empty()
    } else {
        let segment = segments[0].segment;
        let rest = segments.skip(1);
        if segment.token_info.kind == TokenKind::Literal {
            seq![PlanStep::Literal { tokens: seq![segment.token_info.token] }] + plan_steps(
                rest,
                captured,
            )
        } else if takes_captured_class(segment.token_info.flags) {
            if captured.len() == 0 {
                seq![captured_step(segment, None)] + plan_steps(rest, captured)
            } else {
                seq![captured_step(segment, captured[0])] + plan_steps(rest, captured.skip(1))
            }
        } else {
            seq![
                PlanStep::SingleToken {
                    capture_name: segment.token_info.var_name,
                    is_vanishing: segment.token_info.kind == TokenKind::Vanishing,
                    consume_trailing_space: true,
                },
            ] + plan_steps(rest, captured)
        }
    }
}

/// Whether every step takes a single token, so that no expression has to be run.
pub open spec fn takes_single_tokens(steps: Seq<PlanStep>) -> bool {
    forall|i: int| 0 <= i < steps.len() ==> (#[trigger] steps[i]) is SingleToken
}

/// The value of an [`ObjectPlan`].
#[verifier::ext_equal]
pub struct ObjectPlanView {
    pub steps: Seq<PlanStep>,
    pub allow_direct: bool,
    pub pattern: Seq<char>,
    pub variable_names: Seq<Seq<char>>,
}

/// What an extraction does with the object text: steps that take tokens, and an expression with the
/// fields that it captures for when steps do not do.
#[derive(Debug)]
pub struct ObjectPlan {
    pub steps: Vec<ObjectPlanStep>,
    pub allow_direct: bool,
    pub pattern: String,
    pub variable_names: Vec<String>,
}

impl View for ObjectPlan {
    type V = ObjectPlanView;

    open spec fn view(&self) -> ObjectPlanView {
        ObjectPlanView {
            steps: all_merged(self.steps.deep_view()),
            allow_direct: self.allow_direct,
            pattern: self.pattern@,
            variable_names: self.variable_names.deep_view(),
        }
    }
}

/// The plan of a pattern for captured classes.
pub open spec fn object_plan(
    segments: Seq<CompiledClassSegmentView>,
    captured: Seq<Option<Seq<char>>>,
    mode: MatchMode,
    prefix: Option<usize>,
    definitions: Map<Seq<char>, Seq<char>>,
) -> ObjectPlanView {
    let infos = comparator_infos(segments, captured, definitions);
    let steps = plan_steps(segments, captured);
    ObjectPlanView {
        steps,
        allow_direct: takes_single_tokens(steps),
        pattern: object_pattern(object_comparator(infos), mode, prefix),
        variable_names: field_names(infos),
    }
}

fn create_captured_step(segment: &TelSegment, captured: Option<String>) -> (r: ObjectPlanStep)
    ensures
        r@ == captured_step(segment@, captured.deep_view()),
{
    let flags = segment.token_info.flags;
    let whole = match &captured {
        Some(class) => text::all_chars_in(class.as_str(), CharClass::Dark),
        None => false,
    };
    if !flags.multi_group && whole {
        ObjectPlanStep::SingleToken {
            capture_name: text::clone_text(&segment.token_info.var_name),
            is_vanishing: segment.token_info.is_vanishing_group(),
            consume_trailing_space: true,
        }
    } else {
        ObjectPlanStep::CapturedSpan {
            class_text: captured,
            capture_name: text::clone_text(&segment.token_info.var_name),
            is_vanishing: segment.token_info.is_vanishing_group(),
        }
    }
}

/// The steps of segments, and whether an expression has to be run.
#[must_use]
pub fn create_object_plan_steps(
    segments: &[CompiledClassSegment],
    captured: &[Option<String>],
) -> (r: (Vec<ObjectPlanStep>, bool))
    ensures
        all_merged(r.0.deep_view()) == plan_steps(segments.deep_view(), captured_view(captured@)),
        r.1 == !takes_single_tokens(r.0.deep_view()),
        forall|i: int|
            0 <= i < r.0.len() && r.0.deep_view()[i] is Literal ==> tokenizer::are_tokens(
                (#[trigger] r.0.deep_view()[i])->tokens,
                text::concat(r.0.deep_view()[i]->tokens),
            ),
{
    let ghost all = segments.deep_view();
    let ghost given = captured_view(captured@);
    let mut steps: Vec<ObjectPlanStep> = Vec::new();
    let mut requires_regex_fallback = false;
    let mut used: usize = 0;
    let mut i: usize = 0;
    proof {
        assert(all.skip(0) == all);
        assert(given.skip(0) == given);
        assert(all_merged(steps.deep_view()) + plan_steps(all, given) == plan_steps(all, given));
    }
    while i < segments.len()
        invariant
            all == segments.deep_view(),
            given == captured_view(captured@),
            i <= segments.len(),
            used <= captured.len(),
            all_merged(steps.deep_view()) + plan_steps(all.skip(i as int), given.skip(used as int))
                == plan_steps(all, given),
            requires_regex_fallback == !takes_single_tokens(steps.deep_view()),
            forall|j: int|
                0 <= j < steps.len() && steps.deep_view()[j] is Literal ==> tokenizer::are_tokens(
                    (#[trigger] steps.deep_view()[j])->tokens,
                    text::concat(steps.deep_view()[j]->tokens),
                ),
        decreases segments.len() - i,
    {
        let segment = &segments[i].segment;
        let flags = segment.token_info.flags;
        let ghost before = steps.deep_view();
        let ghost rest = all.skip(i as int);
        let ghost open = given.skip(used as int);
        proof {
            assert(rest[0].segment == segment@);
            assert(rest.skip(1) == all.skip(i + 1));
            assert(open.len() > 0 ==> open[0] == captured@[used as int].deep_view() && open.skip(1)
                == given.skip(used + 1));
        }
        let step = if segment.token_info.kind == TokenKind::Literal {
            let tokens = tokenizer::split_input_tokens(segment.token_info.token.as_str());
            proof {
                tokenizer::law_tokens_make_text(tokens.deep_view(), segment.token_info.token@);
            }
            ObjectPlanStep::Literal { tokens }
        } else if flags.multi_group || flags.optional || !flags.strict_class {
            let class = if used < captured.len() {
                let class = text::clone_text(&captured[used]);
                used = used + 1;
                class
            } else {
                None
            };
            create_captured_step(segment, class)
        } else {
            ObjectPlanStep::SingleToken {
                capture_name: text::clone_text(&segment.token_info.var_name),
                is_vanishing: segment.token_info.is_vanishing_group(),
                consume_trailing_space: true,
            }
        };
        if !matches!(step, ObjectPlanStep::SingleToken { .. }) {
            requires_regex_fallback = true;
        }
        let ghost added = step@;
        steps.push(step);
        proof {
            let after = steps.deep_view();
            let more = plan_steps(all.skip(i + 1), given.skip(used as int));
            assert(after == before.push(added));
            assert(all_merged(after) =~= all_merged(before).push(merged(added)));
            assert(plan_steps(rest, open) == seq![merged(added)] + more);
            assert(all_merged(before).push(merged(added)) + more == all_merged(before) + (
            seq![merged(added)] + more));
            assert(after[before.len() as int] == added);
            if takes_single_tokens(before) && added is SingleToken {
                assert forall|j: int| 0 <= j < after.len() implies (#[trigger] after[j]) is SingleToken by {
                    if j < before.len() {
                        assert(after[j] == before[j]);
                    }
                }
            }
            if takes_single_tokens(after) {
                assert forall|j: int| 0 <= j < before.len() implies (#[trigger] before[j]) is SingleToken by {
                    assert(after[j] == before[j]);
                }
            }
            assert forall|j: int| 0 <= j < after.len() && after[j] is Literal implies tokenizer::are_tokens(
                (#[trigger] after[j])->tokens,
                text::concat(after[j]->tokens),
            ) by {
                if j < before.len() {
                    assert(after[j] == before[j]);
                }
            }
        }
        i = i + 1;
    }
    proof {
        let more = plan_steps(all.skip(i as int), given.skip(used as int));
        assert(more.len() == 0);
        assert(all_merged(steps.deep_view()) + more == all_merged(steps.deep_view()));
    }
    (steps, requires_regex_fallback)
}

/// The plan of a pattern for captured classes.
#[must_use]
pub fn build_object_plan(
    segments: &[CompiledClassSegment],
    captured: &[Option<String>],
    mode: MatchMode,
    any_prefix_len: Option<usize>,
    token_definitions: &StringHashMap<String>,
) -> (r: ObjectPlan)
    ensures
        r@ == object_plan(
            segments.deep_view(),
            captured_view(captured@),
            mode,
            any_prefix_len,
            object::texts(token_definitions@),
        ),
{
    let (steps, requires_regex_fallback) = create_object_plan_steps(segments, captured);
    let (comparator, infos) = create_obj_comparator_string(segments, captured, token_definitions);
    let pattern = build_object_pattern(comparator.as_str(), mode, any_prefix_len);
    let variable_names = variable_names(&infos);
    proof {
        lemma_merging_keeps_single(steps.deep_view());
    }
    ObjectPlan { steps, allow_direct: !requires_regex_fallback, pattern, variable_names }
}

/// Putting literals together changes no single-token step.
pub proof fn lemma_merging_keeps_single(steps: Seq<PlanStep>)
    ensures
        takes_single_tokens(all_merged(steps)) == takes_single_tokens(steps),
        takes_single_tokens(steps) ==> all_merged(steps) == steps,
{
    if takes_single_tokens(all_merged(steps)) {
        assert forall|i: int| 0 <= i < steps.len() implies (#[trigger] steps[i]) is SingleToken by {
            assert(all_merged(steps)[i] is SingleToken);
        }
    }
    if takes_single_tokens(steps) {
        assert(all_merged(steps) =~= steps);
    }
}

} // verus!
