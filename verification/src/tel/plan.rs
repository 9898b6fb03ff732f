//! From segments to regular expressions over the classes of a text.

use crate::error;
use crate::error::ParseError;
use crate::tel::{
    ClassConstraint, ClassConstraintView, CompiledClassPlan, CompiledClassPlanView,
    CompiledClassSegment, CompiledClassSegmentView, MatchMode, TelSegment, TelSegmentView,
    TokenInfo, TokenInfoView, TokenKind, TypeModifierSet,
};
use crate::text;
use crate::text::CharClass;
use vstd::prelude::*;

verus! {

/// A word of any class.
pub const DEFAULT_WORD_REGEX: &'static str = r"[\w\-']+";

/// One character of a word.
pub const WORD_CHAR_CLASS_REGEX: &'static str = r"[\w\-']";

/// An edge of a word.
pub const WORD_BOUNDARY_REGEX: &'static str = r"(?:(?=[\w\-'])(?<![\w\-'])|(?<=[\w\-'])(?![\w\-']))";

/// Whether a regular expression gives `c` a meaning of its own.
pub open spec fn is_meta(c: char) -> bool {
    c == '\\' || c == '.' || c == '+' || c == '*' || c == '?' || c == '(' || c == ')' || c == '['
        || c == ']' || c == '{' || c == '}' || c == '^' || c == '$' || c == '|'
}

/// `s` with a backslash before each character that a regular expression gives a meaning.
pub open spec fn escaped(s: Seq<char>) -> Seq<char>
    decreases s.len(),
{
    if s.len() == 0 {
        Seq::empty()
    } else if is_meta(s.last()) {
        escaped(s.drop_last()).push('\\').push(s.last())
    } else {
        escaped(s.drop_last()).push(s.last())
    }
}

/// How many opening brackets of `s` are neither escaped nor followed by `?`.
pub open spec fn group_count(s: Seq<char>) -> nat
    decreases s.len(),
{
    if s.len() == 0 {
        0
    } else if s[0] == '\\' {
        if s.len() == 1 {
            0
        } else {
            group_count(s.skip(2))
        }
    } else if s[0] == '(' && !(s.len() > 1 && s[1] == '?') {
        1 + group_count(s.skip(1))
    } else {
        group_count(s.skip(1))
    }
}

/// A class token with its name, and the modifiers that stand right after it, replaced.
pub open spec fn with_prefix_replaced(token: Seq<char>, pattern: Seq<char>) -> Seq<char> {
    let n = text::run_len(token, CharClass::ClassPrefix) as int;
    if n == 0 {
        token
    } else {
        pattern + token.skip(n)
    }
}

/// A pattern between the edges of a word.
pub open spec fn bounded(pattern: Seq<char>) -> Seq<char> {
    if pattern.len() == 0 {
        pattern
    } else {
        WORD_BOUNDARY_REGEX@ + pattern + WORD_BOUNDARY_REGEX@
    }
}

/// A pattern that covers the part of the text that the mode asks for.
pub open spec fn anchored(comparator: Seq<char>, mode: MatchMode) -> Seq<char> {
    match mode {
        MatchMode::Whole => "^"@ + comparator + "$"@,
        MatchMode::Start => "^"@ + comparator,
        MatchMode::End => comparator + "$"@,
        MatchMode::Any => comparator,
    }
}

/// The class that a class name stands for.
pub open spec fn named_class(class_type: Option<Seq<char>>) -> Seq<char> {
    if class_type is None || class_type->0 == "WORDX"@ {
        DEFAULT_WORD_REGEX@
    } else if class_type->0 == "WORD"@ {
        r"[\w]+"@
    } else {
        class_type->0
    }
}

/// The group that captures a class and the classes within it.
pub open spec fn class_group(class_type: Option<Seq<char>>) -> Option<Seq<char>> {
    match class_type {
        None => None,
        Some(c) => if c == "ALPHA_NUM_EXTENDED"@ {
            Some("((?:ALPHA_NUM_EXTENDED|ALPHA_NUM|ALPHA_EXTENDED|ALPHA|NUM_EXTENDED|NUM))"@)
        } else if c == "ALPHA_EXTENDED"@ {
            Some("((?:ALPHA_EXTENDED|ALPHA))"@)
        } else if c == "NUM_EXTENDED"@ {
            Some("((?:NUM_EXTENDED|NUM))"@)
        } else if c == "ALPHA_NUM"@ {
            Some("((?:ALPHA_NUM|ALPHA|NUM))"@)
        } else {
            Some("((?:"@ + c + "))"@)
        },
    }
}

/// The class that type modifiers name: itself alone where it is strict, else the group that
/// captures it and the classes within it.
pub open spec fn modifier_group(types: TypeModifierSet, modifier: Option<Seq<char>>) -> Option<
    Seq<char>,
> {
    if crate::tel::segment::marks(modifier, ',') {
        Some("((?:SEPARATOR))"@)
    } else if types.strict {
        match (types.alpha, types.numeric, types.extended) {
            (true, true, true) => Some("ALPHA_NUM_EXTENDED"@),
            (true, true, false) => Some("ALPHA_NUM"@),
            (true, false, true) => Some("ALPHA_EXTENDED"@),
            (true, false, false) => Some("ALPHA"@),
            (false, true, true) => Some("NUM_EXTENDED"@),
            (false, true, false) => Some("NUM"@),
            (false, false, true) => Some(WORD_CHAR_CLASS_REGEX@),
            (false, false, false) => None,
        }
    } else {
        match (types.alpha, types.numeric, types.extended) {
            (true, true, true) => Some(
                "((?:ALPHA_NUM_EXTENDED|ALPHA_NUM|ALPHA_EXTENDED|ALPHA|NUM_EXTENDED|NUM))"@,
            ),
            (true, true, false) => Some("((?:ALPHA_NUM|ALPHA|NUM))"@),
            (true, false, true) => Some("((?:ALPHA_EXTENDED|ALPHA))"@),
            (true, false, false) => Some("((?:ALPHA))"@),
            (false, true, true) => Some("((?:NUM_EXTENDED|NUM))"@),
            (false, true, false) => Some("((?:NUM))"@),
            (false, false, true) => Some(r"((?:[\w\-']+))"@),
            (false, false, false) => None,
        }
    }
}

/// The alternatives of a group `((?:A|B|..))` that are (or are not) among `items`; `()` where none
/// is left. What is no such group stays as it is.
pub open spec fn with_components(group: Seq<char>, items: Seq<Seq<char>>, keep: bool) -> Seq<char> {
    match text::between(group, "((?:"@, "))"@) {
        None => group,
        Some(inner) => {
            let kept = text::split_on(inner, '|').filter(
                |part: Seq<char>| items.contains(part) == keep,
            );
            if kept.len() == 0 {
                "()"@
            } else {
                "((?:"@ + text::join(kept, "|"@) + "))"@
            }
        },
    }
}

/// What an item of an excluding class list takes out of a group; an error is given by its text.
pub open spec fn excluded_names(item: Seq<char>, extended: bool) -> Result<
    Option<Seq<Seq<char>>>,
    Seq<char>,
> {
    if "!!!"@.is_prefix_of(item) {
        if extended && item == "!!!@"@ {
            Ok(Some(seq!["ALPHA"@]))
        } else if extended && item == "!!!#"@ {
            Ok(Some(seq!["NUM"@]))
        } else {
            Err("invalid modifier: "@ + item)
        }
    } else if "!!"@.is_prefix_of(item) {
        if extended && item == "!!@"@ {
            Ok(Some(seq!["ALPHA_EXTENDED"@]))
        } else if extended && item == "!!#"@ {
            Ok(Some(seq!["NUM_EXTENDED"@]))
        } else {
            Err("invalid modifier: "@ + item)
        }
    } else if "!"@.is_prefix_of(item) {
        let value = item.skip(1);
        if value == "@"@ {
            Ok(Some(seq!["ALPHA_EXTENDED"@, "ALPHA"@]))
        } else if value == "#"@ {
            Ok(Some(seq!["NUM_EXTENDED"@, "NUM"@]))
        } else {
            Ok(Some(seq![value]))
        }
    } else {
        Ok(None)
    }
}

/// A group without what the items of an excluding class list take out.
pub open spec fn excluding(group: Seq<char>, items: Seq<Seq<char>>, extended: bool) -> Result<
    Seq<char>,
    Seq<char>,
>
    decreases items.len(),
{
    if items.len() == 0 {
        Ok(group)
    } else {
        match excluding(group, items.drop_last(), extended) {
            Err(message) => Err(message),
            Ok(before) => match excluded_names(items.last(), extended) {
                Err(message) => Err(message),
                Ok(None) => Ok(before),
                Ok(Some(names)) => Ok(with_components(before, names, false)),
            },
        }
    }
}

/// The class that type modifiers name, narrowed by a class constraint.
pub open spec fn constrained(
    base: Option<Seq<char>>,
    constraint: Option<ClassConstraintView>,
    types: TypeModifierSet,
) -> Result<Option<Seq<char>>, Seq<char>> {
    if constraint is None || base is None {
        Ok(base)
    } else if types.strict || text::between(base->0, "((?:"@, "))"@) is None {
        Ok(base)
    } else {
        match constraint->0 {
            ClassConstraintView::Explicit(_) => Ok(base),
            ClassConstraintView::Included(items) => Ok(Some(with_components(base->0, items, true))),
            ClassConstraintView::Excluded(items) => match excluding(
                base->0,
                items,
                types.extended,
            ) {
                Ok(group) => Ok(Some(group)),
                Err(message) => Err(message),
            },
        }
    }
}

/// A group that takes one or more tokens of a class; its own brackets are dropped unless it is
/// strict.
pub open spec fn repeated(object: Seq<char>, strict: bool, greedy: bool) -> Seq<char> {
    let inner = if !strict && text::between(object, "("@, ")"@) is Some {
        text::between(object, "("@, ")"@)->0
    } else {
        object
    };
    if greedy {
        "((?:"@ + inner + r"|\s)+)"@
    } else {
        "((?:"@ + inner + r"|\s)+?)"@
    }
}

/// A pattern that may also match nothing.
pub open spec fn optional(pattern: Seq<char>) -> Seq<char> {
    if ")"@.is_suffix_of(pattern) {
        pattern + "?"@
    } else {
        "("@ + pattern + ")?"@
    }
}

/// The class that a segment asks for: where its own class is any word and its modifiers name a
/// class, the one that they name.
pub open spec fn segment_class(
    class_type: Option<Seq<char>>,
    modifier: Option<Seq<char>>,
    named: Option<Seq<char>>,
) -> Option<Seq<char>> {
    let any_word = class_type == Some(r"[\w]+"@) || class_type == Some(r"[\w\-']+"@);
    let typed = crate::tel::segment::marks(modifier, '@') || crate::tel::segment::marks(
        modifier,
        '#',
    ) || crate::tel::segment::marks(modifier, '%') || crate::tel::segment::marks(modifier, ',');
    if class_type is None || (named is Some && any_word && typed) {
        named
    } else {
        class_type
    }
}

/// The pattern of a segment whose own class is `class_type`, where it has a class at all.
pub open spec fn segment_pattern(
    segment: TelSegmentView,
    class_type: Option<Seq<char>>,
) -> Option<Seq<char>> {
    let modifier = segment.token_info.modifier;
    let flags = segment.token_info.flags;
    let types = segment.type_modifiers;
    let plain = !types.alpha && !types.numeric && !types.extended
        && !crate::tel::segment::marks(modifier, ',') && !types.strict && !types.greedy
        && !flags.multi_group && !flags.optional;
    if plain || modifier is None {
        class_group(class_type)
    } else {
        match constrained(modifier_group(types, modifier), segment.class_constraint, types) {
            Err(_) => None,
            Ok(named) => match segment_class(class_type, modifier, named) {
                None => None,
                Some(class) => {
                    let once = if flags.multi_group {
                        repeated(class, types.strict, types.greedy)
                    } else {
                        class
                    };
                    if flags.optional {
                        Some(optional(once))
                    } else {
                        Some(once)
                    }
                },
            },
        }
    }
}

/// What a segment asks of the class of a token, with word edges.
pub open spec fn class_fragment(segment: TelSegmentView) -> Seq<char> {
    match segment_pattern(segment, Some(named_class(segment.token_info.class_type))) {
        Some(pattern) => bounded(pattern),
        None => Seq::empty(),
    }
}

/// A segment with the part of the comparator that it makes.
pub open spec fn compiled_segment(segment: TelSegmentView) -> CompiledClassSegmentView {
    let token_info = segment.token_info;
    let (class_type, substring) = if token_info.kind == TokenKind::Literal {
        (Seq::empty(), escaped(token_info.token))
    } else if token_info.kind == TokenKind::Class {
        (
            class_fragment(segment),
            with_prefix_replaced(token_info.token, class_fragment(segment)),
        )
    } else {
        (class_fragment(segment), class_fragment(segment))
    };
    CompiledClassSegmentView {
        segment: TelSegmentView {
            token_info: TokenInfoView { class_type: Some(class_type), ..token_info },
            ..segment
        },
        class_comparator_substring: substring,
        capturing_group_count: group_count(substring),
    }
}

/// The parts of the comparator, one for each segment.
pub open spec fn substrings(segments: Seq<CompiledClassSegmentView>) -> Seq<Seq<char>> {
    Seq::new(segments.len(), |i: int| segments[i].class_comparator_substring)
}

/// The class plan of a pattern.
pub open spec fn class_plan(segments: Seq<TelSegmentView>) -> CompiledClassPlanView {
    let compiled = Seq::new(segments.len(), |i: int| compiled_segment(segments[i]));
    let comparator = text::join(substrings(compiled), r"\s*"@);
    CompiledClassPlanView { comparator, segments: compiled }
}

/// A pattern that covers the part of the text that the mode asks for.
pub fn apply_match_mode(class_comparator_string: &str, mode: MatchMode) -> (r: String)
    ensures
        r@ == anchored(class_comparator_string@, mode),
{
    match mode {
        MatchMode::Whole => text::glue3("^", class_comparator_string, "$"),
        MatchMode::Start => text::glue("^", class_comparator_string),
        MatchMode::End => text::glue(class_comparator_string, "$"),
        MatchMode::Any => class_comparator_string.to_string(),
    }
}

/// A class token with its name, and the modifiers that stand right after it, replaced.
pub fn replace_literal_token_prefix(token: &str, pattern: &str) -> (r: String)
    ensures
        r@ == with_prefix_replaced(token@, pattern@),
{
    let chars = text::chars_of(token);
    let n = text::run_end(&chars, 0, CharClass::ClassPrefix);
    proof {
        assert(chars@.skip(0) == token@);
    }
    if n == 0 {
        token.to_string()
    } else {
        text::glue(pattern, token.substring_char(n, chars.len()))
    }
}

fn replace_token_pattern(token_info: &TokenInfo, pattern: &str) -> (r: String)
    ensures
        r@ == if token_info.kind == TokenKind::Capturing || token_info.kind
            == TokenKind::Vanishing {
            pattern@
        } else {
            with_prefix_replaced(token_info.token@, pattern@)
        },
{
    if token_info.is_capturing_group() || token_info.is_vanishing_group() {
        pattern.to_string()
    } else {
        replace_literal_token_prefix(token_info.token.as_str(), pattern)
    }
}

/// A text with a backslash before each character that a regular expression gives a meaning.
pub fn escape_regex_literal(text: &str) -> (r: String)
    ensures
        r@ == escaped(text@),
{
    let chars = text::chars_of(text);
    let mut r = String::new();
    let mut i: usize = 0;
    while i < chars.len()
        invariant
            i <= chars.len(),
            r@ == escaped(chars@.take(i as int)),
        decreases chars.len() - i,
    {
        let c = chars[i];
        proof {
            assert(chars@.take(i + 1).drop_last() == chars@.take(i as int));
        }
        if c == '\\' || c == '.' || c == '+' || c == '*' || c == '?' || c == '(' || c == ')' || c
            == '[' || c == ']' || c == '{' || c == '}' || c == '^' || c == '$' || c == '|' {
            r.push('\\');
        }
        r.push(c);
        i = i + 1;
    }
    assert(chars@.take(i as int) == text@);
    r
}

fn wrap_with_word_boundaries(pattern: &str) -> (r: String)
    ensures
        r@ == bounded(pattern@),
{
    if pattern.is_empty() {
        String::new()
    } else {
        text::glue3(WORD_BOUNDARY_REGEX, pattern, WORD_BOUNDARY_REGEX)
    }
}

/// How many opening brackets of a pattern are neither escaped nor followed by `?`.
pub fn count_capturing_groups(pattern: &str) -> (r: usize)
    ensures
        r == group_count(pattern@),
        r <= pattern@.len(),
{
    let chars = text::chars_of(pattern);
    let mut index: usize = 0;
    let mut count: usize = 0;
    assert(chars@.skip(0) == pattern@);
    while index < chars.len()
        invariant
            index <= chars.len(),
            count <= index,
            count + group_count(chars@.skip(index as int)) == group_count(pattern@),
        decreases chars.len() - index,
    {
        let ghost rest = chars@.skip(index as int);
        proof {
            assert(rest.skip(1) == chars@.skip(index + 1));
            assert(rest.len() > 1 ==> rest.skip(2) == chars@.skip(index + 2));
        }
        if chars[index] == '\\' {
            if chars.len() - index == 1 {
                index = index + 1;
            } else {
                index = index + 2;
            }
        } else {
            if chars[index] == '(' && !(chars.len() - index > 1 && chars[index + 1] == '?') {
                count = count + 1;
            }
            index = index + 1;
        }
    }
    count
}

fn update_class_type(class_type: Option<&str>) -> (r: String)
    ensures
        r@ == named_class(class_type.deep_view()),
{
    match class_type {
        None => DEFAULT_WORD_REGEX.to_string(),
        Some(value) => if text::same_text(value, "WORDX") {
            DEFAULT_WORD_REGEX.to_string()
        } else if text::same_text(value, "WORD") {
            r"[\w]+".to_string()
        } else {
            value.to_string()
        },
    }
}

fn resolve_default_class_type(class_type: Option<&str>) -> (r: Option<String>)
    ensures
        r.deep_view() == class_group(class_type.deep_view()),
{
    match class_type {
        None => None,
        Some(value) => {
            let group = if text::same_text(value, "ALPHA_NUM_EXTENDED") {
                "((?:ALPHA_NUM_EXTENDED|ALPHA_NUM|ALPHA_EXTENDED|ALPHA|NUM_EXTENDED|NUM))".to_string()
            } else if text::same_text(value, "ALPHA_EXTENDED") {
                "((?:ALPHA_EXTENDED|ALPHA))".to_string()
            } else if text::same_text(value, "NUM_EXTENDED") {
                "((?:NUM_EXTENDED|NUM))".to_string()
            } else if text::same_text(value, "ALPHA_NUM") {
                "((?:ALPHA_NUM|ALPHA|NUM))".to_string()
            } else {
                text::glue3("((?:", value, "))")
            };
            Some(group)
        },
    }
}

fn resolve_type_modifier_class(type_modifiers: TypeModifierSet, modifier: Option<&str>) -> (r:
    Option<String>)
    ensures
        r.deep_view() == modifier_group(type_modifiers, modifier.deep_view()),
{
    if crate::tel::segment::modifier_has(modifier, ',') {
        return Some("((?:SEPARATOR))".to_string());
    }
    let alpha = type_modifiers.alpha;
    let numeric = type_modifiers.numeric;
    let extended = type_modifiers.extended;
    let named = if type_modifiers.strict {
        match (alpha, numeric, extended) {
            (true, true, true) => "ALPHA_NUM_EXTENDED",
            (true, true, false) => "ALPHA_NUM",
            (true, false, true) => "ALPHA_EXTENDED",
            (true, false, false) => "ALPHA",
            (false, true, true) => "NUM_EXTENDED",
            (false, true, false) => "NUM",
            (false, false, true) => WORD_CHAR_CLASS_REGEX,
            (false, false, false) => {
                return None;
            },
        }
    } else {
        match (alpha, numeric, extended) {
            (true, true, true) => "((?:ALPHA_NUM_EXTENDED|ALPHA_NUM|ALPHA_EXTENDED|ALPHA|NUM_EXTENDED|NUM))",
            (true, true, false) => "((?:ALPHA_NUM|ALPHA|NUM))",
            (true, false, true) => "((?:ALPHA_EXTENDED|ALPHA))",
            (true, false, false) => "((?:ALPHA))",
            (false, true, true) => "((?:NUM_EXTENDED|NUM))",
            (false, true, false) => "((?:NUM))",
            (false, false, true) => r"((?:[\w\-']+))",
            (false, false, false) => {
                return None;
            },
        }
    };
    Some(named.to_string())
}

fn contains_text(items: &[&str], part: &str) -> (r: bool)
    ensures
        r == items.deep_view().contains(part@),
{
    let mut i: usize = 0;
    while i < items.len()
        invariant
            i <= items.len(),
            forall|j: int| 0 <= j < i ==> items@[j]@ != part@,
        decreases items.len() - i,
    {
        if text::same_text(items[i], part) {
            assert(items.deep_view()[i as int] == part@);
            return true;
        }
        i = i + 1;
    }
    proof {
        assert forall|j: int| 0 <= j < items.deep_view().len() implies items.deep_view()[j]
            != part@ by {
            assert(items.deep_view()[j] == items@[j]@);
        }
    }
    false
}

fn select_components(group: &str, items: &[&str], keep: bool) -> (r: String)
    ensures
        r@ == with_components(group@, items.deep_view(), keep),
{
    let inner = match text::strip_both(group, "((?:", "))") {
        Some(inner) => inner,
        None => {
            return group.to_string();
        },
    };
    let parts = text::split_text(inner, '|');
    let ghost all = parts.deep_view();
    let ghost pred = |part: Seq<char>| items.deep_view().contains(part) == keep;
    let mut kept: Vec<String> = Vec::new();
    let mut i: usize = 0;
    proof {
        reveal(Seq::filter);
    }
    while i < parts.len()
        invariant
            all == parts.deep_view(),
            pred == (|part: Seq<char>| items.deep_view().contains(part) == keep),
            i <= parts.len(),
            kept.deep_view() == all.take(i as int).filter(pred),
        decreases parts.len() - i,
    {
        let ghost before = kept.deep_view();
        proof {
            reveal(Seq::filter);
            let next = all.take(i + 1);
            assert(next.drop_last() == all.take(i as int));
            assert(next.last() == parts@[i as int]@);
        }
        if contains_text(items, parts[i].as_str()) == keep {
            kept.push(parts[i].clone());
            assert(kept.deep_view() == before.push(parts@[i as int]@));
        }
        i = i + 1;
    }
    assert(all.take(i as int) == all);
    assert(kept.deep_view().len() == kept.len());
    if kept.len() == 0 {
        "()".to_string()
    } else {
        let joined = text::join_texts(&kept, "|");
        text::glue3("((?:", joined.as_str(), "))")
    }
}

fn filter_components(modifier_class_type: &str, components_to_remove: &[&str]) -> (r: String)
    ensures
        r@ == with_components(modifier_class_type@, components_to_remove.deep_view(), false),
{
    select_components(modifier_class_type, components_to_remove, false)
}

fn retain_components(modifier_class_type: &str, components_to_keep: &[&str]) -> (r: String)
    ensures
        r@ == with_components(modifier_class_type@, components_to_keep.deep_view(), true),
{
    select_components(modifier_class_type, components_to_keep, true)
}

fn invalid_modifier(item: &str) -> (r: ParseError)
    ensures
        error::is_invalid_pattern(r, "invalid modifier: "@ + item@),
{
    ParseError::InvalidPattern(text::glue("invalid modifier: ", item))
}

/// A group without what one item of an excluding class list takes out.
fn exclude_item(base_pattern: String, item: &str, extended: bool) -> (r: Result<String, ParseError>)
    ensures
        match (r, excluded_names(item@, extended)) {
            (Ok(x), Ok(Some(names))) => x@ == with_components(base_pattern@, names, false),
            (Ok(x), Ok(None)) => x@ == base_pattern@,
            (Err(e), Err(m)) => error::is_invalid_pattern(e, m),
            _ => false,
        },
{
    if text::has_prefix(item, "!!!") {
        if extended && text::same_text(item, "!!!@") {
            let names = ["ALPHA"];
            assert(names.deep_view() == seq!["ALPHA"@]);
            Ok(filter_components(base_pattern.as_str(), &names))
        } else if extended && text::same_text(item, "!!!#") {
            let names = ["NUM"];
            assert(names.deep_view() == seq!["NUM"@]);
            Ok(filter_components(base_pattern.as_str(), &names))
        } else {
            Err(invalid_modifier(item))
        }
    } else if text::has_prefix(item, "!!") {
        if extended && text::same_text(item, "!!@") {
            let names = ["ALPHA_EXTENDED"];
            assert(names.deep_view() == seq!["ALPHA_EXTENDED"@]);
            Ok(filter_components(base_pattern.as_str(), &names))
        } else if extended && text::same_text(item, "!!#") {
            let names = ["NUM_EXTENDED"];
            assert(names.deep_view() == seq!["NUM_EXTENDED"@]);
            Ok(filter_components(base_pattern.as_str(), &names))
        } else {
            Err(invalid_modifier(item))
        }
    } else if let Some(value) = text::strip_prefix(item, "!") {
        proof {
            reveal_strlit("!");
        }
        if text::same_text(value, "@") {
            let names = ["ALPHA_EXTENDED", "ALPHA"];
            assert(names.deep_view() == seq!["ALPHA_EXTENDED"@, "ALPHA"@]);
            Ok(filter_components(base_pattern.as_str(), &names))
        } else if text::same_text(value, "#") {
            let names = ["NUM_EXTENDED", "NUM"];
            assert(names.deep_view() == seq!["NUM_EXTENDED"@, "NUM"@]);
            Ok(filter_components(base_pattern.as_str(), &names))
        } else {
            let names = [value];
            assert(names.deep_view() == seq![value@]);
            Ok(filter_components(base_pattern.as_str(), &names))
        }
    } else {
        Ok(base_pattern)
    }
}

fn exclude_items(base_pattern: String, items: &Vec<String>, extended: bool) -> (r: Result<
    String,
    ParseError,
>)
    ensures
        match (r, excluding(base_pattern@, items.deep_view(), extended)) {
            (Ok(x), Ok(v)) => x@ == v,
            (Err(e), Err(m)) => error::is_invalid_pattern(e, m),
            _ => false,
        },
{
    let ghost start = base_pattern@;
    let ghost all = items.deep_view();
    let mut group = base_pattern;
    let mut i: usize = 0;
    while i < items.len()
        invariant
            start == base_pattern@,
            all == items.deep_view(),
            i <= items.len(),
            excluding(start, all.take(i as int), extended) == Ok::<Seq<char>, Seq<char>>(group@),
        decreases items.len() - i,
    {
        proof {
            let next = all.take(i + 1);
            assert(next.drop_last() == all.take(i as int));
            assert(next.last() == items@[i as int]@);
        }
        match exclude_item(group, items[i].as_str(), extended) {
            Ok(next) => {
                group = next;
            },
            Err(error) => {
                proof {
                    lemma_excluding_fails(start, all, extended, i + 1);
                }
                return Err(error);
            },
        }
        i = i + 1;
    }
    assert(all.take(i as int) == all);
    Ok(group)
}

/// Where some of the first items are invalid, the list is, for the same reason.
proof fn lemma_excluding_fails(start: Seq<char>, items: Seq<Seq<char>>, extended: bool, n: int)
    requires
        0 <= n <= items.len(),
        excluding(start, items.take(n), extended) is Err,
    ensures
        excluding(start, items, extended) == excluding(start, items.take(n), extended),
    decreases items.len() - n,
{
    if n == items.len() {
        assert(items.take(n) == items);
    } else {
        assert(items.take(n + 1).drop_last() == items.take(n));
        lemma_excluding_fails(start, items, extended, n + 1);
    }
}

fn apply_class_constraint(
    base_pattern: Option<String>,
    constraint: &Option<ClassConstraint>,
    type_modifiers: TypeModifierSet,
) -> (r: Result<Option<String>, ParseError>)
    ensures
        match (
            r,
            constrained(
                base_pattern.deep_view(),
                crate::tel::constraint_view(*constraint),
                type_modifiers,
            ),
        ) {
            (Ok(x), Ok(v)) => x.deep_view() == v,
            (Err(e), Err(m)) => error::is_invalid_pattern(e, m),
            _ => false,
        },
{
    let constraint = match constraint {
        Some(constraint) => constraint,
        None => {
            return Ok(base_pattern);
        },
    };
    let base_pattern = match base_pattern {
        Some(base_pattern) => base_pattern,
        None => {
            return Ok(None);
        },
    };
    if type_modifiers.strict || text::strip_both(base_pattern.as_str(), "((?:", "))").is_none() {
        return Ok(Some(base_pattern));
    }
    match constraint {
        ClassConstraint::Explicit(_) => Ok(Some(base_pattern)),
        ClassConstraint::Included(items) => {
            let included = text::texts_of(items.as_slice());
            Ok(Some(retain_components(base_pattern.as_str(), included.as_slice())))
        },
        ClassConstraint::Excluded(items) => match exclude_items(
            base_pattern,
            items,
            type_modifiers.extended,
        ) {
            Ok(group) => Ok(Some(group)),
            Err(error) => Err(error),
        },
    }
}

fn apply_multigroup_class(object: &str, is_strict_class: bool, is_greedy_matching: bool) -> (r:
    String)
    ensures
        r@ == repeated(object@, is_strict_class, is_greedy_matching),
{
    let stripped = text::strip_both(object, "(", ")");
    let inner = match stripped {
        Some(inner) if !is_strict_class => inner,
        _ => object,
    };
    if is_greedy_matching {
        text::glue3("((?:", inner, r"|\s)+)")
    } else {
        text::glue3("((?:", inner, r"|\s)+?)")
    }
}

fn apply_suffix_modifiers(base_pattern: &str, segment: &TelSegment) -> (r: String)
    ensures
        r@ == ({
            let once = if segment.token_info.flags.multi_group {
                repeated(
                    base_pattern@,
                    segment.type_modifiers.strict,
                    segment.type_modifiers.greedy,
                )
            } else {
                base_pattern@
            };
            if segment.token_info.flags.optional {
                optional(once)
            } else {
                once
            }
        }),
{
    let once = if segment.token_info.flags.multi_group {
        apply_multigroup_class(
            base_pattern,
            segment.type_modifiers.strict,
            segment.type_modifiers.greedy,
        )
    } else {
        base_pattern.to_string()
    };
    if segment.token_info.flags.optional {
        if text::has_suffix(once.as_str(), ")") {
            text::glue(once.as_str(), "?")
        } else {
            text::glue3("(", once.as_str(), ")?")
        }
    } else {
        once
    }
}

/// The pattern of a segment whose own class is `class_type`, where it has a class at all.
pub fn apply_segment_to_class_type(segment: &TelSegment, class_type: Option<&str>) -> (r: Option<
    String,
>)
    ensures
        r.deep_view() == segment_pattern(segment@, class_type.deep_view()),
{
    let modifier = text::borrowed(&segment.token_info.modifier);
    let flags = segment.token_info.flags;
    let has_type_signal = segment.type_modifiers.alpha || segment.type_modifiers.numeric
        || segment.type_modifiers.extended || crate::tel::segment::modifier_has(modifier, ',');
    if !has_type_signal && !segment.type_modifiers.strict && !segment.type_modifiers.greedy
        && !flags.multi_group && !flags.optional {
        return resolve_default_class_type(class_type);
    }
    if modifier.is_none() {
        return resolve_default_class_type(class_type);
    }
    let named = resolve_type_modifier_class(segment.type_modifiers, modifier);
    let named = match apply_class_constraint(
        named,
        &segment.class_constraint,
        segment.type_modifiers,
    ) {
        Ok(named) => named,
        Err(_) => {
            return None;
        },
    };
    let any_word = match class_type {
        Some(value) => text::same_text(value, r"[\w]+") || text::same_text(value, r"[\w\-']+"),
        None => true,
    };
    let typed = crate::tel::segment::modifier_has(modifier, '@')
        || crate::tel::segment::modifier_has(modifier, '#') || crate::tel::segment::modifier_has(
        modifier,
        '%',
    ) || crate::tel::segment::modifier_has(modifier, ',');
    let class = match class_type {
        Some(value) if !(named.is_some() && any_word && typed) => Some(value),
        _ => text::borrowed(&named),
    };
    match class {
        Some(class) => Some(apply_suffix_modifiers(class, segment)),
        None => None,
    }
}

fn compile_segment(segment: &TelSegment) -> (r: CompiledClassSegment)
    ensures
        r@ == compiled_segment(segment@),
{
    let token_info = &segment.token_info;
    let (class_fragment, substring) = if token_info.kind == TokenKind::Literal {
        (String::new(), escape_regex_literal(token_info.token.as_str()))
    } else {
        let class_type = update_class_type(text::borrowed(&token_info.class_type));
        let class_fragment = match apply_segment_to_class_type(segment, Some(class_type.as_str())) {
            Some(pattern) => pattern,
            None => String::new(),
        };
        let wrapped_fragment = wrap_with_word_boundaries(class_fragment.as_str());
        let substring = replace_token_pattern(token_info, wrapped_fragment.as_str());
        (wrapped_fragment, substring)
    };
    let mut augmented_segment = segment.clone();
    augmented_segment.token_info.class_type = Some(class_fragment);
    CompiledClassSegment {
        capturing_group_count: count_capturing_groups(substring.as_str()),
        segment: augmented_segment,
        class_comparator_substring: substring,
    }
}

/// The class plan of a pattern.
pub fn create_class_plan(segments: &Vec<TelSegment>) -> (r: CompiledClassPlan)
    ensures
        r@ == class_plan(segments.deep_view()),
{
    let mut fragments: Vec<String> = Vec::new();
    let mut compiled: Vec<CompiledClassSegment> = Vec::new();
    let mut i: usize = 0;
    while i < segments.len()
        invariant
            i <= segments.len(),
            fragments.len() == i,
            compiled.len() == i,
            forall|j: int|
                0 <= j < i ==> (#[trigger] compiled@[j])@ == compiled_segment(segments@[j]@),
            forall|j: int|
                0 <= j < i ==> (#[trigger] fragments@[j])@
                    == compiled@[j].class_comparator_substring@,
        decreases segments.len() - i,
    {
        let segment = compile_segment(&segments[i]);
        fragments.push(segment.class_comparator_substring.clone());
        compiled.push(segment);
        i = i + 1;
    }
    let comparator = text::join_texts(&fragments, r"\s*");
    let ghost spec = Seq::new(
        segments.deep_view().len(),
        |k: int| compiled_segment(segments.deep_view()[k]),
    );
    assert(compiled.deep_view() =~= spec);
    assert(fragments.deep_view() =~= substrings(spec));
    CompiledClassPlan::new(comparator, compiled)
}

/// The first character of a text is escaped first.
pub proof fn lemma_escaped_front(s: Seq<char>)
    requires
        s.len() > 0,
    ensures
        escaped(s) == if is_meta(s[0]) {
            seq!['\\', s[0]] + escaped(s.skip(1))
        } else {
            seq![s[0]] + escaped(s.skip(1))
        },
    decreases s.len(),
{
    if s.len() == 1 {
        assert(s.drop_last() == Seq::<char>::empty());
        assert(s.skip(1) == Seq::<char>::empty());
        assert(escaped(s.drop_last()) == Seq::<char>::empty());
    } else {
        lemma_escaped_front(s.drop_last());
        assert(s.drop_last().skip(1) == s.skip(1).drop_last());
    }
}

/// An escaped text captures nothing.
pub proof fn law_escaped_text_captures_nothing(s: Seq<char>)
    ensures
        group_count(escaped(s)) == 0,
    decreases s.len(),
{
    if s.len() > 0 {
        let rest = escaped(s.skip(1));
        lemma_escaped_front(s);
        law_escaped_text_captures_nothing(s.skip(1));
        if is_meta(s[0]) {
            assert((seq!['\\', s[0]] + rest).skip(2) == rest);
        } else {
            assert((seq![s[0]] + rest).skip(1) == rest);
        }
    }
}

/// A vanishing group asks for its class just as a capture that names the class and has no modifier.
pub proof fn law_vanishing_group_requires_its_class(vanishing: TelSegmentView, capture: TelSegmentView)
    requires
        vanishing.token_info.kind == TokenKind::Vanishing,
        capture.token_info.kind == TokenKind::Capturing,
        vanishing.token_info.class_type == capture.token_info.class_type,
        vanishing.token_info.modifier is None,
        capture.token_info.modifier is None,
    ensures
        compiled_segment(vanishing).class_comparator_substring == compiled_segment(
            capture,
        ).class_comparator_substring,
        compiled_segment(vanishing).class_comparator_substring == bounded(
            class_group(Some(named_class(vanishing.token_info.class_type)))->0,
        ),
{
}

/// Whether a pattern ends neither inside an escape nor with an opening bracket, so that what follows
/// it does not change what it captures.
pub open spec fn is_closed(s: Seq<char>) -> bool
    decreases s.len(),
{
    if s.len() == 0 {
        true
    } else if s[0] == '\\' {
        s.len() > 1 && is_closed(s.skip(2))
    } else {
        !(s[0] == '(' && s.len() == 1) && is_closed(s.skip(1))
    }
}

/// A closed pattern and what follows it capture what they capture alone.
pub proof fn law_closed_patterns_add_up(a: Seq<char>, b: Seq<char>)
    requires
        is_closed(a),
    ensures
        group_count(a + b) == group_count(a) + group_count(b),
    decreases a.len(),
{
    let s = a + b;
    if a.len() == 0 {
        assert(s == b);
    } else if a[0] == '\\' {
        law_closed_patterns_add_up(a.skip(2), b);
        assert(s.skip(2) == a.skip(2) + b);
        assert(s[0] == a[0]);
    } else {
        law_closed_patterns_add_up(a.skip(1), b);
        assert(s.skip(1) == a.skip(1) + b);
        assert(s[0] == a[0]);
        assert(a.len() > 1 ==> s[1] == a[1]);
    }
}

/// How many groups segments capture in all.
pub open spec fn total_groups(segments: Seq<CompiledClassSegmentView>) -> nat
    decreases segments.len(),
{
    if segments.len() == 0 {
        0
    } else {
        total_groups(segments.drop_last()) + segments.last().capturing_group_count
    }
}

proof fn lemma_closed_joins(a: Seq<char>, b: Seq<char>)
    requires
        is_closed(a),
        is_closed(b),
    ensures
        is_closed(a + b),
    decreases a.len(),
{
    let s = a + b;
    if a.len() == 0 {
        assert(s == b);
    } else if a[0] == '\\' {
        lemma_closed_joins(a.skip(2), b);
        assert(s.skip(2) == a.skip(2) + b);
    } else {
        lemma_closed_joins(a.skip(1), b);
        assert(s.skip(1) == a.skip(1) + b);
    }
}

proof fn lemma_joined_groups(segments: Seq<CompiledClassSegmentView>)
    requires
        forall|i: int|
            0 <= i < segments.len() ==> is_closed(
                (#[trigger] segments[i]).class_comparator_substring,
            ) && segments[i].capturing_group_count == group_count(
                segments[i].class_comparator_substring,
            ),
    ensures
        is_closed(text::join(substrings(segments), r"\s*"@)),
        group_count(text::join(substrings(segments), r"\s*"@)) == total_groups(segments),
    decreases segments.len(),
{
    let parts = substrings(segments);
    let sep = r"\s*"@;
    reveal_strlit(r"\s*");
    assert(is_closed(sep) && group_count(sep) == 0) by {
        assert(sep.skip(2).skip(1) == Seq::<char>::empty());
        assert(sep.skip(2)[0] == '*');
        assert(is_closed(sep.skip(2).skip(1)));
        assert(is_closed(sep.skip(2)));
        assert(group_count(sep.skip(2).skip(1)) == 0);
        assert(group_count(sep.skip(2)) == 0);
    }
    if segments.len() == 1 {
        assert(parts[0] == segments[0].class_comparator_substring);
        assert(total_groups(segments.drop_last()) == 0);
    } else if segments.len() > 1 {
        let before = segments.drop_last();
        assert forall|i: int| 0 <= i < before.len() implies is_closed(
            (#[trigger] before[i]).class_comparator_substring,
        ) && before[i].capturing_group_count == group_count(
            before[i].class_comparator_substring,
        ) by {
            assert(before[i] == segments[i]);
        }
        lemma_joined_groups(before);
        assert(parts.drop_last() =~= substrings(before));
        let head = text::join(substrings(before), sep);
        let last = segments[segments.len() - 1].class_comparator_substring;
        assert(parts.last() == last);
        law_closed_patterns_add_up(head, sep);
        lemma_closed_joins(head, sep);
        law_closed_patterns_add_up(head + sep, last);
        lemma_closed_joins(head + sep, last);
    }
}

/// The comparator of a pattern captures as many groups as its segments say, as long as each of them
/// makes a closed part of it.
pub proof fn law_segments_share_out_the_groups(segments: Seq<TelSegmentView>)
    requires
        forall|i: int|
            0 <= i < segments.len() ==> is_closed(
                compiled_segment(#[trigger] segments[i]).class_comparator_substring,
            ),
    ensures
        group_count(class_plan(segments).comparator) == total_groups(class_plan(segments).segments),
{
    let compiled = class_plan(segments).segments;
    assert forall|i: int| 0 <= i < compiled.len() implies is_closed(
        (#[trigger] compiled[i]).class_comparator_substring,
    ) && compiled[i].capturing_group_count == group_count(
        compiled[i].class_comparator_substring,
    ) by {
        assert(compiled[i] == compiled_segment(segments[i]));
    }
    lemma_joined_groups(compiled);
}

} // verus!
