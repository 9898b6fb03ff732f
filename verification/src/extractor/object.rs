//! From segments and captured classes to a regular expression over the object text.

use crate::offsets;
use crate::tel::plan;
use crate::tel::segment;
use crate::tel::{Quantity, TelSegment, TelSegmentView, TokenKind};
use crate::text;
use vstd::hash_map::StringHashMap;
use vstd::prelude::*;

verus! {

/// The texts of a map.
pub open spec fn texts(m: Map<Seq<char>, String>) -> Map<Seq<char>, Seq<char>> {
    m.map_values(|value: String| value@)
}

/// What follows the name of a named group whose name begins `s`.
pub open spec fn after_name(s: Seq<char>) -> Seq<char>
    decreases s.len(),
{
    if s.len() == 0 {
        s
    } else if s[0] == '>' {
        s.skip(1)
    } else {
        after_name(s.skip(1))
    }
}

/// What follows a name is part of what it begins.
pub proof fn lemma_after_name(s: Seq<char>)
    ensures
        after_name(s).len() <= s.len(),
    decreases s.len(),
{
    if s.len() > 0 && s[0] != '>' {
        lemma_after_name(s.skip(1));
    }
}

/// A pattern whose plain groups and `(?P<name>` groups capture nothing.
pub open spec fn non_capturing(s: Seq<char>) -> Seq<char>
    decreases s.len(),
{
    if s.len() == 0 {
        s
    } else if s[0] == '\\' {
        if s.len() == 1 {
            s
        } else {
            s.take(2) + non_capturing(s.skip(2))
        }
    } else if s[0] == '(' {
        if s.len() > 1 && s[1] == '?' {
            if s.len() > 3 && s[2] == 'P' && s[3] == '<' {
                proof {
                    lemma_after_name(s.skip(4));
                }
                "(?:"@ + non_capturing(after_name(s.skip(4)))
            } else {
                seq!['('] + non_capturing(s.skip(1))
            }
        } else {
            "(?:"@ + non_capturing(s.skip(1))
        }
    } else {
        s.take(1) + non_capturing(s.skip(1))
    }
}

/// A pattern as a group, or without groups, as the kind of its token asks.
pub open spec fn grouped(base: Seq<char>, capturing: bool, optional: bool, vanishing: bool) -> Seq<
    char,
> {
    if capturing && !vanishing {
        let group = "("@ + base + ")"@;
        if optional {
            group + "?"@
        } else {
            group
        }
    } else if optional {
        "("@ + non_capturing(base) + ")?"@
    } else {
        non_capturing(base)
    }
}

/// What type modifiers alone ask of a token.
pub open spec fn modifier_regex(segment: TelSegmentView) -> Option<Seq<char>> {
    let comma = segment::marks(segment.token_info.modifier, ',');
    match (segment.type_modifiers.alpha, segment.type_modifiers.numeric, comma) {
        (false, false, false) => Some(plan::DEFAULT_WORD_REGEX@),
        (true, false, false) => Some("[a-zA-Z]+"@),
        (false, true, false) => Some(r"[\d]+"@),
        (false, false, true) => Some(r"[,\-:;]+"@),
        _ => None,
    }
}

/// What the modifiers of a segment ask of a token when no definition tells it.
pub open spec fn fallback_regex(segment: TelSegmentView) -> Option<Seq<char>> {
    let modifier = segment.token_info.modifier;
    let named = if segment::marks(modifier, '%') || segment::marks(modifier, '=')
        || segment::marks(modifier, '$') || segment::marks(modifier, '[') {
        plan::segment_pattern(segment, None)
    } else {
        None
    };
    if named is Some {
        named
    } else {
        modifier_regex(segment)
    }
}

/// `s` without one `^` at its start and one `$` at its end.
pub open spec fn unanchored(s: Seq<char>) -> Seq<char> {
    let front = match text::without_prefix(s, "^"@) {
        Some(rest) => rest,
        None => s,
    };
    match text::without_suffix(front, "$"@) {
        Some(rest) => rest,
        None => front,
    }
}

/// A class name without the word edges around it.
pub open spec fn unbounded(s: Seq<char>) -> Seq<char> {
    match text::between(s, plan::WORD_BOUNDARY_REGEX@, plan::WORD_BOUNDARY_REGEX@) {
        Some(inner) => inner,
        None => s,
    }
}

/// The class names in a class: the alternatives of a group, or the class itself.
pub open spec fn class_names(class: Seq<char>) -> Seq<Seq<char>> {
    if "("@.is_prefix_of(class) && ")"@.is_suffix_of(class) {
        let last = offsets::byte_len(class) - 1;
        let inner = if offsets::is_span(class, 3, last) {
            offsets::slice(class, 3, last)
        } else {
            Seq::empty()
        };
        text::split_on(inner, '|')
    } else {
        seq![unbounded(class)]
    }
}

/// The expressions of the names that are defined.
pub open spec fn defined(
    names: Seq<Seq<char>>,
    definitions: Map<Seq<char>, Seq<char>>,
) -> Seq<Seq<char>>
    decreases names.len(),
{
    if names.len() == 0 {
        Seq::empty()
    } else {
        let before = defined(names.drop_last(), definitions);
        if definitions.contains_key(names.last()) {
            before.push(unanchored(definitions[names.last()]))
        } else {
            before
        }
    }
}

/// What the definitions say of a class; where they do not know it, what the type modifiers ask.
pub open spec fn defined_regex(
    class: Seq<char>,
    segment: TelSegmentView,
    definitions: Map<Seq<char>, Seq<char>>,
) -> Option<Seq<char>> {
    if class.len() == 0 || definitions.is_empty() {
        None
    } else {
        let known = defined(class_names(class), definitions);
        if known.len() == 0 {
            modifier_regex(segment)
        } else {
            Some("(?:"@ + text::join(known, "|"@) + ")"@)
        }
    }
}

/// The expression for tokens of one class.
pub open spec fn class_regex(
    class: Seq<char>,
    segment: TelSegmentView,
    definitions: Map<Seq<char>, Seq<char>>,
) -> Seq<char> {
    match defined_regex(class, segment, definitions) {
        Some(regex) => regex,
        None => match fallback_regex(segment) {
            Some(regex) => regex,
            None => Seq::empty(),
        },
    }
}

/// The expressions for tokens of classes, in order.
pub open spec fn class_regexes(
    classes: Seq<Seq<char>>,
    segment: TelSegmentView,
    definitions: Map<Seq<char>, Seq<char>>,
) -> Seq<Seq<char>> {
    Seq::new(classes.len(), |i: int| class_regex(classes[i], segment, definitions))
}

/// The expression over the object text that a segment makes, given the class that was captured for
/// it.
pub open spec fn object_regex(
    class: Option<Seq<char>>,
    segment: TelSegmentView,
    definitions: Map<Seq<char>, Seq<char>>,
) -> Seq<char> {
    let token_info = segment.token_info;
    let capturing = token_info.kind == TokenKind::Capturing;
    let vanishing = token_info.kind == TokenKind::Vanishing;
    let optional = segment.quantity == Quantity::Optional;
    let resolved = if vanishing && class is None {
        token_info.class_type
    } else {
        class
    };
    if optional && class is None {
        Seq::empty()
    } else if class == Some(Seq::<char>::empty()) {
        plan::escaped(token_info.token)
    } else if resolved is None {
        Seq::empty()
    } else {
        let fragments = class_regexes(text::words(resolved->0), segment, definitions);
        let base = text::join(fragments, r"\s*"@) + r"\s*"@;
        let regex = grouped(base, capturing, optional, vanishing);
        if capturing || vanishing {
            regex
        } else {
            plan::with_prefix_replaced(token_info.token, regex)
        }
    }
}

/// The position after the name of a named group whose name begins at `from`.
fn name_end(chars: &Vec<char>, from: usize) -> (r: usize)
    requires
        from <= chars.len(),
    ensures
        from <= r <= chars.len(),
        chars@.skip(r as int) == after_name(chars@.skip(from as int)),
{
    let mut i: usize = from;
    while i < chars.len() && chars[i] != '>'
        invariant
            from <= i <= chars.len(),
            after_name(chars@.skip(from as int)) == after_name(chars@.skip(i as int)),
        decreases chars.len() - i,
    {
        assert(chars@.skip(i as int).skip(1) == chars@.skip(i + 1));
        i = i + 1;
    }
    if i < chars.len() {
        assert(chars@.skip(i as int).skip(1) == chars@.skip(i + 1));
        i = i + 1;
    }
    i
}

/// What one step writes of a pattern without capturing groups, and where it goes on.
fn non_capturing_step(chars: &Vec<char>, index: usize) -> (r: (String, usize))
    requires
        index < chars.len(),
    ensures
        index < r.1 <= chars.len(),
        non_capturing(chars@.skip(index as int)) == r.0@ + non_capturing(chars@.skip(r.1 as int)),
{
    let ghost rest = chars@.skip(index as int);
    let left = chars.len() - index;
    let c = chars[index];
    proof {
        assert(rest[0] == c);
        assert(rest.skip(1) == chars@.skip(index + 1));
    }
    if c == '\\' && left == 1 {
        proof {
            assert(rest + non_capturing(chars@.skip(index + 1)) == rest);
        }
        (text::text_of(chars, index, index + 1), index + 1)
    } else if c == '\\' {
        proof {
            assert(rest.skip(2) == chars@.skip(index + 2));
            assert(rest.take(2) == chars@.subrange(index as int, index + 2));
        }
        (text::text_of(chars, index, index + 2), index + 2)
    } else if c == '(' && left > 3 && chars[index + 1] == '?' && chars[index + 2] == 'P'
        && chars[index + 3] == '<' {
        assert(rest.skip(4) == chars@.skip(index + 4));
        let after = name_end(chars, index + 4);
        ("(?:".to_string(), after)
    } else if c == '(' && !(left > 1 && chars[index + 1] == '?') {
        ("(?:".to_string(), index + 1)
    } else {
        proof {
            assert(rest.take(1) == chars@.subrange(index as int, index + 1));
            assert(c == '(' ==> rest.take(1) == seq!['(']);
        }
        (text::text_of(chars, index, index + 1), index + 1)
    }
}

/// A pattern whose plain groups and `(?P<name>` groups capture nothing.
#[must_use]
pub fn make_non_capturing(pattern: &str) -> (r: String)
    ensures
        r@ == non_capturing(pattern@),
{
    let chars = text::chars_of(pattern);
    let mut output = String::new();
    let mut index: usize = 0;
    proof {
        assert(chars@.skip(0) == pattern@);
        assert(output@ + non_capturing(pattern@) == non_capturing(pattern@));
    }
    while index < chars.len()
        invariant
            index <= chars.len(),
            output@ + non_capturing(chars@.skip(index as int)) == non_capturing(pattern@),
        decreases chars.len() - index,
    {
        let ghost before = output@;
        let (piece, next) = non_capturing_step(&chars, index);
        output.append(piece.as_str());
        proof {
            let more = non_capturing(chars@.skip(next as int));
            assert(before + (piece@ + more) == output@ + more);
        }
        index = next;
    }
    proof {
        assert(non_capturing(chars@.skip(index as int)).len() == 0);
        assert(output@ + non_capturing(chars@.skip(index as int)) == output@);
    }
    output
}

fn wrap_regex_group(
    base_regex: &str,
    is_capturing_group: bool,
    is_optional: bool,
    is_vanishing_group: bool,
) -> (r: String)
    ensures
        r@ == grouped(base_regex@, is_capturing_group, is_optional, is_vanishing_group),
{
    if is_capturing_group && !is_vanishing_group {
        let group = text::glue3("(", base_regex, ")");
        if is_optional {
            text::glue(group.as_str(), "?")
        } else {
            group
        }
    } else {
        let base_regex = make_non_capturing(base_regex);
        if is_optional {
            text::glue3("(", base_regex.as_str(), ")?")
        } else {
            base_regex
        }
    }
}

fn convert_segment_type_modifier_to_regex(segment: &TelSegment) -> (r: Option<String>)
    ensures
        r.deep_view() == modifier_regex(segment@),
{
    let comma = segment::modifier_has(text::borrowed(&segment.token_info.modifier), ',');
    match (segment.type_modifiers.alpha, segment.type_modifiers.numeric, comma) {
        (false, false, false) => Some(plan::DEFAULT_WORD_REGEX.to_string()),
        (true, false, false) => Some("[a-zA-Z]+".to_string()),
        (false, true, false) => Some(r"[\d]+".to_string()),
        (false, false, true) => Some(r"[,\-:;]+".to_string()),
        _ => None,
    }
}

fn modifier_only_fallback(segment: &TelSegment) -> (r: Option<String>)
    ensures
        r.deep_view() == fallback_regex(segment@),
{
    let modifier = text::borrowed(&segment.token_info.modifier);
    if segment::modifier_has(modifier, '%') || segment::modifier_has(modifier, '=')
        || segment::modifier_has(modifier, '$') || segment::modifier_has(modifier, '[') {
        let named = plan::apply_segment_to_class_type(segment, None);
        if named.is_some() {
            return named;
        }
    }
    convert_segment_type_modifier_to_regex(segment)
}

fn trim_regex_anchors(pattern: &str) -> (r: &str)
    ensures
        r@ == unanchored(pattern@),
{
    let front = match text::strip_prefix(pattern, "^") {
        Some(rest) => rest,
        None => pattern,
    };
    match text::strip_suffix(front, "$") {
        Some(rest) => rest,
        None => front,
    }
}

fn strip_word_boundaries(pattern: &str) -> (r: &str)
    ensures
        r@ == unbounded(pattern@),
{
    match text::strip_both(pattern, plan::WORD_BOUNDARY_REGEX, plan::WORD_BOUNDARY_REGEX) {
        Some(inner) => inner,
        None => pattern,
    }
}

fn names_in_class(class_type: &str) -> (r: Vec<String>)
    ensures
        r.deep_view() == class_names(class_type@),
{
    if text::has_prefix(class_type, "(") && text::has_suffix(class_type, ")") {
        let len = offsets::len_of(class_type);
        proof {
            reveal_strlit("(");
            offsets::lemma_ends(class_type@);
            if len == 0 {
                assert(class_type@.len() > 0);
                vstd::utf8::encode_utf8_decode_utf8(class_type@);
                reveal_with_fuel(vstd::utf8::decode_utf8, 1);
            }
        }
        let inner = if len > 0 && offsets::spans(class_type, 3, len - 1) {
            offsets::slice_of(class_type, 3, len - 1)
        } else {
            assert(""@ == Seq::<char>::empty()) by {
                reveal_strlit("");
            }
            ""
        };
        text::split_text(inner, '|')
    } else {
        let mut names: Vec<String> = Vec::new();
        let name = strip_word_boundaries(class_type);
        names.push(name.to_string());
        assert(names.deep_view() == seq![name@]);
        names
    }
}

fn expand_dictionary_class_type(
    class_type: &str,
    segment: &TelSegment,
    token_definitions: &StringHashMap<String>,
) -> (r: Option<String>)
    ensures
        r.deep_view() == defined_regex(class_type@, segment@, texts(token_definitions@)),
{
    proof {
        if token_definitions@.is_empty() {
            assert(texts(token_definitions@) =~= Map::<Seq<char>, Seq<char>>::empty());
        } else {
            let k = choose|k: Seq<char>| token_definitions@.contains_key(k);
            if texts(token_definitions@).is_empty() {
                assert(texts(token_definitions@).contains_key(k));
            }
        }
    }
    if class_type.is_empty() || token_definitions.is_empty() {
        return None;
    }
    let names = names_in_class(class_type);
    let ghost all = names.deep_view();
    let ghost definitions = texts(token_definitions@);
    let mut known: Vec<String> = Vec::new();
    let mut i: usize = 0;
    while i < names.len()
        invariant
            all == names.deep_view(),
            definitions == texts(token_definitions@),
            i <= names.len(),
            known.deep_view() == defined(all.take(i as int), definitions),
        decreases names.len() - i,
    {
        let ghost before = known.deep_view();
        proof {
            let next = all.take(i + 1);
            assert(next.drop_last() == all.take(i as int));
            assert(next.last() == names@[i as int]@);
        }
        if let Some(pattern) = token_definitions.get(names[i].as_str()) {
            let inner = trim_regex_anchors(pattern.as_str());
            known.push(inner.to_string());
            assert(known.deep_view() == before.push(inner@));
        }
        i = i + 1;
    }
    assert(all.take(i as int) == all);
    assert(known.deep_view().len() == known.len());
    if known.len() == 0 {
        convert_segment_type_modifier_to_regex(segment)
    } else {
        let joined = text::join_texts(&known, "|");
        Some(text::glue3("(?:", joined.as_str(), ")"))
    }
}

fn resolve_class_pattern(
    class_type: &str,
    segment: &TelSegment,
    token_definitions: &StringHashMap<String>,
) -> (r: String)
    ensures
        r@ == class_regex(class_type@, segment@, texts(token_definitions@)),
{
    match expand_dictionary_class_type(class_type, segment, token_definitions) {
        Some(regex) => regex,
        None => match modifier_only_fallback(segment) {
            Some(regex) => regex,
            None => String::new(),
        },
    }
}

/// The expression over the object text that a segment makes.
#[must_use]
pub fn create_regex_pattern(
    class_type_string: Option<&str>,
    segment: &TelSegment,
    token_definitions: &StringHashMap<String>,
) -> (r: String)
    ensures
        r@ == object_regex(class_type_string.deep_view(), segment@, texts(token_definitions@)),
{
    let token_info = &segment.token_info;
    let token = token_info.token.as_str();
    let is_capturing_group = token_info.is_capturing_group();
    let is_vanishing_group = token_info.is_vanishing_group();
    let is_optional = matches!(segment.quantity, Quantity::Optional);
    if is_optional && class_type_string.is_none() {
        return String::new();
    }
    if let Some(class_type) = class_type_string {
        if class_type.is_empty() {
            assert(class_type@ == Seq::<char>::empty());
            return plan::escape_regex_literal(token);
        }
    }
    let resolved = if is_vanishing_group && class_type_string.is_none() {
        text::borrowed(&token_info.class_type)
    } else {
        class_type_string
    };
    let class_type = match resolved {
        Some(class_type) => class_type,
        None => {
            return String::new();
        },
    };
    let classes = text::words_of(class_type);
    let ghost definitions = texts(token_definitions@);
    let mut fragments: Vec<String> = Vec::new();
    let mut i: usize = 0;
    while i < classes.len()
        invariant
            definitions == texts(token_definitions@),
            i <= classes.len(),
            fragments.len() == i,
            forall|j: int|
                0 <= j < i ==> (#[trigger] fragments@[j])@ == class_regex(
                    classes@[j]@,
                    segment@,
                    definitions,
                ),
        decreases classes.len() - i,
    {
        fragments.push(resolve_class_pattern(classes[i].as_str(), segment, token_definitions));
        i = i + 1;
    }
    assert(fragments.deep_view() =~= class_regexes(classes.deep_view(), segment@, definitions));
    let joined = text::join_texts(&fragments, r"\s*");
    let base = text::glue(joined.as_str(), r"\s*");
    let regex = wrap_regex_group(
        base.as_str(),
        is_capturing_group,
        is_optional,
        is_vanishing_group,
    );
    if is_capturing_group || is_vanishing_group {
        regex
    } else {
        plan::replace_literal_token_prefix(token, regex.as_str())
    }
}

/// A pattern without capturing groups captures nothing.
pub proof fn law_non_capturing_captures_nothing(s: Seq<char>)
    ensures
        plan::group_count(non_capturing(s)) == 0,
    decreases s.len(),
{
    reveal_strlit("(?:");
    if s.len() > 0 {
        if s[0] == '\\' {
            if s.len() > 1 {
                law_non_capturing_captures_nothing(s.skip(2));
                let rest = non_capturing(s.skip(2));
                assert((s.take(2) + rest).skip(2) == rest);
            }
        } else if s[0] == '(' {
            if s.len() > 1 && s[1] == '?' {
                if s.len() > 3 && s[2] == 'P' && s[3] == '<' {
                    lemma_after_name(s.skip(4));
                    law_non_capturing_captures_nothing(after_name(s.skip(4)));
                    lemma_opens_without_capture(non_capturing(after_name(s.skip(4))));
                } else {
                    law_non_capturing_captures_nothing(s.skip(1));
                    let rest = non_capturing(s.skip(1));
                    assert(s.skip(1)[0] == '?');
                    assert(rest[0] == '?');
                    assert((seq!['('] + rest).skip(1) == rest);
                    assert((seq!['('] + rest)[1] == '?');
                }
            } else {
                law_non_capturing_captures_nothing(s.skip(1));
                lemma_opens_without_capture(non_capturing(s.skip(1)));
            }
        } else {
            law_non_capturing_captures_nothing(s.skip(1));
            let rest = non_capturing(s.skip(1));
            assert((s.take(1) + rest).skip(1) == rest);
        }
    }
}

proof fn lemma_opens_without_capture(rest: Seq<char>)
    requires
        plan::group_count(rest) == 0,
    ensures
        plan::group_count("(?:"@ + rest) == 0,
{
    reveal_strlit("(?:");
    let s = "(?:"@ + rest;
    assert(s.skip(1).skip(1).skip(1) == rest);
    assert(s.skip(1)[0] == '?');
    assert(s.skip(1).skip(1)[0] == ':');
    assert(plan::group_count(s.skip(1).skip(1)) == 0);
    assert(plan::group_count(s.skip(1)) == 0);
}

} // verus!
