//! What holds of the plans that extractions follow.

use crate::extractor::object;
use crate::extractor::object_plan;
use crate::extractor::object_plan::ObjComparatorTokenInfoView;
use crate::tel::compiled;
use crate::tel::compiled::CompiledPatternView;
use crate::tel::plan;
use crate::tel::segment;
use crate::tel::split;
use crate::tel::{
    CompiledClassSegmentView, MatchMode, Quantity, TelSegmentView, TokenInfoView, TokenKind,
};
use crate::text;
use crate::text::CharClass;
use vstd::prelude::*;

verus! {

/// The expression over the object text is anchored as the one over the classes is. Where a match
/// may lie anywhere and it is known how many characters come before it, these come first, and
/// anything may follow.
pub proof fn law_object_pattern_is_anchored(comparator: Seq<char>, prefix: Option<usize>)
    ensures
        object_plan::object_pattern(comparator, MatchMode::Whole, prefix) == seq!['^'] + comparator
            + seq!['$'],
        object_plan::object_pattern(comparator, MatchMode::Start, prefix) == seq!['^'] + comparator,
        object_plan::object_pattern(comparator, MatchMode::End, prefix) == comparator + seq!['$'],
        prefix is None ==> object_plan::object_pattern(comparator, MatchMode::Any, prefix)
            == comparator,
        prefix == Some(0usize) ==> object_plan::object_pattern(comparator, MatchMode::Any, prefix)
            == "(?s)^"@ + comparator + "(?:.*)$"@,
        prefix is Some && prefix->0 > 0 ==> object_plan::object_pattern(
            comparator,
            MatchMode::Any,
            prefix,
        ) == "(?s)^(?:.{"@ + object_plan::decimal(prefix->0 as nat) + "})"@ + comparator
            + "(?:.*)$"@,
{
    crate::tel::laws::law_modes_anchor(comparator);
}

/// The number that decimal digits write.
pub open spec fn number(digits: Seq<char>) -> int
    decreases digits.len(),
{
    if digits.len() == 0 {
        0
    } else {
        10 * number(digits.drop_last()) + (digits.last() as int - '0' as int)
    }
}

/// A number in digits is that number, without a leading zero.
pub proof fn law_digits_write_the_number(n: nat)
    ensures
        number(object_plan::decimal(n)) == n,
        object_plan::decimal(n).len() > 0,
        n > 0 ==> object_plan::decimal(n)[0] != '0',
        forall|i: int|
            0 <= i < object_plan::decimal(n).len() ==> '0' <= #[trigger] object_plan::decimal(n)[i]
                <= '9',
    decreases n,
{
    let d = object_plan::decimal(n);
    if n < 10 {
        lemma_digit(n);
        assert(d.drop_last() == Seq::<char>::empty());
        assert(number(d.drop_last()) == 0);
    } else {
        law_digits_write_the_number(n / 10);
        lemma_digit(n % 10);
        assert(d.drop_last() == object_plan::decimal(n / 10));
        assert(d[0] == object_plan::decimal(n / 10)[0]);
    }
}

proof fn lemma_digit(n: nat)
    requires
        n < 10,
    ensures
        object_plan::digit(n) as int == '0' as int + n,
{
}

/// Without a bracket there is no group.
proof fn lemma_no_bracket(s: Seq<char>)
    requires
        !s.contains('('),
    ensures
        plan::group_count(s) == 0,
    decreases s.len(),
{
    if s.len() > 0 {
        assert(s[0] != '(');
        if s[0] == '\\' {
            if s.len() > 1 {
                lemma_contains_skip(s, 2);
                lemma_no_bracket(s.skip(2));
            }
        } else {
            lemma_contains_skip(s, 1);
            lemma_no_bracket(s.skip(1));
        }
    }
}

proof fn lemma_contains_skip(s: Seq<char>, n: int)
    requires
        !s.contains('('),
        0 <= n <= s.len(),
    ensures
        !s.skip(n).contains('('),
{
    assert forall|i: int| 0 <= i < s.skip(n).len() implies s.skip(n)[i] != '(' by {
        assert(s.skip(n)[i] == s[i + n]);
    }
}

/// White space between two expressions changes nothing of the groups that they capture.
pub proof fn law_blanks_part_groups(a: Seq<char>, b: Seq<char>)
    ensures
        plan::group_count(a + r"\s*"@ + b) == plan::group_count(a) + plan::group_count(b),
    decreases a.len(),
{
    reveal_strlit(r"\s*");
    let sep = r"\s*"@;
    let s = a + sep + b;
    if a.len() == 0 {
        assert(s[0] == '\\');
        assert(s.skip(2)[0] == '*');
        assert(s.skip(2).skip(1) == b);
        assert(plan::group_count(s.skip(2)) == plan::group_count(s.skip(2).skip(1)));
        assert(plan::group_count(a) == 0);
    } else if a[0] == '\\' && a.len() == 1 {
        assert(s[0] == '\\' && s[1] == '\\');
        let t = s.skip(2);
        assert(t[0] == 's');
        assert(t.skip(1)[0] == '*');
        assert(t.skip(1).skip(1) == b);
        assert(plan::group_count(t) == plan::group_count(t.skip(1)));
        assert(plan::group_count(t.skip(1)) == plan::group_count(b));
    } else if a[0] == '\\' {
        law_blanks_part_groups(a.skip(2), b);
        assert(s.skip(2) == a.skip(2) + sep + b);
        assert(s[0] == a[0]);
    } else {
        law_blanks_part_groups(a.skip(1), b);
        assert(s.skip(1) == a.skip(1) + sep + b);
        assert(s[0] == a[0]);
        if a.len() > 1 {
            assert(s[1] == a[1]);
        } else {
            assert(s[1] == '\\');
        }
    }
}

/// A character that neither escapes nor opens a group parts the groups of what stands around it.
proof fn lemma_char_parts_groups(a: Seq<char>, c: char, b: Seq<char>)
    requires
        c != '(' && c != '?' && c != '\\',
    ensures
        plan::group_count(a + seq![c] + b) == plan::group_count(a) + plan::group_count(b),
    decreases a.len(),
{
    let s = a + seq![c] + b;
    if a.len() == 0 {
        assert(s[0] == c);
        assert(s.skip(1) == b);
    } else if a[0] == '\\' && a.len() == 1 {
        assert(s[0] == '\\' && s[1] == c);
        assert(s.skip(2) == b);
    } else if a[0] == '\\' {
        lemma_char_parts_groups(a.skip(2), c, b);
        assert(s.skip(2) == a.skip(2) + seq![c] + b);
        assert(s[0] == a[0]);
    } else {
        lemma_char_parts_groups(a.skip(1), c, b);
        assert(s.skip(1) == a.skip(1) + seq![c] + b);
        assert(s[0] == a[0]);
        if a.len() > 1 {
            assert(s[1] == a[1]);
        } else {
            assert(s[1] == c);
        }
    }
}

/// What follows without a bracket adds no group.
proof fn lemma_tail_adds_no_group(a: Seq<char>, b: Seq<char>)
    requires
        !b.contains('('),
    ensures
        plan::group_count(a + b) <= plan::group_count(a),
    decreases a.len(),
{
    let s = a + b;
    if a.len() == 0 {
        assert(s == b);
        lemma_no_bracket(b);
    } else if a[0] == '\\' && a.len() == 1 {
        assert(s[0] == '\\');
        if b.len() > 0 {
            assert(s.skip(2) == b.skip(1));
            lemma_contains_skip(b, 1);
            lemma_no_bracket(b.skip(1));
        } else {
            assert(s == a);
        }
    } else if a[0] == '\\' {
        lemma_tail_adds_no_group(a.skip(2), b);
        assert(s.skip(2) == a.skip(2) + b);
        assert(s[0] == a[0]);
    } else {
        lemma_tail_adds_no_group(a.skip(1), b);
        assert(s.skip(1) == a.skip(1) + b);
        assert(s[0] == a[0]);
        if a.len() > 1 {
            assert(s[1] == a[1]);
        }
    }
}

/// Anything may follow without a further group.
proof fn lemma_rest_adds_no_group(a: Seq<char>)
    ensures
        plan::group_count(a + "(?:.*)$"@) == plan::group_count(a),
    decreases a.len(),
{
    reveal_strlit("(?:.*)$");
    let rest = "(?:.*)$"@;
    let s = a + rest;
    assert(rest.skip(1) =~= seq!['?', ':', '.', '*', ')', '$']);
    lemma_no_bracket(rest.skip(1));
    if a.len() == 0 {
        assert(s == rest);
        assert(rest[0] == '(' && rest[1] == '?');
    } else if a[0] == '\\' && a.len() == 1 {
        assert(s[0] == '\\');
        assert(s.skip(2) == rest.skip(1));
    } else if a[0] == '\\' {
        lemma_rest_adds_no_group(a.skip(2));
        assert(s.skip(2) == a.skip(2) + rest);
        assert(s[0] == a[0]);
    } else {
        lemma_rest_adds_no_group(a.skip(1));
        assert(s.skip(1) == a.skip(1) + rest);
        assert(s[0] == a[0]);
        if a.len() > 1 {
            assert(s[1] == a[1]);
        } else {
            assert(s[1] == '(');
        }
    }
}

/// Where nothing escapes and no bracket is left open, what follows captures what it captures alone.
proof fn lemma_front_adds_no_group(a: Seq<char>, b: Seq<char>)
    requires
        !a.contains('\\'),
        a.len() > 0 ==> a.last() != '(',
    ensures
        plan::group_count(a + b) == plan::group_count(a) + plan::group_count(b),
    decreases a.len(),
{
    let s = a + b;
    if a.len() == 0 {
        assert(s == b);
    } else {
        assert(a[0] != '\\');
        let t = a.skip(1);
        assert forall|i: int| 0 <= i < t.len() implies t[i] != '\\' by {
            assert(t[i] == a[i + 1]);
        }
        if t.len() > 0 {
            assert(t.last() == a.last());
        }
        lemma_front_adds_no_group(t, b);
        assert(s.skip(1) == t + b);
        assert(s[0] == a[0]);
        if a.len() > 1 {
            assert(s[1] == a[1]);
        }
    }
}

/// Anchoring an expression captures nothing more.
pub proof fn law_anchors_capture_nothing(
    comparator: Seq<char>,
    mode: MatchMode,
    prefix: Option<usize>,
)
    ensures
        plan::group_count(object_plan::object_pattern(comparator, mode, prefix))
            == plan::group_count(comparator),
{
    law_object_pattern_is_anchored(comparator, prefix);
    let none = Seq::<char>::empty();
    let start = seq!['^'];
    assert(start + comparator == none + start + comparator);
    lemma_char_parts_groups(none, '^', comparator);
    assert(comparator + seq!['$'] == comparator + seq!['$'] + none);
    lemma_char_parts_groups(comparator, '$', none);
    assert(start + comparator + seq!['$'] == none + start + (comparator + seq!['$']));
    lemma_char_parts_groups(none, '^', comparator + seq!['$']);
    assert(plan::group_count(none) == 0);
    if mode == MatchMode::Any && prefix is Some {
        let front = if prefix->0 > 0 {
            "(?s)^(?:.{"@ + object_plan::decimal(prefix->0 as nat) + "})"@
        } else {
            "(?s)^"@
        };
        lemma_prefix_captures_nothing(prefix->0);
        lemma_rest_adds_no_group(comparator);
        lemma_front_adds_no_group(front, comparator + "(?:.*)$"@);
        assert(front + comparator + "(?:.*)$"@ == front + (comparator + "(?:.*)$"@));
    }
}

proof fn lemma_prefix_captures_nothing(prefix: usize)
    ensures
        ({
            let front = if prefix > 0 {
                "(?s)^(?:.{"@ + object_plan::decimal(prefix as nat) + "})"@
            } else {
                "(?s)^"@
            };
            &&& plan::group_count(front) == 0
            &&& !front.contains('\\')
            &&& front.last() != '('
            &&& front.len() > 0
        }),
{
    reveal_strlit("(?s)^(?:.{");
    reveal_strlit("(?s)^");
    reveal_strlit("})");
    if prefix > 0 {
        let digits = object_plan::decimal(prefix as nat);
        law_digits_write_the_number(prefix as nat);
        let open = "(?s)^(?:.{"@;
        let tail = digits + "})"@;
        let front = open + digits + "})"@;
        assert(front == open + tail);
        assert forall|i: int| 0 <= i < tail.len() implies tail[i] != '(' && tail[i] != '\\' by {
            if i < digits.len() {
                assert('0' <= digits[i] <= '9');
            }
        }
        lemma_tail_adds_no_group(open, tail);
        let inner = open.skip(5);
        assert(inner =~= seq!['(', '?', ':', '.', '{']);
        assert(!inner.skip(1).contains('('));
        lemma_no_bracket(inner.skip(1));
        assert(plan::group_count(inner) == 0);
        let front5 = open.take(5);
        assert(front5 =~= seq!['(', '?', 's', ')', '^']);
        assert(!front5.skip(1).contains('('));
        lemma_no_bracket(front5.skip(1));
        assert(plan::group_count(front5) == 0);
        lemma_front_adds_no_group(front5, inner);
        assert(front5 + inner == open);
        assert forall|i: int| 0 <= i < front.len() implies front[i] != '\\' by {
            if i >= open.len() {
                assert(front[i] == tail[i - open.len()]);
            }
        }
    } else {
        let front = "(?s)^"@;
        assert(!front.skip(1).contains('('));
        lemma_no_bracket(front.skip(1));
        assert(front[0] == '(' && front[1] == '?');
    }
}

/// How many groups expressions capture in all.
pub open spec fn groups_in(parts: Seq<Seq<char>>) -> nat
    decreases parts.len(),
{
    if parts.len() == 0 {
        0
    } else {
        groups_in(parts.drop_last()) + plan::group_count(parts.last())
    }
}

/// Expressions with white space between them capture what each of them captures.
pub proof fn law_parts_capture_what_they_capture(parts: Seq<Seq<char>>)
    ensures
        plan::group_count(text::join(parts, r"\s*"@)) == groups_in(parts),
    decreases parts.len(),
{
    if parts.len() == 1 {
        assert(parts.drop_last() == Seq::<Seq<char>>::empty());
        assert(groups_in(parts.drop_last()) == 0);
    } else if parts.len() > 1 {
        law_parts_capture_what_they_capture(parts.drop_last());
        law_blanks_part_groups(text::join(parts.drop_last(), r"\s*"@), parts.last());
    }
}

proof fn lemma_no_groups_in(parts: Seq<Seq<char>>)
    requires
        forall|i: int| 0 <= i < parts.len() ==> plan::group_count(#[trigger] parts[i]) == 0,
    ensures
        groups_in(parts) == 0,
    decreases parts.len(),
{
    if parts.len() > 0 {
        let before = parts.drop_last();
        assert forall|i: int| 0 <= i < before.len() implies plan::group_count(#[trigger] before[i])
            == 0 by {
            assert(before[i] == parts[i]);
        }
        lemma_no_groups_in(before);
        assert(plan::group_count(parts[parts.len() - 1]) == 0);
    }
}

/// Whether no definition holds a capturing group.
pub open spec fn capture_nothing(definitions: Map<Seq<char>, Seq<char>>) -> bool {
    forall|name: Seq<char>| #[trigger]
        definitions.contains_key(name) ==> plan::group_count(definitions[name]) == 0
}

/// Whether the expression for a class is known: the definitions tell it, or the modifiers do in a
/// way that captures nothing.
pub open spec fn is_settled(
    class: Seq<char>,
    segment: TelSegmentView,
    definitions: Map<Seq<char>, Seq<char>>,
) -> bool {
    let modifier = segment.token_info.modifier;
    ||| !segment::marks(modifier, '%') && !segment::marks(modifier, '=') && !segment::marks(
        modifier,
        '$',
    ) && !segment::marks(modifier, '[')
    ||| forall|i: int|
        0 <= i < text::words(class).len() ==> object::defined(
            object::class_names(#[trigger] text::words(class)[i]),
            definitions,
        ).len() > 0
}

proof fn lemma_unanchored_groups(s: Seq<char>)
    ensures
        plan::group_count(object::unanchored(s)) == plan::group_count(s),
{
    reveal_strlit("^");
    reveal_strlit("$");
    let none = Seq::<char>::empty();
    let front = match text::without_prefix(s, "^"@) {
        Some(rest) => rest,
        None => s,
    };
    if "^"@.is_prefix_of(s) {
        assert(s[0] == s.subrange(0, 1)[0]);
        assert(s[0] == '^');
        assert(s == none + seq!['^'] + front);
        lemma_char_parts_groups(none, '^', front);
    }
    if "$"@.is_suffix_of(front) {
        let body = front.take(front.len() - 1);
        assert(front.last() == front.subrange(front.len() - 1, front.len() as int)[0]);
        assert(front.last() == '$');
        assert(front == body + seq!['$'] + none);
        lemma_char_parts_groups(body, '$', none);
        assert(plan::group_count(none) == 0);
    }
}

proof fn lemma_defined_groups(names: Seq<Seq<char>>, definitions: Map<Seq<char>, Seq<char>>)
    requires
        capture_nothing(definitions),
    ensures
        plan::group_count(text::join(object::defined(names, definitions), "|"@)) == 0,
    decreases names.len(),
{
    reveal_strlit("|");
    let known = object::defined(names, definitions);
    if names.len() > 0 {
        lemma_defined_groups(names.drop_last(), definitions);
        if definitions.contains_key(names.last()) {
            let before = object::defined(names.drop_last(), definitions);
            lemma_unanchored_groups(definitions[names.last()]);
            assert(known.drop_last() == before);
            if before.len() > 0 {
                assert("|"@ =~= seq!['|']);
                lemma_char_parts_groups(text::join(before, "|"@), '|', known.last());
            }
        }
    }
}

proof fn lemma_modifier_regex(segment: TelSegmentView)
    ensures
        object::modifier_regex(segment) matches Some(regex) ==> plan::group_count(regex) == 0
            && regex.len() > 0 && regex[0] == '[',
{
    reveal_strlit(r"[\w\-']+");
    reveal_strlit("[a-zA-Z]+");
    reveal_strlit(r"[\d]+");
    reveal_strlit(r"[,\-:;]+");
    lemma_no_bracket(r"[\w\-']+"@);
    lemma_no_bracket("[a-zA-Z]+"@);
    lemma_no_bracket(r"[\d]+"@);
    lemma_no_bracket(r"[,\-:;]+"@);
}

/// The expression of a settled class captures nothing, and does not begin with `?`.
proof fn lemma_class_regex(
    class: Seq<char>,
    segment: TelSegmentView,
    definitions: Map<Seq<char>, Seq<char>>,
)
    requires
        capture_nothing(definitions),
        class.len() > 0,
        object::defined(object::class_names(class), definitions).len() > 0 || {
            let modifier = segment.token_info.modifier;
            !segment::marks(modifier, '%') && !segment::marks(modifier, '=') && !segment::marks(
                modifier,
                '$',
            ) && !segment::marks(modifier, '[')
        },
    ensures
        plan::group_count(object::class_regex(class, segment, definitions)) == 0,
        object::class_regex(class, segment, definitions).len() > 0 ==> object::class_regex(
            class,
            segment,
            definitions,
        )[0] != '?',
{
    let known = object::defined(object::class_names(class), definitions);
    lemma_modifier_regex(segment);
    if known.len() > 0 && !definitions.is_empty() {
        reveal_strlit("(?:");
        reveal_strlit(")");
        let inner = text::join(known, "|"@);
        lemma_defined_groups(object::class_names(class), definitions);
        let open = "(?:"@;
        let none = Seq::<char>::empty();
        assert(!open.skip(1).contains('('));
        lemma_no_bracket(open.skip(1));
        assert(open[0] == '(' && open[1] == '?');
        assert(plan::group_count(open) == 0);
        assert(")"@ =~= seq![')']);
        lemma_char_parts_groups(inner, ')', none);
        assert(inner + ")"@ == inner + seq![')'] + none);
        assert(plan::group_count(none) == 0);
        lemma_front_adds_no_group(open, inner + ")"@);
        assert(open + inner + ")"@ == open + (inner + ")"@));
    } else if known.len() > 0 {
        lemma_nothing_defined(object::class_names(class), definitions);
    }
}

proof fn lemma_nothing_defined(names: Seq<Seq<char>>, definitions: Map<Seq<char>, Seq<char>>)
    requires
        definitions.is_empty(),
    ensures
        object::defined(names, definitions).len() == 0,
    decreases names.len(),
{
    if names.len() > 0 {
        lemma_nothing_defined(names.drop_last(), definitions);
        assert(!definitions.dom().contains(names.last()));
    }
}

/// What stands in the brackets of a capture captures nothing, and does not begin with `?`.
proof fn lemma_base(
    class: Seq<char>,
    segment: TelSegmentView,
    definitions: Map<Seq<char>, Seq<char>>,
)
    requires
        capture_nothing(definitions),
        is_settled(class, segment, definitions),
    ensures
        ({
            let fragments = object::class_regexes(text::words(class), segment, definitions);
            let base = text::join(fragments, r"\s*"@) + r"\s*"@;
            &&& plan::group_count(base) == 0
            &&& base.len() > 0
            &&& base[0] != '?'
        }),
{
    let words = text::words(class);
    let fragments = object::class_regexes(words, segment, definitions);
    let joined = text::join(fragments, r"\s*"@);
    let none = Seq::<char>::empty();
    crate::normalize::lemma_words_are_whole(class);
    assert forall|i: int| 0 <= i < fragments.len() implies plan::group_count(#[trigger] fragments[i])
        == 0 && (fragments[i].len() > 0 ==> fragments[i][0] != '?') by {
        assert(crate::normalize::is_whole_word(words[i]));
        lemma_class_regex(words[i], segment, definitions);
    }
    lemma_no_groups_in(fragments);
    law_parts_capture_what_they_capture(fragments);
    law_blanks_part_groups(joined, none);
    assert(joined + r"\s*"@ + none == joined + r"\s*"@);
    assert(plan::group_count(none) == 0);
    reveal_strlit(r"\s*");
    lemma_join_first(fragments);
}

proof fn lemma_join_first(parts: Seq<Seq<char>>)
    requires
        forall|i: int|
            0 <= i < parts.len() ==> ((#[trigger] parts[i]).len() > 0 ==> parts[i][0] != '?'),
    ensures
        text::join(parts, r"\s*"@).len() > 0 ==> text::join(parts, r"\s*"@)[0] != '?',
    decreases parts.len(),
{
    reveal_strlit(r"\s*");
    if parts.len() > 1 {
        let before = parts.drop_last();
        assert forall|i: int| 0 <= i < before.len() && (#[trigger] before[i]).len() > 0 implies
            before[i][0] != '?' by {
            assert(before[i] == parts[i]);
        }
        lemma_join_first(before);
        let head = text::join(before, r"\s*"@);
        if head.len() > 0 {
            assert(text::join(parts, r"\s*"@)[0] == head[0]);
        } else {
            assert(text::join(parts, r"\s*"@)[0] == '\\');
        }
    } else if parts.len() == 1 {
        assert(parts[0].len() > 0 ==> parts[0][0] != '?');
    }
}

/// What holds of a segment of a valid pattern.
pub open spec fn is_valid(s: TelSegmentView) -> bool {
    let info = s.token_info;
    &&& info.kind == TokenKind::Capturing <==> info.var_name is Some
    &&& info.flags == segment::flags_of(info.modifier)
    &&& s.quantity == segment::quantity_of(info.flags)
    &&& info.kind == TokenKind::Literal || info.kind == TokenKind::Vanishing ==> info.modifier
        is None
    &&& info.kind == TokenKind::Class ==> !info.token.contains('(')
}

proof fn lemma_segments_are_valid(tokens: Seq<Seq<char>>)
    requires
        forall|i: int| 0 <= i < tokens.len() ==> split::is_word_token(#[trigger] tokens[i]),
    ensures
        compiled::segments_of(tokens) matches Ok(segments) ==> forall|i: int|
            0 <= i < segments.len() ==> is_valid(#[trigger] segments[i]),
    decreases tokens.len(),
{
    if tokens.len() > 0 {
        let before = tokens.drop_last();
        assert forall|i: int| 0 <= i < before.len() implies split::is_word_token(
            #[trigger] before[i],
        ) by {
            assert(before[i] == tokens[i]);
        }
        lemma_segments_are_valid(before);
        assert(split::is_word_token(tokens[tokens.len() - 1]));
    }
}

/// The number of groups of a segment that gives a field: one where it has an expression, none where
/// it has none.
proof fn lemma_info_groups(
    info: ObjComparatorTokenInfoView,
    class: Option<Seq<char>>,
    definitions: Map<Seq<char>, Seq<char>>,
)
    requires
        capture_nothing(definitions),
        is_valid_apart_from_class(info.segment),
        info.segment.token_info.kind != TokenKind::Literal,
        !(info.segment.token_info.kind == TokenKind::Class
            && info.segment.token_info.flags.optional),
        info.regex_pattern == Some(object::object_regex(class, info.segment, definitions)),
        info.segment.token_info.kind == TokenKind::Capturing ==> class != Some(
            Seq::<char>::empty(),
        ),
        info.segment.token_info.kind == TokenKind::Capturing && class is Some ==> is_settled(
            class->0,
            info.segment,
            definitions,
        ),
    ensures
        plan::group_count(info.regex_pattern->0) == if object_plan::fills_field(info) {
            1nat
        } else {
            0nat
        },
        object_plan::fills_field(info) <==> info.segment.token_info.kind == TokenKind::Capturing
            && info.regex_pattern->0.len() > 0,
{
    let token_info = info.segment.token_info;
    let regex = info.regex_pattern->0;
    let none = Seq::<char>::empty();
    assert(plan::group_count(none) == 0);
    let vanishing = token_info.kind == TokenKind::Vanishing;
    let capturing = token_info.kind == TokenKind::Capturing;
    let optional = info.segment.quantity == Quantity::Optional;
    let resolved = if vanishing && class is None {
        token_info.class_type
    } else {
        class
    };
    if optional && class is None {
    } else if class == Some(none) {
        plan::law_escaped_text_captures_nothing(token_info.token);
    } else if resolved is None {
    } else {
        let fragments = object::class_regexes(
            text::words(resolved->0),
            info.segment,
            definitions,
        );
        let base = text::join(fragments, r"\s*"@) + r"\s*"@;
        if capturing {
            lemma_base(class->0, info.segment, definitions);
            reveal_strlit("(");
            reveal_strlit(")");
            reveal_strlit("?");
            assert("("@ =~= seq!['('] && ")"@ =~= seq![')']);
            let tail = if optional {
                seq!['?']
            } else {
                none
            };
            let body = base + seq![')'] + tail;
            lemma_char_parts_groups(base, ')', tail);
            lemma_no_bracket(tail);
            assert(regex =~= seq!['('] + body);
            assert(regex.skip(1) == body);
            assert(body[0] == base[0]);
            assert(regex[0] == '(' && regex[1] == body[0]);
        } else {
            object::law_non_capturing_captures_nothing(base);
            if !vanishing {
                let n = text::run_len(token_info.token, CharClass::ClassPrefix) as int;
                text::lemma_run(token_info.token, CharClass::ClassPrefix);
                lemma_contains_skip(token_info.token, n);
                lemma_tail_adds_no_group(object::non_capturing(base), token_info.token.skip(n));
                lemma_no_bracket(token_info.token);
            }
        }
    }
}

/// What holds of a segment of a valid pattern, and of the segment that a plan holds for it.
pub open spec fn is_valid_apart_from_class(s: TelSegmentView) -> bool {
    is_valid(
        TelSegmentView {
            token_info: TokenInfoView { class_type: None, ..s.token_info },
            ..s
        },
    )
}

/// What a plan's pattern and names are made of: each segment that gives a field has one group in
/// its expression, and any other none.
pub open spec fn is_aligned(infos: Seq<ObjComparatorTokenInfoView>) -> bool {
    forall|i: int|
        0 <= i < infos.len() ==> plan::group_count((#[trigger] infos[i]).regex_pattern->0) == if
            infos[i].segment.token_info.kind == TokenKind::Capturing
                && infos[i].regex_pattern->0.len() > 0 {
            1nat
        } else {
            0nat
        }
}

/// Whether the expression for each capture is known: it names no empty class, and its class is
/// settled.
pub open spec fn are_settled(
    infos: Seq<ObjComparatorTokenInfoView>,
    definitions: Map<Seq<char>, Seq<char>>,
) -> bool {
    forall|i: int|
        0 <= i < infos.len() && (#[trigger] infos[i]).segment.token_info.kind
            == TokenKind::Capturing ==> (infos[i].new_class_type matches Some(class) ==> class.len()
            > 0 && is_settled(class, infos[i].segment, definitions))
}

/// Whether expressions can be told from the captures of a pattern: no definition captures anything,
/// no bare class is optional, and the expression for each capture is known.
pub open spec fn is_orderly(
    pattern: CompiledPatternView,
    captured: Seq<Option<Seq<char>>>,
    definitions: Map<Seq<char>, Seq<char>>,
) -> bool {
    &&& pattern.is_compiled()
    &&& capture_nothing(definitions)
    &&& forall|i: int|
        0 <= i < pattern.segments.len() ==> !((#[trigger] pattern.segments[i]).token_info.kind
            == TokenKind::Class && pattern.segments[i].token_info.flags.optional)
    &&& are_settled(
        object_plan::comparator_infos(
            plan::class_plan(pattern.segments).segments,
            captured,
            definitions,
        ),
        definitions,
    )
}

proof fn lemma_infos_are_aligned(
    segments: Seq<CompiledClassSegmentView>,
    captured: Seq<Option<Seq<char>>>,
    definitions: Map<Seq<char>, Seq<char>>,
)
    requires
        capture_nothing(definitions),
        forall|i: int|
            0 <= i < segments.len() ==> is_valid_apart_from_class((#[trigger] segments[i]).segment),
        forall|i: int|
            0 <= i < segments.len() ==> !((#[trigger] segments[i]).segment.token_info.kind
                == TokenKind::Class && segments[i].segment.token_info.flags.optional),
        are_settled(
            object_plan::comparator_infos(segments, captured, definitions),
            definitions,
        ),
    ensures
        ({
            let infos = object_plan::comparator_infos(segments, captured, definitions);
            &&& is_aligned(infos)
            &&& forall|i: int|
                0 <= i < infos.len() ==> (#[trigger] infos[i]).regex_pattern is Some
                    && is_valid_apart_from_class(infos[i].segment) && (object_plan::fills_field(
                    infos[i],
                ) <==> infos[i].segment.token_info.kind == TokenKind::Capturing
                    && infos[i].regex_pattern->0.len() > 0)
        }),
    decreases segments.len(),
{
    if segments.len() > 0 {
        let segment = segments[0].segment;
        let rest = segments.skip(1);
        let takes = segment.token_info.kind != TokenKind::Literal
            && object_plan::takes_captured_class(segment.token_info.flags);
        let left = if takes && captured.len() > 0 {
            captured.skip(1)
        } else {
            captured
        };
        assert forall|i: int| 0 <= i < rest.len() implies is_valid_apart_from_class(
            (#[trigger] rest[i]).segment,
        ) && !(rest[i].segment.token_info.kind == TokenKind::Class
            && rest[i].segment.token_info.flags.optional) by {
            assert(rest[i] == segments[i + 1]);
        }
        let infos = object_plan::comparator_infos(segments, captured, definitions);
        let more = object_plan::comparator_infos(rest, left, definitions);
        assert(infos.len() > more.len() ==> infos == seq![infos[0]] + more);
        assert(infos.len() <= more.len() ==> infos == more);
        assert(are_settled(more, definitions)) by {
            assert forall|i: int|
                0 <= i < more.len() && (#[trigger] more[i]).segment.token_info.kind
                    == TokenKind::Capturing implies (more[i].new_class_type matches Some(class)
                ==> class.len() > 0 && is_settled(class, more[i].segment, definitions)) by {
                if infos.len() > more.len() {
                    assert(infos[i + 1] == more[i]);
                } else {
                    assert(infos[i] == more[i]);
                }
            }
        }
        lemma_infos_are_aligned(rest, left, definitions);
        assert(is_valid_apart_from_class(segments[0].segment));
        if infos.len() > more.len() {
            let info = infos[0];
            assert(infos == seq![info] + more);
            if segment.token_info.kind == TokenKind::Literal {
                plan::law_escaped_text_captures_nothing(segment.token_info.token);
            } else if takes {
                lemma_info_groups(info, info.new_class_type, definitions);
            } else {
                lemma_info_groups(info, segment.token_info.class_type, definitions);
            }
            assert forall|i: int| 0 <= i < infos.len() implies plan::group_count(
                (#[trigger] infos[i]).regex_pattern->0,
            ) == (if infos[i].segment.token_info.kind == TokenKind::Capturing
                && infos[i].regex_pattern->0.len() > 0 {
                1nat
            } else {
                0nat
            }) && infos[i].regex_pattern is Some && is_valid_apart_from_class(infos[i].segment) && (
            object_plan::fills_field(infos[i]) <==> infos[i].segment.token_info.kind
                == TokenKind::Capturing && infos[i].regex_pattern->0.len() > 0) by {
                if i > 0 {
                    assert(infos[i] == more[i - 1]);
                }
            }
        } else {
            assert(infos == more);
        }
    }
}

/// The first expressions give the first names, as many as they have groups.
proof fn lemma_names_follow_groups(infos: Seq<ObjComparatorTokenInfoView>)
    requires
        is_aligned(infos),
        are_told(infos),
    ensures
        object_plan::field_names(infos).len() == groups_in(object_plan::patterns_of(infos)),
    decreases infos.len(),
{
    let parts = object_plan::patterns_of(infos);
    if infos.len() > 0 {
        let before = infos.drop_last();
        assert forall|i: int| 0 <= i < before.len() implies is_valid_apart_from_class(
            (#[trigger] before[i]).segment,
        ) && (object_plan::fills_field(before[i]) <==> before[i].segment.token_info.kind
            == TokenKind::Capturing && before[i].regex_pattern->0.len() > 0)
            && plan::group_count(before[i].regex_pattern->0) == (if before[i].segment.token_info.kind
            == TokenKind::Capturing && before[i].regex_pattern->0.len() > 0 {
            1nat
        } else {
            0nat
        }) by {
            assert(before[i] == infos[i]);
        }
        lemma_names_follow_groups(before);
        assert(parts.drop_last() =~= object_plan::patterns_of(before));
        let last = infos[infos.len() - 1];
        assert(is_valid_apart_from_class(last.segment));
        assert(parts.last() == last.regex_pattern->0);
    }
}

proof fn lemma_names_extend(infos: Seq<ObjComparatorTokenInfoView>, i: int)
    requires
        0 <= i <= infos.len(),
    ensures
        object_plan::field_names(infos.take(i)).len() <= object_plan::field_names(infos).len(),
        object_plan::field_names(infos.take(i)) == object_plan::field_names(infos).take(
            object_plan::field_names(infos.take(i)).len() as int,
        ),
    decreases infos.len() - i,
{
    if i == infos.len() {
        assert(infos.take(i) == infos);
        let all = object_plan::field_names(infos);
        assert(all.take(all.len() as int) == all);
    } else {
        lemma_names_extend(infos, i + 1);
        assert(infos.take(i + 1).drop_last() == infos.take(i));
        let some = object_plan::field_names(infos.take(i));
        let more = object_plan::field_names(infos.take(i + 1));
        let all = object_plan::field_names(infos);
        assert(some == more.take(some.len() as int));
        assert(more.take(some.len() as int) == all.take(some.len() as int));
    }
}

/// Whether expressions give fields just where they belong to captures and are not empty.
spec fn are_told(infos: Seq<ObjComparatorTokenInfoView>) -> bool {
    forall|i: int|
        0 <= i < infos.len() ==> is_valid_apart_from_class((#[trigger] infos[i]).segment) && (
        object_plan::fills_field(infos[i]) <==> infos[i].segment.token_info.kind
            == TokenKind::Capturing && infos[i].regex_pattern->0.len() > 0)
}

proof fn lemma_plan_is_aligned(
    pattern: CompiledPatternView,
    captured: Seq<Option<Seq<char>>>,
    definitions: Map<Seq<char>, Seq<char>>,
)
    requires
        is_orderly(pattern, captured, definitions),
    ensures
        ({
            let segments = plan::class_plan(pattern.segments).segments;
            let infos = object_plan::comparator_infos(segments, captured, definitions);
            is_aligned(infos) && are_told(infos)
        }),
{
    let segments = plan::class_plan(pattern.segments).segments;
    split::lemma_word_tokens(pattern.source);
    lemma_segments_are_valid(split::split_tokens(pattern.source));
    let told = compiled::segments_of(split::split_tokens(pattern.source));
    assert(pattern.is_compiled());
    assert(told == Ok::<Seq<TelSegmentView>, Seq<char>>(pattern.segments));
    let list = told->Ok_0;
    assert(forall|k: int| 0 <= k < list.len() ==> is_valid(#[trigger] list[k]));
    assert forall|k: int| 0 <= k < segments.len() implies is_valid_apart_from_class(
        (#[trigger] segments[k]).segment,
    ) && !(segments[k].segment.token_info.kind == TokenKind::Class
        && segments[k].segment.token_info.flags.optional) by {
        let own = pattern.segments[k];
        assert(segments[k] == plan::compiled_segment(own));
        assert(is_valid(own));
    }
    lemma_infos_are_aligned(segments, captured, definitions);
}

proof fn lemma_name_stands_at_its_group(infos: Seq<ObjComparatorTokenInfoView>, i: int)
    requires
        is_aligned(infos),
        are_told(infos),
        0 <= i < infos.len(),
        plan::group_count(infos[i].regex_pattern->0) > 0,
    ensures
        ({
            let at = plan::group_count(object_plan::object_comparator(infos.take(i)));
            let names = object_plan::field_names(infos);
            at < names.len() && infos[i].segment.token_info.var_name == Some(names[at as int])
        }),
{
    let first = infos.take(i);
    let next = infos.take(i + 1);
    assert(is_aligned(first)) by {
        assert forall|k: int| 0 <= k < first.len() implies plan::group_count(
            (#[trigger] first[k]).regex_pattern->0,
        ) == (if first[k].segment.token_info.kind == TokenKind::Capturing
            && first[k].regex_pattern->0.len() > 0 {
            1nat
        } else {
            0nat
        }) by {
            assert(first[k] == infos[k]);
        }
    }
    assert(are_told(first)) by {
        assert forall|k: int| 0 <= k < first.len() implies is_valid_apart_from_class(
            (#[trigger] first[k]).segment,
        ) && (object_plan::fills_field(first[k]) <==> first[k].segment.token_info.kind
            == TokenKind::Capturing && first[k].regex_pattern->0.len() > 0) by {
            assert(first[k] == infos[k]);
        }
    }
    lemma_names_follow_groups(first);
    law_parts_capture_what_they_capture(object_plan::patterns_of(first));
    lemma_names_extend(infos, i + 1);
    assert(next.drop_last() == first);
    assert(next.last() == infos[i]);
    let some = object_plan::field_names(first);
    let more = object_plan::field_names(next);
    let all = object_plan::field_names(infos);
    assert(object_plan::fills_field(infos[i]));
    assert(is_valid_apart_from_class(infos[i].segment));
    assert(more == some.push(infos[i].segment.token_info.var_name->0));
    assert(more[some.len() as int] == all[some.len() as int]);
}

/// A field is filled from what its own segment matched: the pattern of a plan captures one group
/// for each name, in the same order. The segment `i` that captures has a group just where its
/// expression is not empty, and its name then stands at the place of that group; an optional
/// segment that is absent has neither.
pub proof fn law_each_field_has_its_group(
    pattern: CompiledPatternView,
    captured: Seq<Option<Seq<char>>>,
    mode: MatchMode,
    prefix: Option<usize>,
    definitions: Map<Seq<char>, Seq<char>>,
    i: int,
)
    requires
        is_orderly(pattern, captured, definitions),
    ensures
        ({
            let segments = plan::class_plan(pattern.segments).segments;
            let infos = object_plan::comparator_infos(segments, captured, definitions);
            let made = object_plan::object_plan(segments, captured, mode, prefix, definitions);
            &&& plan::group_count(made.pattern) == made.variable_names.len()
            &&& is_aligned(infos)
            &&& 0 <= i < infos.len() && plan::group_count(infos[i].regex_pattern->0) > 0 ==> {
                let at = plan::group_count(object_plan::object_comparator(infos.take(i)));
                &&& at < made.variable_names.len()
                &&& infos[i].segment.token_info.var_name == Some(made.variable_names[at as int])
            }
        }),
{
    let segments = plan::class_plan(pattern.segments).segments;
    let infos = object_plan::comparator_infos(segments, captured, definitions);
    lemma_plan_is_aligned(pattern, captured, definitions);
    lemma_names_follow_groups(infos);
    law_parts_capture_what_they_capture(object_plan::patterns_of(infos));
    law_anchors_capture_nothing(object_plan::object_comparator(infos), mode, prefix);
    if 0 <= i < infos.len() && plan::group_count(infos[i].regex_pattern->0) > 0 {
        lemma_name_stands_at_its_group(infos, i);
    }
}

} // verus!
