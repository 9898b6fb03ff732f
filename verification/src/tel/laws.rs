//! What holds of the classes that segments ask for.

use crate::tel::plan;
use crate::tel::segment;
use crate::tel::{ClassConstraintView, MatchMode, TelSegmentView, TokenKind, TypeModifierSet};
use crate::text;
use crate::text::laws as text_laws;
use vstd::prelude::*;

verus! {

/// The name of the class of tokens that may hold letters, digits, and hyphens and apostrophes.
pub open spec fn class_name(alpha: bool, numeric: bool, extended: bool) -> Seq<char> {
    if alpha && numeric {
        if extended {
            "ALPHA_NUM_EXTENDED"@
        } else {
            "ALPHA_NUM"@
        }
    } else if alpha {
        if extended {
            "ALPHA_EXTENDED"@
        } else {
            "ALPHA"@
        }
    } else {
        if extended {
            "NUM_EXTENDED"@
        } else {
            "NUM"@
        }
    }
}

/// The group that captures one of several classes.
pub open spec fn group_over(names: Seq<Seq<char>>) -> Seq<char> {
    "((?:"@ + text::join(names, seq!['|']) + "))"@
}

/// The alternatives of a group `((?:A|B|..))`.
pub open spec fn alternatives(group: Seq<char>) -> Seq<Seq<char>> {
    text::split_on(group.subrange(4, group.len() - 2), '|')
}

/// Whether no name holds a `|`.
pub open spec fn are_names(names: Seq<Seq<char>>) -> bool {
    names.len() > 0 && forall|i: int|
        0 <= i < names.len() ==> !(#[trigger] names[i]).contains('|')
}

/// The alternatives of a group over names are the names.
pub proof fn lemma_alternatives(names: Seq<Seq<char>>)
    requires
        are_names(names),
    ensures
        alternatives(group_over(names)) == names,
        text::between(group_over(names), "((?:"@, "))"@) == Some(text::join(names, seq!['|'])),
{
    reveal_strlit("((?:");
    reveal_strlit("))");
    let inner = text::join(names, seq!['|']);
    let group = group_over(names);
    assert(group.subrange(4, group.len() - 2) == inner);
    text_laws::law_joined_parts_come_apart(names, '|');
    text_laws::law_between_is_what_was_put_between("((?:"@, inner, "))"@);
}

/// The names of classes, from the widest to the narrowest.
spec fn all_names() -> Seq<Seq<char>> {
    seq![
        "ALPHA_NUM_EXTENDED"@,
        "ALPHA_NUM"@,
        "ALPHA_EXTENDED"@,
        "ALPHA"@,
        "NUM_EXTENDED"@,
        "NUM"@,
    ]
}

proof fn lemma_class_names()
    ensures
        "ALPHA_NUM_EXTENDED"@.len() == 18,
        "ALPHA_NUM"@.len() == 9,
        "ALPHA_EXTENDED"@.len() == 14,
        "ALPHA"@.len() == 5,
        "NUM_EXTENDED"@.len() == 12,
        "NUM"@.len() == 3,
        !"ALPHA_NUM_EXTENDED"@.contains('|'),
        !"ALPHA_NUM"@.contains('|'),
        !"ALPHA_EXTENDED"@.contains('|'),
        !"ALPHA"@.contains('|'),
        !"NUM_EXTENDED"@.contains('|'),
        !"NUM"@.contains('|'),
{
    reveal_strlit("ALPHA_NUM_EXTENDED");
    reveal_strlit("ALPHA_NUM");
    reveal_strlit("ALPHA_EXTENDED");
    reveal_strlit("ALPHA");
    reveal_strlit("NUM_EXTENDED");
    reveal_strlit("NUM");
}

proof fn lemma_join_two(a: Seq<char>, b: Seq<char>)
    ensures
        text::join(seq![a, b], seq!['|']) == a + seq!['|'] + b,
{
    assert(seq![a, b].drop_last() == seq![a]);
    assert(text::join(seq![a], seq!['|']) == a);
}

proof fn lemma_join_three(a: Seq<char>, b: Seq<char>, c: Seq<char>)
    ensures
        text::join(seq![a, b, c], seq!['|']) == a + seq!['|'] + b + seq!['|'] + c,
{
    assert(seq![a, b, c].drop_last() == seq![a, b]);
    lemma_join_two(a, b);
}

proof fn lemma_join_all()
    ensures
        text::join(all_names(), seq!['|']) == "ALPHA_NUM_EXTENDED"@ + seq!['|'] + "ALPHA_NUM"@
            + seq!['|'] + "ALPHA_EXTENDED"@ + seq!['|'] + "ALPHA"@ + seq!['|'] + "NUM_EXTENDED"@
            + seq!['|'] + "NUM"@,
{
    let all = all_names();
    lemma_join_three(all[0], all[1], all[2]);
    let four = seq![all[0], all[1], all[2], all[3]];
    let five = seq![all[0], all[1], all[2], all[3], all[4]];
    assert(all.drop_last() == five);
    assert(five.drop_last() == four);
    assert(four.drop_last() == seq![all[0], all[1], all[2]]);
    assert(text::join(four, seq!['|']) == text::join(four.drop_last(), seq!['|']) + seq!['|']
        + all[3]);
    assert(text::join(five, seq!['|']) == text::join(four, seq!['|']) + seq!['|'] + all[4]);
}

/// The groups of type modifiers, as groups over names.
proof fn lemma_modifier_groups(types: TypeModifierSet, modifier: Option<Seq<char>>)
    requires
        !types.strict,
        types.alpha || types.numeric,
        !segment::marks(modifier, ','),
    ensures
        plan::modifier_group(types, modifier) == Some(group_over(accepted(types))),
        are_names(accepted(types)),
{
    lemma_class_names();
    reveal_strlit("((?:");
    reveal_strlit("))");
    reveal_strlit("ALPHA_NUM_EXTENDED");
    reveal_strlit("ALPHA_NUM");
    reveal_strlit("ALPHA_EXTENDED");
    reveal_strlit("ALPHA");
    reveal_strlit("NUM_EXTENDED");
    reveal_strlit("NUM");
    let bar = seq!['|'];
    if types.alpha && types.numeric && types.extended {
        lemma_join_all();
        reveal_strlit("((?:ALPHA_NUM_EXTENDED|ALPHA_NUM|ALPHA_EXTENDED|ALPHA|NUM_EXTENDED|NUM))");
        assert(group_over(all_names())
            =~= "((?:ALPHA_NUM_EXTENDED|ALPHA_NUM|ALPHA_EXTENDED|ALPHA|NUM_EXTENDED|NUM))"@);
    } else if types.alpha && types.numeric {
        lemma_join_three("ALPHA_NUM"@, "ALPHA"@, "NUM"@);
        reveal_strlit("((?:ALPHA_NUM|ALPHA|NUM))");
        assert(group_over(seq!["ALPHA_NUM"@, "ALPHA"@, "NUM"@]) =~= "((?:ALPHA_NUM|ALPHA|NUM))"@);
    } else if types.alpha && types.extended {
        lemma_join_two("ALPHA_EXTENDED"@, "ALPHA"@);
        reveal_strlit("((?:ALPHA_EXTENDED|ALPHA))");
        assert(group_over(seq!["ALPHA_EXTENDED"@, "ALPHA"@]) =~= "((?:ALPHA_EXTENDED|ALPHA))"@);
    } else if types.numeric && types.extended {
        lemma_join_two("NUM_EXTENDED"@, "NUM"@);
        reveal_strlit("((?:NUM_EXTENDED|NUM))");
        assert(group_over(seq!["NUM_EXTENDED"@, "NUM"@]) =~= "((?:NUM_EXTENDED|NUM))"@);
    } else if types.alpha {
        reveal_strlit("((?:ALPHA))");
        assert(text::join(seq!["ALPHA"@], bar) == "ALPHA"@);
        assert(group_over(seq!["ALPHA"@]) =~= "((?:ALPHA))"@);
    } else {
        reveal_strlit("((?:NUM))");
        assert(text::join(seq!["NUM"@], bar) == "NUM"@);
        assert(group_over(seq!["NUM"@]) =~= "((?:NUM))"@);
    }
    let names = accepted(types);
    assert forall|i: int| 0 <= i < names.len() implies !(#[trigger] names[i]).contains('|') by {}
}

/// The classes that type modifiers accept, in the order in which they are tried.
spec fn accepted(types: TypeModifierSet) -> Seq<Seq<char>> {
    if types.alpha && types.numeric && types.extended {
        all_names()
    } else if types.alpha && types.numeric {
        seq!["ALPHA_NUM"@, "ALPHA"@, "NUM"@]
    } else if types.alpha && types.extended {
        seq!["ALPHA_EXTENDED"@, "ALPHA"@]
    } else if types.numeric && types.extended {
        seq!["NUM_EXTENDED"@, "NUM"@]
    } else if types.alpha {
        seq!["ALPHA"@]
    } else {
        seq!["NUM"@]
    }
}

/// Type modifiers accept the class that they name and every class within it, and no other: a class
/// is an alternative of their group just where it holds letters only if there is `@`, digits only
/// if there is `#`, and hyphens and apostrophes only if there is `%`.
pub proof fn law_modifiers_accept_the_classes_within(
    types: TypeModifierSet,
    modifier: Option<Seq<char>>,
    alpha: bool,
    numeric: bool,
    extended: bool,
)
    requires
        !types.strict,
        types.alpha || types.numeric,
        !segment::marks(modifier, ','),
        alpha || numeric,
    ensures
        plan::modifier_group(types, modifier) is Some,
        alternatives(plan::modifier_group(types, modifier)->0).contains(
            class_name(alpha, numeric, extended),
        ) <==> (alpha ==> types.alpha) && (numeric ==> types.numeric) && (extended
            ==> types.extended),
        alternatives(plan::modifier_group(types, modifier)->0)[0] == class_name(
            types.alpha,
            types.numeric,
            types.extended,
        ),
{
    lemma_modifier_groups(types, modifier);
    lemma_alternatives(accepted(types));
    lemma_class_names();
    let names = accepted(types);
    let name = class_name(alpha, numeric, extended);
    if (alpha ==> types.alpha) && (numeric ==> types.numeric) && (extended ==> types.extended) {
        if types.alpha && types.numeric && types.extended {
            assert(names[0] == "ALPHA_NUM_EXTENDED"@ && names[1] == "ALPHA_NUM"@ && names[2]
                == "ALPHA_EXTENDED"@ && names[3] == "ALPHA"@ && names[4] == "NUM_EXTENDED"@
                && names[5] == "NUM"@);
        } else if types.alpha && types.numeric {
            assert(names[0] == "ALPHA_NUM"@ && names[1] == "ALPHA"@ && names[2] == "NUM"@);
        } else if types.extended {
            assert(names[0] == name || names[1] == name);
        } else {
            assert(names[0] == name);
        }
    } else if names.contains(name) {
        let i = choose|i: int| 0 <= i < names.len() && names[i] == name;
        assert(names[i].len() == name.len());
    }
}

/// More type modifiers accept more classes.
pub proof fn law_more_modifiers_accept_more(
    a: TypeModifierSet,
    b: TypeModifierSet,
    in_a: Option<Seq<char>>,
    in_b: Option<Seq<char>>,
    class: Seq<char>,
)
    requires
        !a.strict && !b.strict,
        a.alpha || a.numeric,
        a.alpha ==> b.alpha,
        a.numeric ==> b.numeric,
        a.extended ==> b.extended,
        !segment::marks(in_a, ','),
        !segment::marks(in_b, ','),
        alternatives(plan::modifier_group(a, in_a)->0).contains(class),
    ensures
        alternatives(plan::modifier_group(b, in_b)->0).contains(class),
{
    lemma_modifier_groups(a, in_a);
    lemma_modifier_groups(b, in_b);
    lemma_alternatives(accepted(a));
    lemma_alternatives(accepted(b));
    lemma_accepted_grows(a, b, class);
}

proof fn lemma_accepted_grows(a: TypeModifierSet, b: TypeModifierSet, class: Seq<char>)
    requires
        a.alpha || a.numeric,
        a.alpha ==> b.alpha,
        a.numeric ==> b.numeric,
        a.extended ==> b.extended,
        accepted(a).contains(class),
    ensures
        accepted(b).contains(class),
{
    let names = accepted(a);
    let i = choose|i: int| 0 <= i < names.len() && names[i] == class;
    let more = accepted(b);
    if b.alpha && b.numeric && b.extended {
        assert(more[0] == "ALPHA_NUM_EXTENDED"@ && more[1] == "ALPHA_NUM"@ && more[2]
            == "ALPHA_EXTENDED"@ && more[3] == "ALPHA"@ && more[4] == "NUM_EXTENDED"@ && more[5]
            == "NUM"@);
        lemma_accepted_is_listed(a, i);
    } else if b.alpha && b.numeric {
        assert(more[0] == "ALPHA_NUM"@ && more[1] == "ALPHA"@ && more[2] == "NUM"@);
        lemma_accepted_is_listed(a, i);
    } else if b.extended {
        assert(more[0] == class || more[1] == class);
    } else {
        assert(more[0] == class);
    }
}

proof fn lemma_accepted_is_listed(types: TypeModifierSet, i: int)
    requires
        types.alpha || types.numeric,
        0 <= i < accepted(types).len(),
    ensures
        ({
            let name = accepted(types)[i];
            ||| name == "ALPHA_NUM_EXTENDED"@ && types.extended
            ||| name == "ALPHA_EXTENDED"@ && types.extended
            ||| name == "NUM_EXTENDED"@ && types.extended
            ||| name == "ALPHA_NUM"@
            ||| name == "ALPHA"@
            ||| name == "NUM"@
        }),
{
    let names = accepted(types);
    if types.alpha && types.numeric && types.extended {
        assert(names.len() == 6);
    }
}

/// With `=` type modifiers accept the class that they name alone; without any of `@`, `#` and `%`
/// they name none; `%` alone stands for any word, and `,` for a separator whatever else there is.
pub proof fn law_strict_modifiers_accept_one_class(
    types: TypeModifierSet,
    modifier: Option<Seq<char>>,
)
    ensures
        !segment::marks(modifier, ',') && types.strict && (types.alpha || types.numeric)
            ==> plan::modifier_group(types, modifier) == Some(
            class_name(types.alpha, types.numeric, types.extended),
        ),
        !segment::marks(modifier, ',') && !types.alpha && !types.numeric && !types.extended
            ==> plan::modifier_group(types, modifier) is None,
        !segment::marks(modifier, ',') && !types.strict && !types.alpha && !types.numeric
            && types.extended ==> plan::modifier_group(types, modifier) == plan::class_group(
            Some(plan::named_class(Some("WORDX"@))),
        ),
        segment::marks(modifier, ',') ==> plan::modifier_group(types, modifier)
            == plan::class_group(Some("SEPARATOR"@)),
{
    reveal_strlit("((?:");
    reveal_strlit("))");
    reveal_strlit("SEPARATOR");
    reveal_strlit("((?:SEPARATOR))");
    reveal_strlit(r"[\w\-']+");
    reveal_strlit(r"((?:[\w\-']+))");
    reveal_strlit("ALPHA_NUM_EXTENDED");
    reveal_strlit("ALPHA_NUM");
    reveal_strlit("ALPHA_EXTENDED");
    reveal_strlit("NUM_EXTENDED");
    let any = r"[\w\-']+"@;
    assert("((?:"@ + any + "))"@ =~= r"((?:[\w\-']+))"@);
    assert("((?:"@ + "SEPARATOR"@ + "))"@ =~= "((?:SEPARATOR))"@);
    assert(any.len() == 8);
    assert(any[0] != 'A' && any[0] != 'N');
    assert("ALPHA_NUM_EXTENDED"@[0] == 'A' && "ALPHA_NUM"@[0] == 'A' && "ALPHA_EXTENDED"@[0] == 'A'
        && "NUM_EXTENDED"@[0] == 'N' && "SEPARATOR"@[0] == 'S');
}

/// A class that is named accepts what the type modifiers for it accept; any other class accepts
/// itself alone; no name, and `WORDX`, stand for letters, digits, `_`, hyphens and apostrophes, and
/// `WORD` for letters, digits and `_`.
pub proof fn law_named_class_accepts_the_classes_within(
    alpha: bool,
    numeric: bool,
    extended: bool,
    other: Seq<char>,
)
    requires
        alpha || numeric,
    ensures
        plan::class_group(Some(class_name(alpha, numeric, extended))) == plan::modifier_group(
            TypeModifierSet { alpha, numeric, extended, strict: false, greedy: false },
            None,
        ),
        plan::named_class(Some(class_name(alpha, numeric, extended))) == class_name(
            alpha,
            numeric,
            extended,
        ),
        other != "ALPHA_NUM_EXTENDED"@ && other != "ALPHA_EXTENDED"@ && other != "NUM_EXTENDED"@
            && other != "ALPHA_NUM"@ && !other.contains('|') ==> alternatives(
            plan::class_group(Some(other))->0,
        ) == seq![other],
        other != "WORD"@ && other != "WORDX"@ ==> plan::named_class(Some(other)) == other,
        plan::named_class(None) == plan::named_class(Some("WORDX"@)),
        plan::named_class(None) == r"[\w\-']+"@,
        plan::named_class(Some("WORD"@)) == r"[\w]+"@,
{
    lemma_class_names();
    reveal_strlit("WORD");
    reveal_strlit("WORDX");
    reveal_strlit("ALPHA");
    reveal_strlit("NUM");
    reveal_strlit("((?:");
    reveal_strlit("))");
    reveal_strlit("((?:ALPHA))");
    reveal_strlit("((?:NUM))");
    assert("ALPHA"@[0] == 'A' && "WORDX"@[0] == 'W');
    assert("WORD"@.len() == 4 && "WORDX"@.len() == 5);
    assert("((?:"@ + "ALPHA"@ + "))"@ =~= "((?:ALPHA))"@);
    assert("((?:"@ + "NUM"@ + "))"@ =~= "((?:NUM))"@);
    if !other.contains('|') {
        let names = seq![other];
        assert(text::join(names, seq!['|']) == other);
        assert forall|i: int| 0 <= i < names.len() implies !(#[trigger] names[i]).contains('|') by {}
        lemma_alternatives(names);
        assert(group_over(names) == "((?:"@ + other + "))"@);
    }
}

/// A pattern for the whole text is anchored at both ends, one for its start or its end there, and
/// one that may match anywhere nowhere.
pub proof fn law_modes_anchor(comparator: Seq<char>)
    ensures
        plan::anchored(comparator, MatchMode::Whole) == seq!['^'] + comparator + seq!['$'],
        plan::anchored(comparator, MatchMode::Start) == seq!['^'] + comparator,
        plan::anchored(comparator, MatchMode::End) == comparator + seq!['$'],
        plan::anchored(comparator, MatchMode::Any) == comparator,
{
    reveal_strlit("^");
    reveal_strlit("$");
    assert("^"@ =~= seq!['^']);
    assert("$"@ =~= seq!['$']);
}

/// A list of classes keeps those alternatives of a group that it names, in their order, and an
/// exclusion of names keeps the others; where none is left nothing matches but the empty text.
pub proof fn law_lists_keep_what_they_name(
    names: Seq<Seq<char>>,
    items: Seq<Seq<char>>,
    keep: bool,
)
    requires
        are_names(names),
    ensures
        ({
            let kept = names.filter(|name: Seq<char>| items.contains(name) == keep);
            let result = plan::with_components(group_over(names), items, keep);
            &&& kept.len() == 0 ==> result == seq!['(', ')']
            &&& kept.len() > 0 ==> result == group_over(kept) && alternatives(result) == kept
        }),
{
    lemma_alternatives(names);
    text_laws::law_joined_parts_come_apart(names, '|');
    reveal_strlit("()");
    reveal_strlit("|");
    assert("()"@ =~= seq!['(', ')']);
    assert("|"@ =~= seq!['|']);
    let test = |name: Seq<char>| items.contains(name) == keep;
    let kept = names.filter(test);
    if kept.len() > 0 {
        assert forall|i: int| 0 <= i < kept.len() implies !(#[trigger] kept[i]).contains('|') by {
            names.lemma_filter_contains_rev(test, kept[i]);
            let j = choose|j: int| 0 <= j < names.len() && names[j] == kept[i];
            assert(!names[j].contains('|'));
        }
        lemma_alternatives(kept);
    }
}

/// What items of an excluding list take out: `!NAME` the class of that name, `!@` the classes of
/// letters, `!#` those of digits; where there is `%`, `!!@` and `!!#` the extended one of the two
/// and `!!!@` and `!!!#` the other; more than one `!` is an error elsewhere, and what does not
/// begin with `!` takes nothing out.
pub proof fn law_exclusions_take_out(name: Seq<char>, item: Seq<char>, extended: bool)
    requires
        name.len() > 0 ==> name[0] != '!',
        item.len() > 0 ==> item[0] != '!',
    ensures
        plan::excluded_names(item, extended) == Ok::<Option<Seq<Seq<char>>>, Seq<char>>(None),
        name != seq!['@'] && name != seq!['#'] ==> plan::excluded_names(
            seq!['!'] + name,
            extended,
        ) == Ok::<Option<Seq<Seq<char>>>, Seq<char>>(Some(seq![name])),
        plan::excluded_names(seq!['!', '@'], extended) == Ok::<Option<Seq<Seq<char>>>, Seq<char>>(
            Some(seq!["ALPHA_EXTENDED"@, "ALPHA"@]),
        ),
        plan::excluded_names(seq!['!', '#'], extended) == Ok::<Option<Seq<Seq<char>>>, Seq<char>>(
            Some(seq!["NUM_EXTENDED"@, "NUM"@]),
        ),
        plan::excluded_names(seq!['!', '!'] + name, extended) is Ok <==> extended && (name
            == seq!['@'] || name == seq!['#']),
        plan::excluded_names(seq!['!', '!', '!'] + name, extended) is Ok <==> extended && (name
            == seq!['@'] || name == seq!['#']),
        plan::excluded_names(seq!['!', '!', '@'], true) == Ok::<Option<Seq<Seq<char>>>, Seq<char>>(
            Some(seq!["ALPHA_EXTENDED"@]),
        ),
        plan::excluded_names(seq!['!', '!', '#'], true) == Ok::<Option<Seq<Seq<char>>>, Seq<char>>(
            Some(seq!["NUM_EXTENDED"@]),
        ),
        plan::excluded_names(seq!['!', '!', '!', '@'], true) == Ok::<
            Option<Seq<Seq<char>>>,
            Seq<char>,
        >(Some(seq!["ALPHA"@])),
        plan::excluded_names(seq!['!', '!', '!', '#'], true) == Ok::<
            Option<Seq<Seq<char>>>,
            Seq<char>,
        >(Some(seq!["NUM"@])),
{
    reveal_strlit("!");
    reveal_strlit("!!");
    reveal_strlit("!!!");
    reveal_strlit("@");
    reveal_strlit("#");
    reveal_strlit("!!@");
    reveal_strlit("!!#");
    reveal_strlit("!!!@");
    reveal_strlit("!!!#");
    assert("@"@ =~= seq!['@'] && "#"@ =~= seq!['#']);
    assert("!!@"@ =~= seq!['!', '!', '@'] && "!!#"@ =~= seq!['!', '!', '#']);
    assert("!!!@"@ =~= seq!['!', '!', '!', '@'] && "!!!#"@ =~= seq!['!', '!', '!', '#']);
    let one = seq!['!'] + name;
    let two = seq!['!', '!'] + name;
    let three = seq!['!', '!', '!'] + name;
    lemma_bangs(item);
    lemma_bangs(one);
    lemma_bangs(two);
    lemma_bangs(three);
    lemma_bangs(seq!['!', '@']);
    lemma_bangs(seq!['!', '#']);
    lemma_bangs(seq!['!', '!', '@']);
    lemma_bangs(seq!['!', '!', '#']);
    lemma_bangs(seq!['!', '!', '!', '@']);
    lemma_bangs(seq!['!', '!', '!', '#']);
    assert(one.skip(1) == name);
    assert(seq!['!', '@'].skip(1) == seq!['@']);
    assert(seq!['!', '#'].skip(1) == seq!['#']);
    assert(seq!['#'][0] != seq!['@'][0]);
    if two == seq!['!', '!', '@'] || two == seq!['!', '!', '#'] {
        assert(two.skip(2) == name);
        assert(seq!['!', '!', '@'].skip(2) == seq!['@']);
        assert(seq!['!', '!', '#'].skip(2) == seq!['#']);
    }
    if three == seq!['!', '!', '!', '@'] || three == seq!['!', '!', '!', '#'] {
        assert(three.skip(3) == name);
        assert(seq!['!', '!', '!', '@'].skip(3) == seq!['@']);
        assert(seq!['!', '!', '!', '#'].skip(3) == seq!['#']);
    }
    if name == seq!['@'] {
        assert(two == seq!['!', '!', '@']);
        assert(three == seq!['!', '!', '!', '@']);
    }
    if name == seq!['#'] {
        assert(two == seq!['!', '!', '#']);
        assert(three == seq!['!', '!', '!', '#']);
    }
}

proof fn lemma_bangs(s: Seq<char>)
    ensures
        "!"@.is_prefix_of(s) <==> s.len() >= 1 && s[0] == '!',
        "!!"@.is_prefix_of(s) <==> s.len() >= 2 && s[0] == '!' && s[1] == '!',
        "!!!"@.is_prefix_of(s) <==> s.len() >= 3 && s[0] == '!' && s[1] == '!' && s[2] == '!',
{
    reveal_strlit("!");
    reveal_strlit("!!");
    reveal_strlit("!!!");
    if s.len() >= 1 {
        assert(s.subrange(0, 1)[0] == s[0]);
        if s[0] == '!' {
            assert(s.subrange(0, 1) =~= "!"@);
        } else {
            assert("!"@[0] == '!');
        }
    }
    if s.len() >= 2 {
        let t = s.subrange(0, 2);
        assert(t[0] == s[0] && t[1] == s[1]);
        if s[0] == '!' && s[1] == '!' {
            assert(t =~= "!!"@);
        } else {
            assert("!!"@[0] == '!' && "!!"@[1] == '!');
        }
    }
    if s.len() >= 3 {
        let t = s.subrange(0, 3);
        assert(t[0] == s[0] && t[1] == s[1] && t[2] == s[2]);
        if s[0] == '!' && s[1] == '!' && s[2] == '!' {
            assert(t =~= "!!!"@);
        } else {
            assert("!!!"@[0] == '!' && "!!!"@[1] == '!' && "!!!"@[2] == '!');
        }
    }
}

/// Excluding lists take out one item after another.
pub proof fn law_exclusions_follow_one_another(
    group: Seq<char>,
    a: Seq<Seq<char>>,
    b: Seq<Seq<char>>,
    extended: bool,
)
    ensures
        match plan::excluding(group, a, extended) {
            Ok(middle) => plan::excluding(group, a + b, extended) == plan::excluding(
                middle,
                b,
                extended,
            ),
            Err(message) => plan::excluding(group, a + b, extended) == Err::<Seq<char>, Seq<char>>(
                message,
            ),
        },
    decreases b.len(),
{
    if b.len() == 0 {
        assert(a + b == a);
    } else {
        assert((a + b).drop_last() == a + b.drop_last());
        law_exclusions_follow_one_another(group, a, b.drop_last(), extended);
    }
}

/// A class constraint narrows the group of type modifiers: a list to what it names, an exclusion to
/// the rest; a class that is named outright, and `=`, leave it as it is.
pub proof fn law_constraints_narrow(
    names: Seq<Seq<char>>,
    constraint: ClassConstraintView,
    types: TypeModifierSet,
)
    requires
        are_names(names),
    ensures
        types.strict || constraint is Explicit ==> plan::constrained(
            Some(group_over(names)),
            Some(constraint),
            types,
        ) == Ok::<Option<Seq<char>>, Seq<char>>(Some(group_over(names))),
        !types.strict ==> (constraint matches ClassConstraintView::Included(items) ==> {
            let kept = names.filter(|name: Seq<char>| items.contains(name) == true);
            plan::constrained(Some(group_over(names)), Some(constraint), types) == Ok::<
                Option<Seq<char>>,
                Seq<char>,
            >(
                Some(
                    if kept.len() == 0 {
                        seq!['(', ')']
                    } else {
                        group_over(kept)
                    },
                ),
            )
        }),
        plan::constrained(Some(group_over(names)), None, types) == Ok::<
            Option<Seq<char>>,
            Seq<char>,
        >(Some(group_over(names))),
        plan::constrained(None, Some(constraint), types) == Ok::<Option<Seq<char>>, Seq<char>>(
            None,
        ),
{
    lemma_alternatives(names);
    if let ClassConstraintView::Included(items) = constraint {
        law_lists_keep_what_they_name(names, items, true);
    }
}

/// A single exclusion `!NAME` takes one class out of a group and leaves the others.
pub proof fn law_exclusion_leaves_the_others(
    names: Seq<Seq<char>>,
    name: Seq<char>,
    types: TypeModifierSet,
)
    requires
        are_names(names),
        !types.strict,
        name.len() > 0,
        name[0] != '!',
        name != seq!['@'] && name != seq!['#'],
    ensures
        ({
            let kept = names.filter(|other: Seq<char>| seq![name].contains(other) == false);
            plan::constrained(
                Some(group_over(names)),
                Some(ClassConstraintView::Excluded(seq![seq!['!'] + name])),
                types,
            ) == Ok::<Option<Seq<char>>, Seq<char>>(
                Some(
                    if kept.len() == 0 {
                        seq!['(', ')']
                    } else {
                        group_over(kept)
                    },
                ),
            )
        }),
{
    lemma_alternatives(names);
    let group = group_over(names);
    let item = seq!['!'] + name;
    let items = seq![item];
    law_exclusions_take_out(name, Seq::empty(), types.extended);
    law_lists_keep_what_they_name(names, seq![name], false);
    assert(items.drop_last() == Seq::<Seq<char>>::empty());
    assert(plan::excluding(group, items.drop_last(), types.extended) == Ok::<Seq<char>, Seq<char>>(
        group,
    ));
    assert(items.last() == item);
}

/// `+` lets a group take one or more tokens and the blanks between them, as few as will do unless
/// there is `$`; the brackets of the class are dropped unless there is `=`.
pub proof fn law_plus_repeats(class: Seq<char>)
    ensures
        plan::repeated(seq!['('] + class + seq![')'], false, false) == r"((?:"@ + class
            + r"|\s)+?)"@,
        plan::repeated(seq!['('] + class + seq![')'], false, true) == r"((?:"@ + class + r"|\s)+)"@,
        plan::repeated(class, true, false) == r"((?:"@ + class + r"|\s)+?)"@,
        plan::repeated(class, true, true) == r"((?:"@ + class + r"|\s)+)"@,
{
    reveal_strlit("(");
    reveal_strlit(")");
    assert("("@ =~= seq!['('] && ")"@ =~= seq![')']);
    text_laws::law_between_is_what_was_put_between("("@, class, ")"@);
}

/// `?` lets a group match nothing.
pub proof fn law_question_mark_makes_optional(pattern: Seq<char>)
    ensures
        plan::optional(pattern + seq![')']) == pattern + seq![')', '?'],
        pattern.len() > 0 && pattern.last() != ')' ==> plan::optional(pattern) == seq!['(']
            + pattern + seq![')', '?'],
{
    reveal_strlit("(");
    reveal_strlit(")");
    reveal_strlit("?");
    reveal_strlit(")?");
    let closed = pattern + seq![')'];
    assert(closed.subrange(closed.len() - 1, closed.len() as int) =~= ")"@);
    assert(closed + "?"@ =~= pattern + seq![')', '?']);
    if pattern.len() > 0 && pattern.last() != ')' {
        let tail = pattern.subrange(pattern.len() - 1, pattern.len() as int);
        assert(tail[0] == pattern.last());
        assert(")"@[0] == ')');
        assert("("@ + pattern + ")?"@ =~= seq!['('] + pattern + seq![')', '?']);
    }
}

/// A segment without modifiers asks for its class; one with type modifiers and no class of its own
/// for the class that they name, narrowed by its list; one with a class of its own for that class,
/// whatever its type modifiers.
pub proof fn law_segments_ask_for_their_class(segment: TelSegmentView, class: Seq<char>)
    requires
        segment.token_info.flags == segment::flags_of(segment.token_info.modifier),
        segment.type_modifiers == segment::type_modifiers_of(segment.token_info.modifier),
        !segment.token_info.flags.multi_group,
        !segment.token_info.flags.optional,
    ensures
        segment.token_info.modifier is None ==> plan::segment_pattern(segment, Some(class))
            == plan::class_group(Some(class)),
        (segment.type_modifiers.alpha || segment.type_modifiers.numeric
            || segment.type_modifiers.extended) && segment.class_constraint is None && (class
            == r"[\w\-']+"@ || class == r"[\w]+"@) ==> plan::segment_pattern(segment, Some(class))
            == plan::modifier_group(segment.type_modifiers, segment.token_info.modifier),
        (segment.type_modifiers.alpha || segment.type_modifiers.numeric
            || segment.type_modifiers.extended) && (segment.class_constraint is None
            || segment.class_constraint->0 is Explicit) && class != r"[\w\-']+"@ && class
            != r"[\w]+"@ ==> plan::segment_pattern(segment, Some(class)) == Some(class),
{
}

/// `+` and `?` act on what the segment asks for without them: where there is `+`, `?` makes the
/// repeated group optional.
pub proof fn law_quantifiers_act_on_the_class(
    segment: TelSegmentView,
    once: TelSegmentView,
    class: Seq<char>,
)
    requires
        segment.token_info.modifier is Some,
        once.token_info.modifier is Some,
        segment.type_modifiers == once.type_modifiers,
        segment.class_constraint == once.class_constraint,
        segment::marks(segment.token_info.modifier, ',') == segment::marks(
            once.token_info.modifier,
            ',',
        ),
        segment::marks(segment.token_info.modifier, '@') == segment::marks(
            once.token_info.modifier,
            '@',
        ),
        segment::marks(segment.token_info.modifier, '#') == segment::marks(
            once.token_info.modifier,
            '#',
        ),
        segment::marks(segment.token_info.modifier, '%') == segment::marks(
            once.token_info.modifier,
            '%',
        ),
        once.type_modifiers.alpha || once.type_modifiers.numeric || once.type_modifiers.extended,
        !once.token_info.flags.multi_group,
        !once.token_info.flags.optional,
    ensures
        plan::segment_pattern(once, Some(class)) is None ==> plan::segment_pattern(
            segment,
            Some(class),
        ) is None,
        plan::segment_pattern(once, Some(class)) matches Some(p) ==> {
            let many = if segment.token_info.flags.multi_group {
                plan::repeated(p, segment.type_modifiers.strict, segment.type_modifiers.greedy)
            } else {
                p
            };
            plan::segment_pattern(segment, Some(class)) == Some(
                if segment.token_info.flags.optional {
                    plan::optional(many)
                } else {
                    many
                },
            )
        },
{
}

/// What a segment asks for stands between word edges: where a letter, digit, `_`, hyphen or
/// apostrophe begins or ends a word.
pub proof fn law_classes_stand_between_edges(pattern: Seq<char>)
    ensures
        pattern.len() > 0 ==> plan::bounded(pattern)
            == r"(?:(?=[\w\-'])(?<![\w\-'])|(?<=[\w\-'])(?![\w\-']))"@ + pattern
            + r"(?:(?=[\w\-'])(?<![\w\-'])|(?<=[\w\-'])(?![\w\-']))"@,
        pattern.len() == 0 ==> plan::bounded(pattern) == pattern,
{
}

/// The comparator of two lists of segments is that of each, with any white space between them.
pub proof fn law_comparators_join(a: Seq<TelSegmentView>, b: Seq<TelSegmentView>)
    requires
        a.len() > 0,
        b.len() > 0,
    ensures
        plan::class_plan(a + b).comparator == plan::class_plan(a).comparator + r"\s*"@
            + plan::class_plan(b).comparator,
        plan::class_plan(a + b).segments == plan::class_plan(a).segments + plan::class_plan(
            b,
        ).segments,
{
    let all = plan::class_plan(a + b).segments;
    assert(all =~= plan::class_plan(a).segments + plan::class_plan(b).segments);
    let x = plan::substrings(plan::class_plan(a).segments);
    let y = plan::substrings(plan::class_plan(b).segments);
    assert(plan::substrings(all) =~= x + y);
    text_laws::law_joins_join(x, y, r"\s*"@);
}

/// One segment makes one part of the comparator: a literal its text escaped, a capture and a
/// vanishing group what they ask for; and it knows how many groups its part captures.
pub proof fn law_segments_make_their_part(segment: TelSegmentView)
    ensures
        ({
            let made = plan::compiled_segment(segment);
            &&& made.capturing_group_count == plan::group_count(made.class_comparator_substring)
            &&& segment.token_info.kind == TokenKind::Literal ==> made.class_comparator_substring
                == plan::escaped(segment.token_info.token)
            &&& segment.token_info.kind == TokenKind::Capturing || segment.token_info.kind
                == TokenKind::Vanishing ==> match plan::segment_pattern(
                segment,
                Some(plan::named_class(segment.token_info.class_type)),
            ) {
                Some(pattern) => made.class_comparator_substring == plan::bounded(pattern),
                None => made.class_comparator_substring.len() == 0,
            }
            &&& made.segment.token_info.var_name == segment.token_info.var_name
            &&& made.segment.token_info.flags == segment.token_info.flags
            &&& made.segment.token_info.kind == segment.token_info.kind
            &&& made.segment.quantity == segment.quantity
            &&& plan::class_plan(seq![segment]).segments == seq![made]
            &&& plan::class_plan(seq![segment]).comparator == made.class_comparator_substring
        }),
{
    let made = plan::compiled_segment(segment);
    assert(plan::class_plan(seq![segment]).segments =~= seq![made]);
    assert(plan::substrings(seq![made]) =~= seq![made.class_comparator_substring]);
}

/// A text without the backslash before each escaped character.
pub open spec fn unescaped(s: Seq<char>) -> Seq<char>
    decreases s.len(),
{
    if s.len() == 0 {
        s
    } else if s[0] == '\\' && s.len() > 1 {
        seq![s[1]] + unescaped(s.skip(2))
    } else {
        seq![s[0]] + unescaped(s.skip(1))
    }
}

/// Whether an expression stands for one text alone: each character that means something in an
/// expression is escaped.
pub open spec fn is_literal(s: Seq<char>) -> bool
    decreases s.len(),
{
    if s.len() == 0 {
        true
    } else if s[0] == '\\' {
        s.len() > 1 && is_literal(s.skip(2))
    } else {
        !seq!['.', '+', '*', '?', '(', ')', '[', ']', '{', '}', '^', '$', '|'].contains(s[0])
            && is_literal(s.skip(1))
    }
}

/// An escaped text stands for itself alone.
pub proof fn law_escaped_text_is_literal(s: Seq<char>)
    ensures
        is_literal(plan::escaped(s)),
        unescaped(plan::escaped(s)) == s,
    decreases s.len(),
{
    if s.len() > 0 {
        let rest = s.skip(1);
        let tail = plan::escaped(rest);
        let all = plan::escaped(s);
        plan::lemma_escaped_front(s);
        law_escaped_text_is_literal(rest);
        if plan::is_meta(s[0]) {
            assert(all[0] == '\\' && all[1] == s[0]);
            assert(all.skip(2) == tail);
        } else {
            assert(all[0] == s[0]);
            assert(all.skip(1) == tail);
            let metas = seq!['.', '+', '*', '?', '(', ')', '[', ']', '{', '}', '^', '$', '|'];
            if metas.contains(s[0]) {
                let i = choose|i: int| 0 <= i < metas.len() && metas[i] == s[0];
                assert(plan::is_meta(metas[i]));
            }
        }
        assert(seq![s[0]] + rest == s);
    }
}

/// `,` asks for a separator in place of any word, and leaves a class of its own; `=` and `$` alone
/// leave the class as it is; `%` with `=` and no other type asks for a single character of a word.
pub proof fn law_other_modifiers_decide_the_class(segment: TelSegmentView, class: Seq<char>)
    requires
        segment.token_info.flags == segment::flags_of(segment.token_info.modifier),
        segment.type_modifiers == segment::type_modifiers_of(segment.token_info.modifier),
        segment.token_info.modifier is Some,
        segment.class_constraint is None,
        !segment.token_info.modifier->0.contains('+'),
        !segment.token_info.modifier->0.contains('?'),
    ensures
        ({
            let m = segment.token_info.modifier->0;
            let any_word = class == r"[\w\-']+"@ || class == r"[\w]+"@;
            let typed = m.contains('@') || m.contains('#') || m.contains('%');
            &&& m.contains(',') && any_word ==> plan::segment_pattern(segment, Some(class)) == Some(
                "((?:SEPARATOR))"@,
            )
            &&& m.contains(',') && !any_word ==> plan::segment_pattern(segment, Some(class)) == Some(
                class,
            )
            &&& !typed && !m.contains(',') && (m.contains('=') || m.contains('$'))
                ==> plan::segment_pattern(segment, Some(class)) == Some(class)
            &&& m.contains('%') && m.contains('=') && !m.contains('@') && !m.contains('#')
                && !m.contains(',') && any_word ==> plan::segment_pattern(segment, Some(class))
                == Some(r"[\w\-']"@)
            &&& typed || m.contains(',') ==> plan::segment_pattern(segment, None)
                == plan::modifier_group(segment.type_modifiers, segment.token_info.modifier)
        }),
{
}

/// `+` alone repeats the class of the segment, `?` alone makes it optional, and both do both; other
/// modifiers that name no type change nothing of that but that `$` makes the repetition greedy.
pub proof fn law_quantifiers_alone_act_on_the_class(segment: TelSegmentView, class: Seq<char>)
    requires
        segment.token_info.flags == segment::flags_of(segment.token_info.modifier),
        segment.type_modifiers == segment::type_modifiers_of(segment.token_info.modifier),
        segment.token_info.modifier is Some,
        segment.class_constraint is None,
        !segment.token_info.modifier->0.contains('@'),
        !segment.token_info.modifier->0.contains('#'),
        !segment.token_info.modifier->0.contains('%'),
        !segment.token_info.modifier->0.contains(','),
        !segment.token_info.modifier->0.contains('='),
        class.len() > 0,
        class[0] != '(',
        class.last() != ')',
    ensures
        ({
            let m = segment.token_info.modifier->0;
            let many = if m.contains('$') {
                seq!['(', '(', '?', ':'] + class + r"|\s)+)"@
            } else {
                seq!['(', '(', '?', ':'] + class + r"|\s)+?)"@
            };
            let made = plan::segment_pattern(segment, Some(class));
            &&& m.contains('+') && !m.contains('?') ==> made == Some(many)
            &&& m.contains('+') && m.contains('?') ==> made == Some(many + seq!['?'])
            &&& !m.contains('+') && m.contains('?') ==> made == Some(
                seq!['('] + class + seq![')', '?'],
            )
        }),
{
    reveal_strlit("(");
    reveal_strlit(")");
    reveal_strlit("?");
    reveal_strlit(")?");
    reveal_strlit("((?:");
    reveal_strlit(r"|\s)+)");
    reveal_strlit(r"|\s)+?)");
    assert("("@[0] == '(' && ")"@[0] == ')');
    assert(class.subrange(0, 1)[0] == class[0]);
    assert(text::between(class, "("@, ")"@) is None);
    assert(class.subrange(class.len() - 1, class.len() as int)[0] == class.last());
    assert(!")"@.is_suffix_of(class));
    assert("((?:"@ =~= seq!['(', '(', '?', ':']);
    assert("?"@ =~= seq!['?']);
    assert("("@ + class + ")?"@ =~= seq!['('] + class + seq![')', '?']);
    let lazy = "((?:"@ + class + r"|\s)+?)"@;
    let greedy = "((?:"@ + class + r"|\s)+)"@;
    assert(lazy.subrange(lazy.len() - 1, lazy.len() as int) =~= ")"@);
    assert(greedy.subrange(greedy.len() - 1, greedy.len() as int) =~= ")"@);
}

/// A list that takes out what cannot be taken out leaves the segment without a class, and one without
/// a class makes no part of the expression over classes but what follows its name.
pub proof fn law_refused_lists_leave_no_class(segment: TelSegmentView, items: Seq<Seq<char>>)
    requires
        segment.token_info.modifier is Some,
        segment.class_constraint == Some(ClassConstraintView::Excluded(items)),
        segment.type_modifiers.alpha || segment.type_modifiers.numeric
            || segment.type_modifiers.extended,
        plan::constrained(
            plan::modifier_group(segment.type_modifiers, segment.token_info.modifier),
            segment.class_constraint,
            segment.type_modifiers,
        ) is Err,
    ensures
        forall|class: Seq<char>| #[trigger] plan::segment_pattern(segment, Some(class)) is None,
        segment.token_info.kind == TokenKind::Capturing ==> plan::compiled_segment(
            segment,
        ).class_comparator_substring.len() == 0,
{
    assert(plan::segment_pattern(
        segment,
        Some(plan::named_class(segment.token_info.class_type)),
    ) is None);
}

} // verus!
