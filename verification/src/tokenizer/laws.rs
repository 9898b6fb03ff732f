//! What types tell of tokens.

use crate::offsets;
use crate::regex;
use crate::text;
use crate::token_model;
use crate::token_model::{Classes, Definitions};
use crate::tokenizer;
use crate::unicode;
use vstd::prelude::*;
use vstd::utf8;

verus! {

/// Whether a text holds nothing but the digits from `0` to `9`.
pub open spec fn is_digits(s: Seq<char>) -> bool {
    forall|i: int| 0 <= i < s.len() ==> '0' <= #[trigger] s[i] && s[i] <= '9'
}

/// Whether a character is a letter from `A` to `Z`, of either case.
pub open spec fn is_latin(c: char) -> bool {
    ('A' <= c && c <= 'Z') || ('a' <= c && c <= 'z')
}

/// Whether a text holds nothing but letters from `A` to `Z`, of either case.
pub open spec fn is_letters(s: Seq<char>) -> bool {
    forall|i: int| 0 <= i < s.len() ==> is_latin(#[trigger] s[i])
}

/// Whether a text holds nothing but letters and digits.
pub open spec fn is_letters_and_digits(s: Seq<char>) -> bool {
    forall|i: int|
        0 <= i < s.len() ==> is_latin(#[trigger] s[i]) || ('0' <= s[i] && s[i] <= '9')
}

/// Whether a text holds nothing but letters, digits, hyphens and apostrophes.
pub open spec fn is_wordlike(s: Seq<char>) -> bool {
    forall|i: int|
        0 <= i < s.len() ==> is_latin(#[trigger] s[i]) || ('0' <= s[i] && s[i] <= '9') || s[i]
            == '-' || s[i] == '\''
}

/// Whether a text holds some letter.
pub open spec fn holds_letter(s: Seq<char>) -> bool {
    exists|i: int| 0 <= i < s.len() && is_latin(#[trigger] s[i])
}

/// Whether a text holds some digit.
pub open spec fn holds_digit(s: Seq<char>) -> bool {
    exists|i: int| 0 <= i < s.len() && '0' <= #[trigger] s[i] && s[i] <= '9'
}

/// Whether a text is a Canadian postal code, possibly with white space, hyphens and underscores in
/// it.
pub open spec fn is_spread_postal_code(s: Seq<char>) -> bool {
    let t = s.filter(|c: char| !unicode::is_white(c) && c != '-' && c != '_');
    &&& t.len() == 6
    &&& is_latin(t[0]) && is_latin(t[2]) && is_latin(t[4])
    &&& '0' <= t[1] <= '9'
    &&& '0' <= t[3] <= '9'
    &&& '0' <= t[5] <= '9'
}

proof fn lemma_compacted_is_filtered(s: Seq<char>)
    ensures
        tokenizer::compacted(s) == s.filter(
            |c: char| !unicode::is_white(c) && c != '-' && c != '_',
        ),
    decreases s.len(),
{
    reveal(Seq::filter);
    if s.len() > 0 {
        lemma_compacted_is_filtered(s.drop_last());
    }
}

/// What the parts of shapes say, in terms of the characters of a token.
proof fn lemma_shapes(token: Seq<char>)
    ensures
        tokenizer::made_of(token, false, true, false, false) == is_digits(token),
        tokenizer::made_of(token, true, false, false, false) == is_letters(token),
        tokenizer::made_of(token, true, true, false, false) == is_letters_and_digits(token),
        tokenizer::made_of(token, true, true, true, true) == is_wordlike(token),
        tokenizer::has_letter(token) == holds_letter(token),
        tokenizer::has_digit(token) == holds_digit(token),
        tokenizer::is_postal_code(tokenizer::compacted(token)) == is_spread_postal_code(token),
        tokenizer::made_of(token, false, true, true, false) == (is_wordlike(token)
            && !holds_letter(token) && !token.contains('\'')),
        tokenizer::made_of(token, true, false, true, true) == (is_wordlike(token) && !holds_digit(
            token,
        )),
        is_wordlike(token) ==> utf8::is_ascii_chars(token),
{
    lemma_compacted_is_filtered(token);
    assert(tokenizer::made_of(token, false, true, false, false) ==> is_digits(token)) by {
        if tokenizer::made_of(token, false, true, false, false) {
            assert forall|i: int| 0 <= i < token.len() implies '0' <= #[trigger] token[i]
                && token[i] <= '9' by {
                assert(tokenizer::is_one_of(token[i], false, true, false, false));
            }
        }
    }
    assert(tokenizer::made_of(token, true, false, false, false) ==> is_letters(token)) by {
        if tokenizer::made_of(token, true, false, false, false) {
            assert forall|i: int| 0 <= i < token.len() implies is_latin(#[trigger] token[i]) by {
                assert(tokenizer::is_one_of(token[i], true, false, false, false));
            }
        }
    }
    assert(tokenizer::made_of(token, true, true, false, false) ==> is_letters_and_digits(token)) by {
        if tokenizer::made_of(token, true, true, false, false) {
            assert forall|i: int| 0 <= i < token.len() implies is_latin(#[trigger] token[i]) || (
            '0' <= token[i] && token[i] <= '9') by {
                assert(tokenizer::is_one_of(token[i], true, true, false, false));
            }
        }
    }
    assert(tokenizer::made_of(token, true, true, true, true) ==> is_wordlike(token)) by {
        if tokenizer::made_of(token, true, true, true, true) {
            assert forall|i: int| 0 <= i < token.len() implies is_latin(#[trigger] token[i]) || (
            '0' <= token[i] && token[i] <= '9') || token[i] == '-' || token[i] == '\'' by {
                assert(tokenizer::is_one_of(token[i], true, true, true, true));
            }
        }
    }
    if tokenizer::has_letter(token) {
        let i = choose|i: int|
            0 <= i < token.len() && unicode::is_ascii_letter(#[trigger] token[i]);
        assert(is_latin(token[i]));
    }
    if holds_letter(token) {
        let i = choose|i: int| 0 <= i < token.len() && is_latin(#[trigger] token[i]);
        assert(unicode::is_ascii_letter(token[i]));
    }
    if tokenizer::has_digit(token) {
        let i = choose|i: int| 0 <= i < token.len() && unicode::is_digit(#[trigger] token[i]);
        assert('0' <= token[i] && token[i] <= '9');
    }
    if holds_digit(token) {
        let i = choose|i: int| 0 <= i < token.len() && '0' <= #[trigger] token[i] && token[i] <= '9';
        assert(unicode::is_digit(token[i]));
    }
    if tokenizer::made_of(token, false, true, true, false) {
        assert forall|i: int| 0 <= i < token.len() implies !is_latin(#[trigger] token[i]) && token[i]
            != '\'' && ('0' <= token[i] && token[i] <= '9' || token[i] == '-') by {
            assert(tokenizer::is_one_of(token[i], false, true, true, false));
        }
    }
    if is_wordlike(token) && !holds_letter(token) && !token.contains('\'') {
        assert forall|i: int| 0 <= i < token.len() implies tokenizer::is_one_of(
            #[trigger] token[i],
            false,
            true,
            true,
            false,
        ) by {
            assert(!is_latin(token[i]));
            assert(token[i] != '\'');
        }
    }
    if tokenizer::made_of(token, true, false, true, true) {
        assert forall|i: int| 0 <= i < token.len() implies !('0' <= #[trigger] token[i] && token[i]
            <= '9') && (is_latin(token[i]) || token[i] == '-' || token[i] == '\'') by {
            assert(tokenizer::is_one_of(token[i], true, false, true, true));
        }
    }
    if is_wordlike(token) && !holds_digit(token) {
        assert forall|i: int| 0 <= i < token.len() implies tokenizer::is_one_of(
            #[trigger] token[i],
            true,
            false,
            true,
            true,
        ) by {
            assert(!('0' <= token[i] && token[i] <= '9'));
        }
    }
    if is_wordlike(token) {
        assert forall|i: int| 0 <= i < token.len() implies '\0' <= #[trigger] token[i]
            <= '\u{7f}' by {}
    }
}

/// The names of types differ.
proof fn lemma_names_differ()
    ensures
        "NUM"@ != "ALPHA"@,
        "NUM"@ != "NUM_EXTENDED"@,
        "NUM"@ != "ALPHA_NUM"@,
        "NUM"@ != "ALPHA_EXTENDED"@,
        "NUM"@ != "ALPHA_NUM_EXTENDED"@,
        "NUM"@ != "POSTALCODE"@,
        "ALPHA"@ != "NUM_EXTENDED"@,
        "ALPHA"@ != "ALPHA_NUM"@,
        "ALPHA"@ != "ALPHA_EXTENDED"@,
        "ALPHA"@ != "ALPHA_NUM_EXTENDED"@,
        "ALPHA"@ != "POSTALCODE"@,
        "NUM_EXTENDED"@ != "ALPHA_NUM"@,
        "NUM_EXTENDED"@ != "ALPHA_EXTENDED"@,
        "NUM_EXTENDED"@ != "ALPHA_NUM_EXTENDED"@,
        "NUM_EXTENDED"@ != "POSTALCODE"@,
        "ALPHA_NUM"@ != "ALPHA_EXTENDED"@,
        "ALPHA_NUM"@ != "ALPHA_NUM_EXTENDED"@,
        "ALPHA_NUM"@ != "POSTALCODE"@,
        "ALPHA_EXTENDED"@ != "ALPHA_NUM_EXTENDED"@,
        "ALPHA_EXTENDED"@ != "POSTALCODE"@,
        "ALPHA_NUM_EXTENDED"@ != "POSTALCODE"@,
{
    reveal_strlit("NUM");
    reveal_strlit("ALPHA");
    reveal_strlit("NUM_EXTENDED");
    reveal_strlit("ALPHA_NUM");
    reveal_strlit("ALPHA_EXTENDED");
    reveal_strlit("ALPHA_NUM_EXTENDED");
    reveal_strlit("POSTALCODE");
    assert("NUM"@.len() == 3 && "ALPHA"@.len() == 5 && "NUM_EXTENDED"@.len() == 12
        && "ALPHA_NUM"@.len() == 9 && "ALPHA_EXTENDED"@.len() == 14 && "ALPHA_NUM_EXTENDED"@.len()
        == 18 && "POSTALCODE"@.len() == 10);
}

proof fn lemma_postal_code_mixes(token: Seq<char>)
    requires
        is_spread_postal_code(token),
    ensures
        holds_letter(token),
        holds_digit(token),
{
    let keep = |c: char| !unicode::is_white(c) && c != '-' && c != '_';
    let t = token.filter(keep);
    token.lemma_filter_contains_rev(keep, t[0]);
    token.lemma_filter_contains_rev(keep, t[1]);
    let i = choose|i: int| 0 <= i < token.len() && token[i] == t[0];
    let j = choose|j: int| 0 <= j < token.len() && token[j] == t[1];
    assert(token.contains(t[0]));
    assert(token.contains(t[1]));
    assert(is_latin(token[i]));
    assert('0' <= token[j] && token[j] <= '9');
}

/// A token of digits is a number, and a token of letters a word, whatever other types there are.
pub proof fn law_plain_tokens_have_plain_types(token: Seq<char>, names: Set<Seq<char>>)
    requires
        token.len() > 0,
    ensures
        is_digits(token) && names.contains("NUM"@) ==> tokenizer::fast_type(token, names) == Some(
            "NUM"@,
        ),
        is_letters(token) && names.contains("ALPHA"@) ==> tokenizer::fast_type(token, names)
            == Some("ALPHA"@),
{
    lemma_shapes(token);
    if is_digits(token) || is_letters(token) {
        assert(is_wordlike(token)) by {
            assert forall|i: int| 0 <= i < token.len() implies is_latin(#[trigger] token[i]) || (
            '0' <= token[i] && token[i] <= '9') || token[i] == '-' || token[i] == '\'' by {
                if is_letters(token) {
                    assert(is_latin(token[i]));
                }
            }
        }
        if is_spread_postal_code(token) {
            lemma_postal_code_mixes(token);
            let i = choose|i: int| 0 <= i < token.len() && is_latin(#[trigger] token[i]);
            let j = choose|j: int|
                0 <= j < token.len() && '0' <= #[trigger] token[j] && token[j] <= '9';
            assert(is_latin(token[i]) && '0' <= token[j] && token[j] <= '9');
            assert(is_letters(token) ==> is_latin(token[j]));
        }
        if is_letters(token) {
            assert(is_latin(token[0]));
        }
    }
}

/// The type that a shape tells fits the token.
pub proof fn law_told_type_fits(token: Seq<char>, names: Set<Seq<char>>)
    ensures
        tokenizer::fast_type(token, names) matches Some(name) ==> {
            &&& token.len() > 0
            &&& utf8::is_ascii_chars(token)
            &&& names.contains(name)
            &&& name == "POSTALCODE"@ ==> is_spread_postal_code(token)
            &&& name == "NUM"@ ==> is_digits(token)
            &&& name == "ALPHA"@ ==> is_letters(token)
            &&& name == "NUM_EXTENDED"@ ==> is_wordlike(token) && holds_digit(token)
                && !holds_letter(token) && !token.contains('\'')
            &&& name == "ALPHA_EXTENDED"@ ==> is_wordlike(token) && holds_letter(token)
                && !holds_digit(token)
            &&& name == "ALPHA_NUM"@ ==> is_letters_and_digits(token) && holds_letter(token)
                && holds_digit(token)
            &&& name == "ALPHA_NUM_EXTENDED"@ ==> is_wordlike(token) && holds_letter(token)
                && holds_digit(token)
            &&& name == "POSTALCODE"@ || name == "NUM"@ || name == "ALPHA"@ || name
                == "NUM_EXTENDED"@ || name == "ALPHA_EXTENDED"@ || name == "ALPHA_NUM"@ || name
                == "ALPHA_NUM_EXTENDED"@
        },
{
    lemma_shapes(token);
    lemma_names_differ();
}

/// A token that is a postal code has that type wherever there is one.
pub proof fn law_postal_codes_are_told(token: Seq<char>, names: Set<Seq<char>>)
    requires
        utf8::is_ascii_chars(token),
        is_spread_postal_code(token),
        names.contains("POSTALCODE"@),
    ensures
        tokenizer::fast_type(token, names) == Some("POSTALCODE"@),
{
    lemma_shapes(token);
    lemma_postal_code_mixes(token);
}

/// Where there are all types, each word of letters, digits, hyphens and apostrophes has the
/// narrowest that fits it, and is told apart by what it holds.
pub proof fn law_narrowest_type_is_told(token: Seq<char>, names: Set<Seq<char>>)
    requires
        is_wordlike(token),
        !(names.contains("POSTALCODE"@) && is_spread_postal_code(token)),
    ensures
        holds_digit(token) && !holds_letter(token) && !is_digits(token) && !token.contains('\'')
            && names.contains("NUM_EXTENDED"@) ==> tokenizer::fast_type(token, names) == Some(
            "NUM_EXTENDED"@,
        ),
        holds_letter(token) && !holds_digit(token) && !is_letters(token) && names.contains(
            "ALPHA_EXTENDED"@,
        ) ==> tokenizer::fast_type(token, names) == Some("ALPHA_EXTENDED"@),
        holds_letter(token) && holds_digit(token) && is_letters_and_digits(token)
            && names.contains("ALPHA_NUM"@) ==> tokenizer::fast_type(token, names) == Some(
            "ALPHA_NUM"@,
        ),
        holds_letter(token) && holds_digit(token) && !is_letters_and_digits(token)
            && names.contains("ALPHA_NUM_EXTENDED"@) ==> tokenizer::fast_type(token, names) == Some(
            "ALPHA_NUM_EXTENDED"@,
        ),
        is_digits(token) && token.len() > 0 && !names.contains("NUM"@) && names.contains(
            "NUM_EXTENDED"@,
        ) ==> tokenizer::fast_type(token, names) == Some("NUM_EXTENDED"@),
        is_letters(token) && token.len() > 0 && !names.contains("ALPHA"@) && names.contains(
            "ALPHA_EXTENDED"@,
        ) ==> tokenizer::fast_type(token, names) == Some("ALPHA_EXTENDED"@),
        is_letters_and_digits(token) && holds_letter(token) && holds_digit(token)
            && !names.contains("ALPHA_NUM"@) && names.contains("ALPHA_NUM_EXTENDED"@)
            ==> tokenizer::fast_type(token, names) == Some("ALPHA_NUM_EXTENDED"@),
{
    lemma_shapes(token);
    if token.len() > 0 {
        if is_digits(token) {
            assert('0' <= token[0] && token[0] <= '9');
            assert(holds_digit(token));
            if holds_letter(token) {
                let i = choose|i: int| 0 <= i < token.len() && is_latin(#[trigger] token[i]);
                assert('0' <= token[i] && token[i] <= '9');
            }
            assert(!token.contains('\'')) by {
                if token.contains('\'') {
                    let i = choose|i: int| 0 <= i < token.len() && token[i] == '\'';
                    assert('0' <= token[i] && token[i] <= '9');
                }
            }
        }
        if is_letters(token) {
            assert(is_latin(token[0]));
            assert(holds_letter(token));
            if holds_digit(token) {
                let i = choose|i: int|
                    0 <= i < token.len() && '0' <= #[trigger] token[i] && token[i] <= '9';
                assert(is_latin(token[i]));
            }
        }
    }
}

/// A token outside ASCII, or with a character that belongs to no word, has no type by its shape
/// alone, unless it is a postal code.
pub proof fn law_other_tokens_have_no_shape(token: Seq<char>, names: Set<Seq<char>>)
    ensures
        token.len() == 0 || !utf8::is_ascii_chars(token) ==> tokenizer::fast_type(token, names)
            is None,
        !is_wordlike(token) && !is_spread_postal_code(token) ==> tokenizer::fast_type(token, names)
            is None,
{
    lemma_shapes(token);
    if is_digits(token) || is_letters(token) || is_letters_and_digits(token) {
        assert(is_wordlike(token)) by {
            assert forall|i: int| 0 <= i < token.len() implies is_latin(#[trigger] token[i]) || (
            '0' <= token[i] && token[i] <= '9') || token[i] == '-' || token[i] == '\'' by {
                if is_digits(token) {
                    assert('0' <= token[i] && token[i] <= '9');
                } else if is_letters(token) {
                    assert(is_latin(token[i]));
                }
            }
        }
    }
}

/// Whatever the engine says, a token of digits has the type NUM and a token of letters the type
/// ALPHA, where the definitions know these types.
pub proof fn law_plain_tokens_are_typed_plainly(
    name: Seq<char>,
    token: Seq<char>,
    definitions: Definitions,
)
    requires
        tokenizer::is_type(name, token, definitions),
        token.len() > 0,
    ensures
        is_digits(token) && token_model::definition_names(definitions).contains("NUM"@) ==> name
            == "NUM"@,
        is_letters(token) && token_model::definition_names(definitions).contains("ALPHA"@) ==> name
            == "ALPHA"@,
{
    law_plain_tokens_have_plain_types(token, token_model::definition_names(definitions));
}

/// Where the shape of a token tells nothing, its type is the name of the first definition that is
/// said to match it, and the token itself where none is.
pub proof fn law_first_definition_wins(
    token: Seq<char>,
    definitions: Definitions,
    verdicts: Seq<Option<bool>>,
    i: int,
)
    requires
        verdicts.len() == definitions.len(),
        tokenizer::fast_type(token, token_model::definition_names(definitions)) is None,
    ensures
        0 <= i < verdicts.len() && verdicts[i] == Some(true) && (forall|j: int|
            0 <= j < i ==> #[trigger] verdicts[j] != Some(true)) ==> tokenizer::type_by(
            token,
            definitions,
            verdicts,
        ) == definitions[i].0,
        (forall|j: int| 0 <= j < verdicts.len() ==> #[trigger] verdicts[j] != Some(true))
            ==> tokenizer::type_by(token, definitions, verdicts) == token,
{
    lemma_first_definition(definitions, verdicts, i);
}

proof fn lemma_first_definition(definitions: Definitions, verdicts: Seq<Option<bool>>, i: int)
    requires
        verdicts.len() == definitions.len(),
    ensures
        0 <= i < verdicts.len() && verdicts[i] == Some(true) && (forall|j: int|
            0 <= j < i ==> #[trigger] verdicts[j] != Some(true)) ==> tokenizer::first_matching(
            definitions,
            verdicts,
        ) == Some(definitions[i].0),
        (forall|j: int| 0 <= j < verdicts.len() ==> #[trigger] verdicts[j] != Some(true))
            ==> tokenizer::first_matching(definitions, verdicts) is None,
    decreases definitions.len(),
{
    if definitions.len() > 0 {
        let before = verdicts.drop_last();
        let n = verdicts.len() - 1;
        lemma_first_definition(definitions.drop_last(), before, i);
        if forall|j: int| 0 <= j < verdicts.len() ==> #[trigger] verdicts[j] != Some(true) {
            assert forall|j: int| 0 <= j < before.len() implies #[trigger] before[j] != Some(
                true,
            ) by {
                assert(before[j] == verdicts[j]);
            }
            assert(verdicts[n] != Some(true));
        }
        if 0 <= i < verdicts.len() && verdicts[i] == Some(true) && (forall|j: int|
            0 <= j < i ==> #[trigger] verdicts[j] != Some(true)) {
            if i < n {
                assert(before[i] == verdicts[i]);
                assert forall|j: int| 0 <= j < i implies #[trigger] before[j] != Some(true) by {
                    assert(before[j] == verdicts[j]);
                }
            } else {
                assert forall|j: int| 0 <= j < before.len() implies #[trigger] before[j] != Some(
                    true,
                ) by {
                    assert(before[j] == verdicts[j]);
                }
            }
        }
    }
}

/// A definition that is tried later does not matter where an earlier one matches.
pub proof fn law_later_definitions_do_not_matter(
    token: Seq<char>,
    definitions: Definitions,
    verdicts: Seq<Option<bool>>,
    other: (Seq<char>, Seq<char>),
    verdict: Option<bool>,
)
    requires
        verdicts.len() == definitions.len(),
        exists|i: int| 0 <= i < verdicts.len() && #[trigger] verdicts[i] == Some(true),
    ensures
        tokenizer::first_matching(definitions.push(other), verdicts.push(verdict))
            == tokenizer::first_matching(definitions, verdicts),
        tokenizer::first_matching(definitions, verdicts) is Some,
{
    assert(definitions.push(other).drop_last() == definitions);
    assert(verdicts.push(verdict).drop_last() == verdicts);
    lemma_some_match(definitions, verdicts);
}

proof fn lemma_some_match(definitions: Definitions, verdicts: Seq<Option<bool>>)
    requires
        verdicts.len() == definitions.len(),
        exists|i: int| 0 <= i < verdicts.len() && #[trigger] verdicts[i] == Some(true),
    ensures
        tokenizer::first_matching(definitions, verdicts) is Some,
    decreases definitions.len(),
{
    let i = choose|i: int| 0 <= i < verdicts.len() && #[trigger] verdicts[i] == Some(true);
    if i < verdicts.len() - 1 {
        assert(verdicts.drop_last()[i] == Some(true));
        lemma_some_match(definitions.drop_last(), verdicts.drop_last());
    }
}

/// A token that no class lists has its type for a class, one that a single class lists that class,
/// and one that several list their names in the order of the list with `|` between them; white
/// space is its own class whatever lists it.
pub proof fn law_listed_classes_come_first(
    token: Seq<char>,
    name: Seq<char>,
    before: Classes,
    class: (Seq<char>, Seq<Seq<char>>),
    after: Classes,
)
    requires
        exists|i: int| 0 <= i < token.len() && !unicode::is_white(#[trigger] token[i]),
    ensures
        is_listed_nowhere(before, token) ==> tokenizer::class_by(token, name, before) == name,
        is_listed_nowhere(before, token) && is_listed_nowhere(after, token) && class.1.contains(
            token,
        ) ==> tokenizer::class_by(token, name, before.push(class) + after) == class.0,
        !is_listed_nowhere(before, token) && class.1.contains(token) ==> tokenizer::class_by(
            token,
            name,
            before.push(class),
        ) == tokenizer::class_by(token, name, before) + "|"@ + class.0,
        !class.1.contains(token) ==> tokenizer::class_by(token, name, before.push(class))
            == tokenizer::class_by(token, name, before),
{
    let i = choose|i: int| 0 <= i < token.len() && !unicode::is_white(#[trigger] token[i]);
    assert(!crate::text::in_class(crate::text::CharClass::White, token[i]));
    assert(before.push(class).drop_last() == before);
    lemma_holders(before, token);
    lemma_holders(after, token);
    let some = token_model::holders(before, token);
    let with = token_model::holders(before.push(class), token);
    if class.1.contains(token) {
        assert(with == some.push(class.0));
        assert(with.drop_last() == some);
        if some.len() == 0 {
            assert(with.len() == 1);
        }
    }
    if is_listed_nowhere(after, token) {
        lemma_holders_of_rest(before.push(class), after, token);
    }
}

/// Whether no class lists a token.
pub open spec fn is_listed_nowhere(classes: Classes, token: Seq<char>) -> bool {
    forall|i: int| 0 <= i < classes.len() ==> !(#[trigger] classes[i]).1.contains(token)
}

proof fn lemma_holders(classes: Classes, token: Seq<char>)
    ensures
        token_model::holders(classes, token).len() == 0 <==> is_listed_nowhere(classes, token),
    decreases classes.len(),
{
    if classes.len() > 0 {
        let before = classes.drop_last();
        lemma_holders(before, token);
        if is_listed_nowhere(classes, token) {
            assert forall|i: int| 0 <= i < before.len() implies !(#[trigger] before[i]).1.contains(
                token,
            ) by {
                assert(before[i] == classes[i]);
            }
            assert(!classes[classes.len() - 1].1.contains(token));
        } else {
            let i = choose|i: int|
                0 <= i < classes.len() && (#[trigger] classes[i]).1.contains(token);
            if i < classes.len() - 1 {
                assert(before[i].1.contains(token));
            }
        }
    }
}

proof fn lemma_holders_of_rest(classes: Classes, rest: Classes, token: Seq<char>)
    requires
        is_listed_nowhere(rest, token),
    ensures
        token_model::holders(classes + rest, token) == token_model::holders(classes, token),
    decreases rest.len(),
{
    let all = classes + rest;
    if rest.len() == 0 {
        assert(all == classes);
    } else {
        let fewer = rest.drop_last();
        assert forall|i: int| 0 <= i < fewer.len() implies !(#[trigger] fewer[i]).1.contains(
            token,
        ) by {
            assert(fewer[i] == rest[i]);
        }
        lemma_holders_of_rest(classes, fewer, token);
        assert(all.drop_last() == classes + fewer);
        assert(!rest[rest.len() - 1].1.contains(token));
    }
}

/// The expression of a definition is anchored at both ends: one that is anchored already stays, and
/// one without anchors is put between them.
pub proof fn law_definitions_are_anchored(pattern: Seq<char>)
    ensures
        token_model::anchored_definition(pattern).len() >= 1,
        token_model::anchored_definition(pattern)[0] == '^',
        token_model::anchored_definition(pattern).last() == '$',
        pattern.len() > 0 && pattern[0] == '^' && pattern.last() == '$'
            ==> token_model::anchored_definition(pattern) == pattern,
        pattern.len() > 0 && pattern[0] != '^' && pattern.last() != '$'
            ==> token_model::anchored_definition(pattern) == seq!['^'] + pattern + seq!['$'],
        pattern.len() > 0 && pattern[0] != '^' && pattern.last() != '$'
            ==> token_model::anchored_definition(seq!['^'] + pattern)
            == token_model::anchored_definition(pattern)
            && token_model::anchored_definition(pattern + seq!['$'])
            == token_model::anchored_definition(pattern),
{
    reveal_strlit("^");
    reveal_strlit("$");
    lemma_anchored(pattern);
    if pattern.len() > 0 && pattern[0] != '^' && pattern.last() != '$' {
        let front = seq!['^'] + pattern;
        let back = pattern + seq!['$'];
        lemma_anchored(front);
        lemma_anchored(back);
        assert(front.skip(1) == pattern);
        assert(back.drop_last() == pattern);
        assert(token_model::without_leading(front, '^') == token_model::without_leading(
            front.skip(1),
            '^',
        ));
        assert(token_model::without_leading(back, '^') == back);
        assert(token_model::without_trailing(back, '$') == token_model::without_trailing(
            back.drop_last(),
            '$',
        ));
        assert(front.last() == pattern.last());
        assert(back[0] == pattern[0]);
    }
}

proof fn lemma_anchored(pattern: Seq<char>)
    ensures
        "^"@ == seq!['^'],
        "$"@ == seq!['$'],
        "^"@.is_prefix_of(pattern) <==> pattern.len() > 0 && pattern[0] == '^',
        "$"@.is_suffix_of(pattern) <==> pattern.len() > 0 && pattern.last() == '$',
{
    reveal_strlit("^");
    reveal_strlit("$");
    assert("^"@ =~= seq!['^']);
    assert("$"@ =~= seq!['$']);
    if pattern.len() > 0 {
        assert("$"@.is_suffix_of(pattern) <==> pattern.last() == '$') by {
            let tail = pattern.subrange(pattern.len() - 1, pattern.len() as int);
            assert(tail =~= seq![pattern.last()]);
            if pattern.last() == '$' {
                assert(tail =~= "$"@);
            } else {
                assert(tail[0] != "$"@[0]);
            }
        }
        assert("^"@.is_prefix_of(pattern) <==> pattern[0] == '^') by {
            let head = pattern.subrange(0, 1);
            assert(head =~= seq![pattern[0]]);
            if pattern[0] == '^' {
                assert(head =~= "^"@);
            } else {
                assert(head[0] != "^"@[0]);
            }
        }
    }
}

/// A text is cut where it is told to be: at offsets that lie at characters, one after another.
pub proof fn law_cuts_are_made(s: Seq<char>, starts: Seq<usize>, from: int, i: int)
    requires
        0 <= from < offsets::byte_len(s),
        forall|k: int|
            0 <= k < starts.len() ==> from < (#[trigger] starts[k]) < offsets::byte_len(s)
                && offsets::is_edge(s, starts[k] as int),
        forall|k: int, l: int|
            0 <= k < l < starts.len() ==> (#[trigger] starts[k]) < (#[trigger] starts[l]),
        0 <= i <= starts.len(),
    ensures
        tokenizer::pieces(s, starts, from).len() == starts.len() + 1,
        tokenizer::pieces(s, starts, from)[i] == offsets::slice(
            s,
            if i == 0 {
                from
            } else {
                starts[i - 1] as int
            },
            if i == starts.len() {
                offsets::byte_len(s) as int
            } else {
                starts[i] as int
            },
        ),
    decreases starts.len(),
{
    if starts.len() > 0 {
        let rest = starts.skip(1);
        let at = starts[0] as int;
        assert forall|k: int| 0 <= k < rest.len() implies at < (#[trigger] rest[k])
            < offsets::byte_len(s) && offsets::is_edge(s, rest[k] as int) by {
            assert(rest[k] == starts[k + 1]);
        }
        assert forall|k: int, l: int| 0 <= k < l < rest.len() implies (#[trigger] rest[k]) < (
        #[trigger] rest[l]) by {
            assert(rest[k] == starts[k + 1] && rest[l] == starts[l + 1]);
        }
        if i > 0 {
            law_cuts_are_made(s, rest, at, i - 1);
            assert(tokenizer::pieces(s, starts, from)[i] == tokenizer::pieces(s, rest, at)[i - 1]);
        } else {
            law_cuts_are_made(s, rest, at, 0);
        }
    }
}

/// An offset that lies at or before the last cut, or inside a character, cuts nothing.
pub proof fn law_other_offsets_cut_nothing(s: Seq<char>, at: usize, starts: Seq<usize>, from: int)
    requires
        at <= from || !offsets::is_edge(s, at as int),
    ensures
        tokenizer::pieces(s, seq![at] + starts, from) == tokenizer::pieces(s, starts, from),
{
    assert((seq![at] + starts).skip(1) =~= starts);
}

/// The word edges of an ASCII text are, in order, the positions where a character of a word stands
/// next to what is none.
pub proof fn law_edges_lie_between_words_and_gaps(s: Seq<char>, i: int, at: usize)
    requires
        0 <= i,
        s.len() < usize::MAX,
    ensures
        regex::word_edges_from(s, i).contains(at) <==> i <= at <= s.len() && (at > 0 && text::is_word(
            s[at - 1],
        )) != (at < s.len() && text::is_word(s[at as int])),
        forall|k: int, l: int|
            0 <= k < l < regex::word_edges_from(s, i).len() ==> (#[trigger] regex::word_edges_from(
                s,
                i,
            )[k]) < (#[trigger] regex::word_edges_from(s, i)[l]),
    decreases s.len() + 1 - i,
{
    lemma_edges(s, i);
    let all = regex::word_edges_from(s, i);
    if i <= s.len() {
        law_edges_lie_between_words_and_gaps(s, i + 1, at);
        let rest = regex::word_edges_from(s, i + 1);
        if regex::is_word_edge(s, i) {
            assert(all =~= seq![i as usize] + rest);
            if all.contains(at) {
                let k = choose|k: int| 0 <= k < all.len() && all[k] == at;
                if k > 0 {
                    assert(rest[k - 1] == at);
                }
            }
            if rest.contains(at) {
                let k = choose|k: int| 0 <= k < rest.len() && rest[k] == at;
                assert(all[k + 1] == at);
            }
            if at == i {
                assert(all[0] == at);
            }
            lemma_edges(s, i + 1);
            assert forall|k: int, l: int| 0 <= k < l < all.len() implies (#[trigger] all[k]) < (
            #[trigger] all[l]) by {
                assert(all[l] == rest[l - 1]);
                if k > 0 {
                    assert(all[k] == rest[k - 1]);
                }
            }
        }
    }
}

proof fn lemma_edges(s: Seq<char>, i: int)
    requires
        0 <= i,
        s.len() < usize::MAX,
    ensures
        forall|k: int|
            0 <= k < regex::word_edges_from(s, i).len() ==> i <= #[trigger] regex::word_edges_from(
                s,
                i,
            )[k] <= s.len(),
    decreases s.len() + 1 - i,
{
    if i <= s.len() {
        lemma_edges(s, i + 1);
        let all = regex::word_edges_from(s, i);
        let rest = regex::word_edges_from(s, i + 1);
        if regex::is_word_edge(s, i) {
            assert forall|k: int| 0 <= k < all.len() implies i <= #[trigger] all[k] <= s.len() by {
                if k > 0 {
                    assert(all[k] == rest[k - 1]);
                }
            }
        }
    }
}

/// Where the engine does not find the word edges, a text that holds something is one token; where it
/// does, the tokens are the parts between them.
pub proof fn law_text_without_edges_is_one_token(
    r: tokenizer::TokenizedResult,
    s: Seq<char>,
    definitions: Definitions,
    classes: Option<Classes>,
    replies: tokenizer::Replies,
)
    requires
        tokenizer::is_tokenized_by(r, s, definitions, classes, replies),
    ensures
        !replies.edges && s.len() > 0 ==> r.tokens.deep_view() == seq![s],
        !replies.edges && s.len() == 0 ==> r.tokens.deep_view().len() == 0,
        replies.edges ==> r.tokens.deep_view() == tokenizer::word_pieces(s),
{
    offsets::lemma_slice_all(s);
    reveal_with_fuel(utf8::encode_utf8, 2);
    if s.len() > 0 {
        assert(utf8::encode_scalar(s[0] as u32).len() > 0);
    }
}

} // verus!
