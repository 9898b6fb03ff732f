//! Cutting a text into tokens and telling their types and classes.

pub mod laws;

use crate::error;
use crate::error::ParseError;
use crate::offsets;
use crate::regex;
use crate::regex::TextRegex;
use crate::text;
use crate::text::CharClass;
use crate::token_model;
use crate::token_model::{Classes, Definitions, TokenModel};
use crate::unicode;
use vstd::hash_map::StringHashMap;
use vstd::hash_set::StringHashSet;
use vstd::prelude::*;
use vstd::utf8;

pub use crate::token_model::{TokenClassList, TokenDefinition};

verus! {

/// The parts of a text from the offset `from` on, cut at the given offsets. An offset that lies at
/// or before the previous cut, or inside a character, cuts nothing.
pub open spec fn pieces(s: Seq<char>, starts: Seq<usize>, from: int) -> Seq<Seq<char>>
    decreases starts.len(),
{
    if starts.len() == 0 {
        if from < offsets::byte_len(s) {
            seq![offsets::slice(s, from, offsets::byte_len(s) as int)]
        } else {
            Seq::empty()
        }
    } else {
        let at = starts[0] as int;
        if from < at && offsets::is_edge(s, at) {
            seq![offsets::slice(s, from, at)] + pieces(s, starts.skip(1), at)
        } else {
            pieces(s, starts.skip(1), from)
        }
    }
}

/// The parts of the text make the text, from the first of them on.
proof fn lemma_pieces_make_text(s: Seq<char>, starts: Seq<usize>, from: int)
    requires
        offsets::is_edge(s, from),
    ensures
        text::concat(pieces(s, starts, from)) == offsets::slice(
            s,
            from,
            offsets::byte_len(s) as int,
        ),
        forall|i: int|
            0 <= i < pieces(s, starts, from).len() ==> (#[trigger] pieces(
                s,
                starts,
                from,
            )[i]).len() > 0,
    decreases starts.len(),
{
    let n = offsets::byte_len(s) as int;
    offsets::lemma_ends(s);
    if starts.len() == 0 {
        if from < n {
            let one = seq![offsets::slice(s, from, n)];
            assert(one.drop_last() == Seq::<Seq<char>>::empty());
            assert(text::concat(one) == text::concat(Seq::empty()) + one.last());
            lemma_part_holds_something(s, from, n);
        } else {
            offsets::lemma_slice_none(s, from);
        }
    } else {
        let at = starts[0] as int;
        if from < at && offsets::is_edge(s, at) {
            lemma_pieces_make_text(s, starts.skip(1), at);
            lemma_concat_front(offsets::slice(s, from, at), pieces(s, starts.skip(1), at));
            offsets::lemma_slice_join(s, from, at, n);
            lemma_part_holds_something(s, from, at);
            let all = pieces(s, starts, from);
            assert forall|i: int| 0 <= i < all.len() implies (#[trigger] all[i]).len() > 0 by {
                if i > 0 {
                    assert(all[i] == pieces(s, starts.skip(1), at)[i - 1]);
                }
            }
        } else {
            lemma_pieces_make_text(s, starts.skip(1), from);
        }
    }
}

proof fn lemma_part_holds_something(s: Seq<char>, from: int, to: int)
    requires
        offsets::is_span(s, from, to),
        from < to,
    ensures
        offsets::slice(s, from, to).len() > 0,
{
    offsets::lemma_slice(s, from, to);
    if offsets::slice(s, from, to).len() == 0 {
        assert(utf8::encode_utf8(offsets::slice(s, from, to)).len() == 0);
    }
}

proof fn lemma_concat_front(first: Seq<char>, rest: Seq<Seq<char>>)
    ensures
        text::concat(seq![first] + rest) == first + text::concat(rest),
    decreases rest.len(),
{
    let all = seq![first] + rest;
    if rest.len() == 0 {
        assert(all.drop_last() == Seq::<Seq<char>>::empty());
        assert(text::concat(all) == text::concat(Seq::empty()) + first);
    } else {
        assert(all.drop_last() == seq![first] + rest.drop_last());
        lemma_concat_front(first, rest.drop_last());
        assert(all.last() == rest.last());
    }
}

/// A text cut at the given byte offsets.
#[must_use]
pub fn split_at_boundaries(input: &str, starts: &[usize]) -> (r: Vec<String>)
    ensures
        r.deep_view() == pieces(input@, starts@, 0),
{
    let len = offsets::len_of(input);
    let mut tokens: Vec<String> = Vec::new();
    let mut from: usize = 0;
    let mut i: usize = 0;
    proof {
        offsets::lemma_ends(input@);
        assert(starts@.skip(0) == starts@);
        assert(tokens.deep_view() + pieces(input@, starts@, 0) == pieces(input@, starts@, 0));
    }
    while i < starts.len()
        invariant
            len == offsets::byte_len(input@),
            i <= starts.len(),
            offsets::is_edge(input@, from as int),
            tokens.deep_view() + pieces(input@, starts@.skip(i as int), from as int) == pieces(
                input@,
                starts@,
                0,
            ),
        decreases starts.len() - i,
    {
        let at = starts[i];
        let ghost rest = starts@.skip(i as int);
        let ghost before = tokens.deep_view();
        proof {
            assert(rest.skip(1) == starts@.skip(i + 1));
        }
        if from < at && offsets::spans(input, from, at) {
            let piece = offsets::slice_of(input, from, at);
            tokens.push(piece.to_string());
            proof {
                assert(tokens.deep_view() == before.push(piece@));
                assert(before.push(piece@) + pieces(input@, rest.skip(1), at as int) == before + (
                seq![piece@] + pieces(input@, rest.skip(1), at as int)));
            }
            from = at;
        }
        i = i + 1;
    }
    let ghost before = tokens.deep_view();
    if from < len {
        proof {
            offsets::lemma_ends(input@);
        }
        let piece = offsets::slice_of(input, from, len);
        tokens.push(piece.to_string());
        assert(tokens.deep_view() == before + seq![piece@]);
    } else {
        assert(before + Seq::<Seq<char>>::empty() == before);
    }
    tokens
}

/// The parts of a text between its word edges.
pub open spec fn word_pieces(s: Seq<char>) -> Seq<Seq<char>> {
    pieces(s, regex::word_edges(s), 0)
}

/// Whether tokens are those of a text: the parts between its word edges, or the whole where the
/// engine gives up on finding them.
pub open spec fn are_tokens(tokens: Seq<Seq<char>>, s: Seq<char>) -> bool {
    tokens == word_pieces(s) || tokens == pieces(s, Seq::empty(), 0)
}

/// The tokens of a text: its words and what stands between them; `None` where the engine gives up
/// on finding the word edges.
#[must_use]
pub fn try_split_input_tokens(input: &str) -> (r: Option<Vec<String>>)
    ensures
        r matches Some(tokens) ==> tokens.deep_view() == word_pieces(input@),
{
    match regex::try_word_edges(input) {
        Some(starts) => Some(split_at_boundaries(input, starts.as_slice())),
        None => None,
    }
}

/// The tokens of a text: its words and what stands between them. Where the engine gives up on
/// finding the word edges, the whole text is one token.
#[must_use]
pub fn split_input_tokens(input: &str) -> (r: Vec<String>)
    ensures
        are_tokens(r.deep_view(), input@),
{
    match try_split_input_tokens(input) {
        Some(tokens) => tokens,
        None => {
            let none: Vec<usize> = Vec::new();
            split_at_boundaries(input, none.as_slice())
        },
    }
}

/// Tokens make the text that they are tokens of, and none of them is empty.
pub proof fn law_tokens_make_text(tokens: Seq<Seq<char>>, s: Seq<char>)
    requires
        are_tokens(tokens, s),
    ensures
        text::concat(tokens) == s,
        forall|i: int| 0 <= i < tokens.len() ==> (#[trigger] tokens[i]).len() > 0,
{
    offsets::lemma_ends(s);
    offsets::lemma_slice_all(s);
    lemma_pieces_make_text(s, regex::word_edges(s), 0);
    lemma_pieces_make_text(s, Seq::empty(), 0);
}

/// The length of the longest prefix of `s` whose characters all belong to words, or all do not.
pub open spec fn stretch_len(s: Seq<char>) -> nat
    decreases s.len(),
{
    if s.len() == 0 {
        0
    } else if s.len() == 1 || text::is_word(s[0]) != text::is_word(s[1]) {
        1
    } else {
        1 + stretch_len(s.skip(1))
    }
}

/// The words of `s` and what stands between them, in order.
pub open spec fn stretches(s: Seq<char>) -> Seq<Seq<char>>
    decreases s.len(),
{
    let n = stretch_len(s) as int;
    if 0 < n <= s.len() {
        seq![s.take(n)] + stretches(s.skip(n))
    } else {
        Seq::empty()
    }
}

proof fn lemma_stretch_is(s: Seq<char>, n: int)
    requires
        0 < n <= s.len(),
        forall|i: int| 0 <= i < n ==> text::is_word(#[trigger] s[i]) == text::is_word(s[0]),
        n < s.len() ==> text::is_word(s[n]) != text::is_word(s[0]),
    ensures
        stretch_len(s) == n,
    decreases n,
{
    if n > 1 {
        let t = s.skip(1);
        assert(text::is_word(s[1]) == text::is_word(s[0]));
        assert forall|i: int| 0 <= i < n - 1 implies text::is_word(#[trigger] t[i])
            == text::is_word(t[0]) by {
            assert(t[i] == s[i + 1]);
        }
        lemma_stretch_is(t, n - 1);
    }
}

proof fn lemma_pieces_are_stretches(s: Seq<char>, from: int, i: int)
    requires
        unicode::is_ascii_text(s),
        s.len() <= usize::MAX,
        0 <= from < i <= s.len(),
        forall|k: int| from <= k < i ==> text::is_word(#[trigger] s[k]) == text::is_word(s[from]),
    ensures
        pieces(s, regex::word_edges_from(s, i), from) == stretches(s.skip(from)),
    decreases s.len() - i,
{
    let rest = s.skip(from);
    offsets::lemma_ascii(s);
    assert(text::is_word(s[i - 1]) == text::is_word(s[from]));
    assert forall|k: int| 0 <= k < i - from implies text::is_word(#[trigger] rest[k])
        == text::is_word(rest[0]) by {
        assert(rest[k] == s[from + k]);
    }
    if i < s.len() && text::is_word(s[i]) == text::is_word(s[from]) {
        assert(!regex::is_word_edge(s, i));
        lemma_pieces_are_stretches(s, from, i + 1);
    } else {
        lemma_stretch_is(rest, i - from);
        offsets::lemma_ascii_slice(s, from, i);
        assert(rest.take(i - from) == s.subrange(from, i));
        assert(rest.skip(i - from) == s.skip(i));
        let edges = regex::word_edges_from(s, i);
        let one = seq![s.subrange(from, i)];
        if i < s.len() {
            assert(regex::is_word_edge(s, i));
            lemma_pieces_are_stretches(s, i, i + 1);
            assert(edges[0] == i);
            assert(edges.skip(1) == regex::word_edges_from(s, i + 1));
        } else {
            assert(stretches(s.skip(i)) == Seq::<Seq<char>>::empty());
            assert(one + Seq::<Seq<char>>::empty() == one);
            assert(regex::word_edges_from(s, i + 1) == Seq::<usize>::empty());
            if regex::is_word_edge(s, i) {
                assert(edges[0] == i);
                assert(edges.skip(1) == Seq::<usize>::empty());
                assert(pieces(s, edges.skip(1), i) == Seq::<Seq<char>>::empty());
            } else {
                assert(edges == Seq::<usize>::empty());
            }
        }
    }
}

/// The tokens of an ASCII text are its words, which are made of letters, digits, `_`, `-` and `'`,
/// and what stands between them.
pub proof fn law_ascii_tokens_are_words_and_gaps(s: Seq<char>)
    requires
        unicode::is_ascii_text(s),
        s.len() <= usize::MAX,
    ensures
        word_pieces(s) == stretches(s),
{
    offsets::lemma_ascii(s);
    let edges = regex::word_edges_from(s, 0);
    let later = regex::word_edges_from(s, 1);
    if regex::is_word_edge(s, 0) {
        assert(edges.skip(1) == later);
        assert(edges[0] == 0);
    }
    if s.len() > 0 {
        lemma_pieces_are_stretches(s, 0, 1);
        assert(s.skip(0) == s);
    } else {
        assert(later == Seq::<usize>::empty());
    }
}

/// Whether a character is of one of the kinds that are switched on: ASCII letters, ASCII digits,
/// hyphens and apostrophes.
pub open spec fn is_one_of(c: char, letters: bool, digits: bool, hyphens: bool, quotes: bool) -> bool {
    (letters && unicode::is_ascii_letter(c)) || (digits && unicode::is_digit(c)) || (hyphens && c
        == '-') || (quotes && c == '\'')
}

/// Whether every character is of one of the kinds that are switched on.
pub open spec fn made_of(s: Seq<char>, letters: bool, digits: bool, hyphens: bool, quotes: bool) -> bool {
    forall|i: int|
        0 <= i < s.len() ==> is_one_of(#[trigger] s[i], letters, digits, hyphens, quotes)
}

/// Whether some character is an ASCII letter.
pub open spec fn has_letter(s: Seq<char>) -> bool {
    exists|i: int| 0 <= i < s.len() && unicode::is_ascii_letter(#[trigger] s[i])
}

/// Whether some character is an ASCII digit.
pub open spec fn has_digit(s: Seq<char>) -> bool {
    exists|i: int| 0 <= i < s.len() && unicode::is_digit(#[trigger] s[i])
}

/// `s` without white space, hyphens and underscores.
pub open spec fn compacted(s: Seq<char>) -> Seq<char>
    decreases s.len(),
{
    if s.len() == 0 {
        Seq::empty()
    } else if unicode::is_white(s.last()) || s.last() == '-' || s.last() == '_' {
        compacted(s.drop_last())
    } else {
        compacted(s.drop_last()).push(s.last())
    }
}

/// Whether letters and digits take turns as in a Canadian postal code.
pub open spec fn is_postal_code(s: Seq<char>) -> bool {
    s.len() == 6 && unicode::is_ascii_letter(s[0]) && unicode::is_digit(s[1])
        && unicode::is_ascii_letter(s[2]) && unicode::is_digit(s[3]) && unicode::is_ascii_letter(
        s[4],
    ) && unicode::is_digit(s[5])
}

/// The type of a token that its shape alone tells, among the names of the definitions.
pub open spec fn fast_type(token: Seq<char>, names: Set<Seq<char>>) -> Option<Seq<char>> {
    if token.len() == 0 || !utf8::is_ascii_chars(token) {
        None
    } else if names.contains("POSTALCODE"@) && is_postal_code(compacted(token)) {
        Some("POSTALCODE"@)
    } else if made_of(token, false, true, false, false) && names.contains("NUM"@) {
        Some("NUM"@)
    } else if made_of(token, true, false, false, false) && names.contains("ALPHA"@) {
        Some("ALPHA"@)
    } else if made_of(token, false, true, true, false) && has_digit(token) && names.contains(
        "NUM_EXTENDED"@,
    ) {
        Some("NUM_EXTENDED"@)
    } else if made_of(token, true, false, true, true) && has_letter(token) && names.contains(
        "ALPHA_EXTENDED"@,
    ) {
        Some("ALPHA_EXTENDED"@)
    } else if made_of(token, true, true, true, true) && has_letter(token) && has_digit(token) {
        if made_of(token, true, true, false, false) && names.contains("ALPHA_NUM"@) {
            Some("ALPHA_NUM"@)
        } else if names.contains("ALPHA_NUM_EXTENDED"@) {
            Some("ALPHA_NUM_EXTENDED"@)
        } else {
            None
        }
    } else {
        None
    }
}

/// Which kinds of characters occur in a text.
struct Shape {
    letter: bool,
    digit: bool,
    hyphen: bool,
    quote: bool,
    other: bool,
}

impl Shape {
    spec fn tells(self, s: Seq<char>) -> bool {
        &&& self.letter == has_letter(s)
        &&& self.digit == has_digit(s)
        &&& self.hyphen == s.contains('-')
        &&& self.quote == s.contains('\'')
        &&& self.other == !made_of(s, true, true, true, true)
    }

    fn only(&self, letters: bool, digits: bool, hyphens: bool, quotes: bool, Ghost(s): Ghost<Seq<char>>) -> (r:
        bool)
        requires
            self.tells(s),
        ensures
            r == made_of(s, letters, digits, hyphens, quotes),
    {
        let r = !self.other && (letters || !self.letter) && (digits || !self.digit) && (hyphens
            || !self.hyphen) && (quotes || !self.quote);
        proof {
            if r {
                assert forall|i: int| 0 <= i < s.len() implies is_one_of(
                    #[trigger] s[i],
                    letters,
                    digits,
                    hyphens,
                    quotes,
                ) by {
                    assert(is_one_of(s[i], true, true, true, true));
                }
            } else if made_of(s, letters, digits, hyphens, quotes) {
                if self.other {
                    assert(made_of(s, true, true, true, true));
                } else if self.letter && !letters {
                    let i = choose|i: int| 0 <= i < s.len() && unicode::is_ascii_letter(#[trigger] s[i]);
                    assert(s[i] == s[i]);
                } else if self.digit && !digits {
                    let i = choose|i: int| 0 <= i < s.len() && unicode::is_digit(#[trigger] s[i]);
                    assert(s[i] == s[i]);
                } else if self.hyphen && !hyphens {
                    let i = choose|i: int| 0 <= i < s.len() && s[i] == '-';
                    assert(s[i] == '-');
                } else {
                    let i = choose|i: int| 0 <= i < s.len() && s[i] == '\'';
                    assert(s[i] == '\'');
                }
            }
        }
        r
    }
}

fn is_letter(c: char) -> (r: bool)
    ensures
        r == unicode::is_ascii_letter(c),
{
    ('A' <= c && c <= 'Z') || ('a' <= c && c <= 'z')
}

fn is_digit(c: char) -> (r: bool)
    ensures
        r == unicode::is_digit(c),
{
    '0' <= c && c <= '9'
}

fn shape_of(token: &str) -> (r: Shape)
    ensures
        r.tells(token@),
{
    let chars = text::chars_of(token);
    let mut letter = false;
    let mut digit = false;
    let mut hyphen = false;
    let mut quote = false;
    let mut other = false;
    let mut i: usize = 0;
    while i < chars.len()
        invariant
            chars@ == token@,
            i <= chars.len(),
            letter == exists|j: int| 0 <= j < i && unicode::is_ascii_letter(#[trigger] token@[j]),
            digit == exists|j: int| 0 <= j < i && unicode::is_digit(#[trigger] token@[j]),
            hyphen == exists|j: int| 0 <= j < i && #[trigger] token@[j] == '-',
            quote == exists|j: int| 0 <= j < i && #[trigger] token@[j] == '\'',
            !other == forall|j: int|
                0 <= j < i ==> is_one_of(#[trigger] token@[j], true, true, true, true),
        decreases chars.len() - i,
    {
        let c = chars[i];
        assert(token@[i as int] == c);
        if is_letter(c) {
            letter = true;
        } else if is_digit(c) {
            digit = true;
        } else if c == '-' {
            hyphen = true;
        } else if c == '\'' {
            quote = true;
        } else {
            other = true;
        }
        i = i + 1;
    }
    Shape { letter, digit, hyphen, quote, other }
}

fn compact(token: &str) -> (r: Vec<char>)
    ensures
        r@ == compacted(token@),
{
    let chars = text::chars_of(token);
    let mut kept: Vec<char> = Vec::new();
    let mut i: usize = 0;
    while i < chars.len()
        invariant
            chars@ == token@,
            i <= chars.len(),
            kept@ == compacted(token@.take(i as int)),
        decreases chars.len() - i,
    {
        let c = chars[i];
        assert(token@.take(i + 1).drop_last() == token@.take(i as int));
        if !(c.is_whitespace() || c == '-' || c == '_') {
            kept.push(c);
        }
        i = i + 1;
    }
    assert(token@.take(i as int) == token@);
    kept
}

/// The type of a token that its shape alone tells, among the names of the definitions.
#[must_use]
pub fn get_token_fast_classifier(token: &str, available_names: &StringHashSet) -> (r: Option<
    String,
>)
    ensures
        r.deep_view() == fast_type(token@, available_names@),
{
    if token.is_empty() || !token.is_ascii() {
        return None;
    }
    if available_names.contains("POSTALCODE") {
        let chars = compact(token);
        if chars.len() == 6 && is_letter(chars[0]) && is_digit(chars[1]) && is_letter(chars[2])
            && is_digit(chars[3]) && is_letter(chars[4]) && is_digit(chars[5]) {
            return Some("POSTALCODE".to_string());
        }
    }
    let shape = shape_of(token);
    if shape.only(false, true, false, false, Ghost(token@)) && available_names.contains("NUM") {
        return Some("NUM".to_string());
    }
    if shape.only(true, false, false, false, Ghost(token@)) && available_names.contains("ALPHA") {
        return Some("ALPHA".to_string());
    }
    if shape.only(false, true, true, false, Ghost(token@)) && shape.digit
        && available_names.contains("NUM_EXTENDED") {
        return Some("NUM_EXTENDED".to_string());
    }
    if shape.only(true, false, true, true, Ghost(token@)) && shape.letter
        && available_names.contains("ALPHA_EXTENDED") {
        return Some("ALPHA_EXTENDED".to_string());
    }
    if shape.only(true, true, true, true, Ghost(token@)) && shape.letter && shape.digit {
        if shape.only(true, true, false, false, Ghost(token@)) && available_names.contains(
            "ALPHA_NUM",
        ) {
            return Some("ALPHA_NUM".to_string());
        }
        if available_names.contains("ALPHA_NUM_EXTENDED") {
            return Some("ALPHA_NUM_EXTENDED".to_string());
        }
    }
    None
}

/// The name of the first definition that is known to match.
pub open spec fn first_matching(definitions: Definitions, verdicts: Seq<Option<bool>>) -> Option<
    Seq<char>,
>
    decreases definitions.len(),
{
    if definitions.len() == 0 || verdicts.len() != definitions.len() {
        None
    } else {
        match first_matching(definitions.drop_last(), verdicts.drop_last()) {
            Some(name) => Some(name),
            None => if verdicts.last() == Some(true) {
                Some(definitions.last().0)
            } else {
                None
            },
        }
    }
}

/// Whether verdicts, one for each definition, are what the engine says of a token, where it says
/// anything.
pub open spec fn are_verdicts(
    verdicts: Seq<Option<bool>>,
    definitions: Definitions,
    token: Seq<char>,
) -> bool {
    verdicts.len() == definitions.len() && forall|i: int|
        0 <= i < verdicts.len() ==> ((#[trigger] verdicts[i]) matches Some(found) ==> found
            == regex::regex_is_match(token_model::anchored_definition(definitions[i].1), token))
}

/// The type of a token: what its shape tells, else the first definition that matches, else the
/// token itself.
pub open spec fn type_by(
    token: Seq<char>,
    definitions: Definitions,
    verdicts: Seq<Option<bool>>,
) -> Seq<char> {
    match fast_type(token, token_model::definition_names(definitions)) {
        Some(name) => name,
        None => match first_matching(definitions, verdicts) {
            Some(name) => name,
            None => token,
        },
    }
}

/// Whether `name` is the type of a token, whatever the engine gave up on.
pub open spec fn is_type(name: Seq<char>, token: Seq<char>, definitions: Definitions) -> bool {
    exists|verdicts: Seq<Option<bool>>|
        #[trigger] are_verdicts(verdicts, definitions, token) && name == type_by(
            token,
            definitions,
            verdicts,
        )
}

/// The class of a token: white space is its own class; else the classes that list the token, else
/// its type.
pub open spec fn class_by(token: Seq<char>, name: Seq<char>, classes: Classes) -> Seq<char> {
    if text::all_in(token, CharClass::White) {
        token
    } else {
        match token_model::listed_class(classes, token) {
            Some(class) => class,
            None => name,
        }
    }
}

/// A text with its tokens, their types and their classes.
#[derive(Debug, PartialEq, Eq)]
pub struct TokenizedResult {
    pub raw_value: String,
    pub tokens: Vec<String>,
    pub types: Vec<String>,
    pub classes: Vec<String>,
}

impl Clone for TokenizedResult {
    fn clone(&self) -> (r: Self)
        ensures
            r.raw_value@ == self.raw_value@,
            r.tokens.deep_view() == self.tokens.deep_view(),
            r.types.deep_view() == self.types.deep_view(),
            r.classes.deep_view() == self.classes.deep_view(),
    {
        TokenizedResult {
            raw_value: self.raw_value.clone(),
            tokens: text::clone_texts(&self.tokens),
            types: text::clone_texts(&self.types),
            classes: text::clone_texts(&self.classes),
        }
    }
}

/// What the engine replies on a text: whether it finds the word edges, and what it says of each
/// token for each definition.
pub struct Replies {
    pub edges: bool,
    pub verdicts: Seq<Seq<Option<bool>>>,
}

/// Whether a result is that of a text with these replies; without classes, none are told.
pub open spec fn is_tokenized_by(
    r: TokenizedResult,
    raw_value: Seq<char>,
    definitions: Definitions,
    classes: Option<Classes>,
    replies: Replies,
) -> bool {
    &&& r.raw_value@ == raw_value
    &&& r.tokens.deep_view() == if replies.edges {
        word_pieces(raw_value)
    } else {
        pieces(raw_value, Seq::empty(), 0)
    }
    &&& replies.verdicts.len() == r.tokens.len()
    &&& r.types.len() == r.tokens.len()
    &&& forall|i: int|
        0 <= i < r.types.len() ==> are_verdicts(
            replies.verdicts[i],
            definitions,
            r.tokens@[i]@,
        ) && (#[trigger] r.types@[i])@ == type_by(
            r.tokens@[i]@,
            definitions,
            replies.verdicts[i],
        )
    &&& match classes {
        None => r.classes.len() == 0,
        Some(classes) => r.classes.len() == r.tokens.len() && forall|i: int|
            0 <= i < r.classes.len() ==> (#[trigger] r.classes@[i])@ == class_by(
                r.tokens@[i]@,
                r.types@[i]@,
                classes,
            ),
    }
}

/// Whether a result is that of a text, whatever the engine gave up on.
pub open spec fn is_tokenized(
    r: TokenizedResult,
    raw_value: Seq<char>,
    definitions: Definitions,
    classes: Option<Classes>,
) -> bool {
    exists|replies: Replies|
        #[trigger] is_tokenized_by(r, raw_value, definitions, classes, replies)
}

/// The type of a token, from what the engine says of it for each definition.
#[must_use]
pub fn type_from_verdicts(
    token: &str,
    definitions: &TokenDefinition,
    available_names: &StringHashSet,
    verdicts: &[Option<bool>],
) -> (r: String)
    requires
        available_names@ == token_model::definition_names(definitions.deep_view()),
        verdicts.len() == definitions.len(),
    ensures
        r@ == type_by(token@, definitions.deep_view(), verdicts@),
{
    if let Some(name) = get_token_fast_classifier(token, available_names) {
        return name;
    }
    let ghost all = definitions.deep_view();
    let mut i: usize = 0;
    while i < verdicts.len()
        invariant
            all == definitions.deep_view(),
            verdicts.len() == definitions.len(),
            i <= verdicts.len(),
            first_matching(all.take(i as int), verdicts@.take(i as int)) is None,
            fast_type(token@, token_model::definition_names(all)) is None,
        decreases verdicts.len() - i,
    {
        proof {
            assert(all.take(i + 1).drop_last() == all.take(i as int));
            assert(verdicts@.take(i + 1).drop_last() == verdicts@.take(i as int));
            assert(all[i as int].0 == definitions@[i as int].0@);
        }
        if let Some(true) = verdicts[i] {
            proof {
                lemma_first_matching_stays(all, verdicts@, i + 1);
            }
            return definitions[i].0.clone();
        }
        i = i + 1;
    }
    proof {
        assert(all.take(i as int) == all);
        assert(verdicts@.take(i as int) == verdicts@);
    }
    token.to_string()
}

/// What matches first among the first definitions matches first among all.
proof fn lemma_first_matching_stays(definitions: Definitions, verdicts: Seq<Option<bool>>, n: int)
    requires
        0 <= n <= definitions.len() == verdicts.len(),
        first_matching(definitions.take(n), verdicts.take(n)) is Some,
    ensures
        first_matching(definitions, verdicts) == first_matching(
            definitions.take(n),
            verdicts.take(n),
        ),
    decreases definitions.len() - n,
{
    if n == definitions.len() {
        assert(definitions.take(n) == definitions);
        assert(verdicts.take(n) == verdicts);
    } else {
        assert(definitions.take(n + 1).drop_last() == definitions.take(n));
        assert(verdicts.take(n + 1).drop_last() == verdicts.take(n));
        lemma_first_matching_stays(definitions, verdicts, n + 1);
    }
}

/// What the engine says of a token for each definition, up to the first that matches.
fn verdicts_on(token: &str, patterns: &[(String, TextRegex)], Ghost(definitions): Ghost<Definitions>) -> (r: Vec<
    Option<bool>,
>)
    requires
        token_model::serve_definitions(patterns@, definitions),
    ensures
        are_verdicts(r@, definitions, token@),
{
    let mut verdicts: Vec<Option<bool>> = Vec::new();
    let mut matched = false;
    let mut i: usize = 0;
    while i < patterns.len()
        invariant
            token_model::serve_definitions(patterns@, definitions),
            i <= patterns.len(),
            verdicts.len() == i,
            forall|j: int|
                0 <= j < i ==> ((#[trigger] verdicts@[j]) matches Some(found) ==> found
                    == regex::regex_is_match(
                    token_model::anchored_definition(definitions[j].1),
                    token@,
                )),
        decreases patterns.len() - i,
    {
        assert(patterns@[i as int].1.source() == token_model::anchored_definition(
            definitions[i as int].1,
        ));
        let verdict = if matched {
            None
        } else {
            regex::try_match(&patterns[i].1, token)
        };
        if let Some(true) = verdict {
            matched = true;
        }
        verdicts.push(verdict);
        i = i + 1;
    }
    verdicts
}

fn token_type(
    token: &str,
    definitions: &TokenDefinition,
    available_names: &StringHashSet,
    patterns: &[(String, TextRegex)],
) -> (r: String)
    requires
        available_names@ == token_model::definition_names(definitions.deep_view()),
        token_model::serve_definitions(patterns@, definitions.deep_view()),
    ensures
        is_type(r@, token@, definitions.deep_view()),
{
    if let Some(name) = get_token_fast_classifier(token, available_names) {
        proof {
            let silent = Seq::new(definitions.deep_view().len(), |i: int| None::<bool>);
            assert(are_verdicts(silent, definitions.deep_view(), token@));
        }
        return name;
    }
    let verdicts = verdicts_on(token, patterns, Ghost(definitions.deep_view()));
    type_from_verdicts(token, definitions, available_names, verdicts.as_slice())
}

fn token_class(token: &str, name: &str, lookup: &StringHashMap<String>, Ghost(classes): Ghost<Classes>) -> (r:
    String)
    requires
        token_model::tells_classes(lookup@, classes),
    ensures
        r@ == class_by(token@, name@, classes),
{
    if text::all_chars_in(token, CharClass::White) {
        return token.to_string();
    }
    match lookup.get(token) {
        Some(class) => class.clone(),
        None => {
            assert(!lookup@.contains_key(token@));
            name.to_string()
        },
    }
}

fn classify_tokens(
    raw_value: &str,
    tokens: Vec<String>,
    definitions: &TokenDefinition,
    available_names: &StringHashSet,
    patterns: &[(String, TextRegex)],
    lookup: Option<&StringHashMap<String>>,
    Ghost(classes): Ghost<Classes>,
) -> (r: TokenizedResult)
    requires
        are_tokens(tokens.deep_view(), raw_value@),
        available_names@ == token_model::definition_names(definitions.deep_view()),
        token_model::serve_definitions(patterns@, definitions.deep_view()),
        lookup matches Some(lookup) ==> token_model::tells_classes(lookup@, classes),
    ensures
        r.tokens == tokens,
        is_tokenized(
            r,
            raw_value@,
            definitions.deep_view(),
            if lookup is Some {
                Some(classes)
            } else {
                None
            },
        ),
{
    let mut types: Vec<String> = Vec::new();
    let mut told: Vec<String> = Vec::new();
    let mut i: usize = 0;
    while i < tokens.len()
        invariant
            available_names@ == token_model::definition_names(definitions.deep_view()),
            token_model::serve_definitions(patterns@, definitions.deep_view()),
            lookup matches Some(lookup) ==> token_model::tells_classes(lookup@, classes),
            i <= tokens.len(),
            types.len() == i,
            forall|j: int|
                0 <= j < i ==> is_type(
                    (#[trigger] types@[j])@,
                    tokens@[j]@,
                    definitions.deep_view(),
                ),
            told.len() == if lookup is Some {
                i
            } else {
                0
            },
            forall|j: int|
                0 <= j < told.len() ==> (#[trigger] told@[j])@ == class_by(
                    tokens@[j]@,
                    types@[j]@,
                    classes,
                ),
        decreases tokens.len() - i,
    {
        let token = tokens[i].as_str();
        let name = token_type(token, definitions, available_names, patterns);
        if let Some(lookup) = lookup {
            told.push(token_class(token, name.as_str(), lookup, Ghost(classes)));
        }
        types.push(name);
        i = i + 1;
    }
    let r = TokenizedResult { raw_value: raw_value.to_string(), tokens, types, classes: told };
    proof {
        let all = definitions.deep_view();
        let replies = Replies {
            edges: r.tokens.deep_view() == word_pieces(raw_value@),
            verdicts: Seq::new(
                r.tokens@.len(),
                |j: int|
                    choose|verdicts: Seq<Option<bool>>|
                        #[trigger] are_verdicts(verdicts, all, r.tokens@[j]@) && r.types@[j]@
                            == type_by(r.tokens@[j]@, all, verdicts),
            ),
        };
        assert forall|j: int| 0 <= j < r.types.len() implies are_verdicts(
            replies.verdicts[j],
            all,
            r.tokens@[j]@,
        ) && (#[trigger] r.types@[j])@ == type_by(r.tokens@[j]@, all, replies.verdicts[j]) by {
            assert(is_type(r.types@[j]@, r.tokens@[j]@, all));
        }
        assert(is_tokenized_by(
            r,
            raw_value@,
            all,
            if lookup is Some {
                Some(classes)
            } else {
                None
            },
            replies,
        ));
    }
    r
}

fn classify_with_list(
    raw_value: &str,
    tokens: Vec<String>,
    definitions: &TokenDefinition,
    patterns: &[(String, TextRegex)],
    class_list: Option<&TokenClassList>,
) -> (r: TokenizedResult)
    requires
        are_tokens(tokens.deep_view(), raw_value@),
        token_model::serve_definitions(patterns@, definitions.deep_view()),
    ensures
        r.tokens == tokens,
        is_tokenized(r, raw_value@, definitions.deep_view(), class_list.deep_view()),
{
    let available_names = token_model::names_of(definitions);
    match class_list {
        Some(classes) => {
            let lookup = token_model::build_token_class_lookup(classes);
            classify_tokens(
                raw_value,
                tokens,
                definitions,
                &available_names,
                patterns,
                Some(&lookup),
                Ghost(classes.deep_view()),
            )
        },
        None => classify_tokens(
            raw_value,
            tokens,
            definitions,
            &available_names,
            patterns,
            None,
            Ghost(Seq::empty()),
        ),
    }
}

/// Cuts a text into tokens and tells their types, and their classes where classes are given. The
/// expressions of the definitions are known to compile.
#[must_use]
pub fn tokenize_and_classify(
    raw_value: &str,
    token_definitions: &TokenDefinition,
    token_class_list: Option<&TokenClassList>,
) -> (r: TokenizedResult)
    requires
        token_model::definitions_compile(token_definitions.deep_view()),
    ensures
        is_tokenized(
            r,
            raw_value@,
            token_definitions.deep_view(),
            token_class_list.deep_view(),
        ),
{
    let patterns = match token_model::compile_definitions(token_definitions) {
        Ok(patterns) => patterns,
        Err(_) => {
            proof {
                assert(false);
            }
            Vec::new()
        },
    };
    classify_with_list(
        raw_value,
        split_input_tokens(raw_value),
        token_definitions,
        patterns.as_slice(),
        token_class_list,
    )
}

/// Cuts a text into tokens and tells their types, and their classes where classes are given, once
/// the expressions of the definitions have been found to compile.
///
/// # Errors
///
/// [`ParseError::InvalidTokenDefinition`] where the engine refuses the expression of a definition.
pub fn check_and_tokenize(
    raw_value: &str,
    token_definitions: &TokenDefinition,
    token_class_list: Option<&TokenClassList>,
) -> (r: Result<TokenizedResult, ParseError>)
    ensures
        r is Ok <==> token_model::definitions_compile(token_definitions.deep_view()),
        r matches Ok(x) ==> is_tokenized(
            x,
            raw_value@,
            token_definitions.deep_view(),
            token_class_list.deep_view(),
        ),
        r matches Err(e) ==> token_model::tells_refusal(e, token_definitions.deep_view()),
{
    match token_model::compile_definitions(token_definitions) {
        Ok(_) => Ok(tokenize_and_classify(raw_value, token_definitions, token_class_list)),
        Err(error) => Err(error),
    }
}

/// The message where the engine gives up on finding the word edges of a text.
pub const NO_WORD_EDGES: &'static str = "word boundary regex should execute";

/// Cuts a text into tokens and tells their types, and their classes where classes are given.
///
/// # Errors
///
/// [`ParseError::InvalidTokenDefinition`] where the engine refuses the expression of a definition,
/// [`ParseError::InvalidPattern`] where it gives up on finding the word edges of the text.
pub fn try_tokenize_and_classify(
    raw_value: &str,
    token_definitions: &TokenDefinition,
    token_class_list: Option<&TokenClassList>,
) -> (r: Result<TokenizedResult, ParseError>)
    ensures
        match r {
            Ok(x) => token_model::definitions_compile(token_definitions.deep_view())
                && x.tokens.deep_view() == word_pieces(raw_value@) && is_tokenized(
                x,
                raw_value@,
                token_definitions.deep_view(),
                token_class_list.deep_view(),
            ),
            Err(e) => if token_model::definitions_compile(token_definitions.deep_view()) {
                error::is_invalid_pattern(e, NO_WORD_EDGES@)
            } else {
                token_model::tells_refusal(e, token_definitions.deep_view())
            },
        },
{
    match token_model::compile_definitions(token_definitions) {
        Ok(patterns) => match try_split_input_tokens(raw_value) {
            Some(tokens) => Ok(
                classify_with_list(
                    raw_value,
                    tokens,
                    token_definitions,
                    patterns.as_slice(),
                    token_class_list,
                ),
            ),
            None => Err(ParseError::InvalidPattern(NO_WORD_EDGES.to_string())),
        },
        Err(error) => Err(error),
    }
}

/// Cuts a text into tokens and tells their types and classes by a model.
#[must_use]
pub fn tokenize_with_model(raw_value: &str, model: &TokenModel) -> (r: TokenizedResult)
    ensures
        is_tokenized(r, raw_value@, model@.definitions, Some(model@.classes)),
{
    classify_tokens(
        raw_value,
        split_input_tokens(raw_value),
        model.token_definitions(),
        model.available_names(),
        model.compiled_patterns(),
        Some(model.token_class_lookup()),
        Ghost(model@.classes),
    )
}

/// The type that a shape tells is the name of a definition.
pub proof fn law_shape_names_a_definition(token: Seq<char>, names: Set<Seq<char>>)
    ensures
        fast_type(token, names) matches Some(name) ==> names.contains(name),
{
}

/// The type of a token is the name of a definition, or the token itself.
pub proof fn law_type_is_named_or_own(name: Seq<char>, token: Seq<char>, definitions: Definitions)
    requires
        is_type(name, token, definitions),
    ensures
        token_model::definition_names(definitions).contains(name) || name == token,
{
    let verdicts = choose|verdicts: Seq<Option<bool>>|
        #[trigger] are_verdicts(verdicts, definitions, token) && name == type_by(
            token,
            definitions,
            verdicts,
        );
    law_shape_names_a_definition(token, token_model::definition_names(definitions));
    lemma_first_matching_is_named(definitions, verdicts);
}

proof fn lemma_first_matching_is_named(definitions: Definitions, verdicts: Seq<Option<bool>>)
    ensures
        first_matching(definitions, verdicts) matches Some(name) ==> exists|i: int|
            0 <= i < definitions.len() && (#[trigger] definitions[i]).0 == name,
    decreases definitions.len(),
{
    if definitions.len() > 0 && verdicts.len() == definitions.len() {
        let before = definitions.drop_last();
        lemma_first_matching_is_named(before, verdicts.drop_last());
        match first_matching(before, verdicts.drop_last()) {
            Some(name) => {
                let i = choose|i: int| 0 <= i < before.len() && (#[trigger] before[i]).0 == name;
                assert(definitions[i].0 == name);
            },
            None => {
                assert(definitions[definitions.len() - 1].0 == definitions.last().0);
            },
        }
    }
}

/// Where the shape of a token tells its type, there is only one.
pub proof fn law_shape_decides(
    a: Seq<char>,
    b: Seq<char>,
    token: Seq<char>,
    definitions: Definitions,
)
    requires
        is_type(a, token, definitions),
        is_type(b, token, definitions),
        fast_type(token, token_model::definition_names(definitions)) is Some,
    ensures
        a == b,
{
}

/// Two results on a text, by the same definitions and classes and with the same replies of the
/// engine, are the same, whether they come by a model or by its parts.
pub proof fn law_model_and_parts_agree(
    a: TokenizedResult,
    b: TokenizedResult,
    raw_value: Seq<char>,
    definitions: Definitions,
    classes: Option<Classes>,
    replies: Replies,
)
    requires
        is_tokenized_by(a, raw_value, definitions, classes, replies),
        is_tokenized_by(b, raw_value, definitions, classes, replies),
    ensures
        a.raw_value@ == b.raw_value@,
        a.tokens.deep_view() == b.tokens.deep_view(),
        a.types.deep_view() == b.types.deep_view(),
        a.classes.deep_view() == b.classes.deep_view(),
{
    assert forall|i: int| 0 <= i < a.tokens.len() implies a.tokens@[i]@ == b.tokens@[i]@ by {
        assert(a.tokens.deep_view()[i] == b.tokens.deep_view()[i]);
    }
    assert(a.tokens.deep_view().len() == b.tokens.deep_view().len());
    assert forall|i: int| 0 <= i < a.types.len() implies a.types@[i]@ == b.types@[i]@ by {
        assert(a.tokens@[i]@ == b.tokens@[i]@);
    }
    assert(a.types.deep_view() =~= b.types.deep_view());
    assert forall|i: int| 0 <= i < a.classes.len() implies a.classes@[i]@ == b.classes@[i]@ by {
        assert(a.tokens@[i]@ == b.tokens@[i]@);
        assert(a.types@[i]@ == b.types@[i]@);
    }
    assert(a.classes.deep_view() =~= b.classes.deep_view());
}

/// The name of the first definition whose expression matches a token.
pub open spec fn first_match(definitions: Definitions, token: Seq<char>) -> Option<Seq<char>>
    decreases definitions.len(),
{
    if definitions.len() == 0 {
        None
    } else {
        match first_match(definitions.drop_last(), token) {
            Some(name) => Some(name),
            None => if regex::regex_is_match(
                token_model::anchored_definition(definitions.last().1),
                token,
            ) {
                Some(definitions.last().0)
            } else {
                None
            },
        }
    }
}

/// Whether the engine gave up on no definition before the first that matches.
pub open spec fn are_answered(verdicts: Seq<Option<bool>>) -> bool {
    forall|i: int|
        0 <= i < verdicts.len() && (#[trigger] verdicts[i]) is None ==> exists|j: int|
            0 <= j < i && #[trigger] verdicts[j] == Some(true)
}

proof fn lemma_answers_tell_first(
    definitions: Definitions,
    verdicts: Seq<Option<bool>>,
    token: Seq<char>,
)
    requires
        are_verdicts(verdicts, definitions, token),
        are_answered(verdicts),
    ensures
        first_matching(definitions, verdicts) == first_match(definitions, token),
        first_matching(definitions, verdicts) is None ==> forall|i: int|
            0 <= i < verdicts.len() ==> #[trigger] verdicts[i] != Some(true),
    decreases definitions.len(),
{
    if definitions.len() > 0 {
        let n = definitions.len() - 1;
        let before = verdicts.drop_last();
        assert forall|i: int| 0 <= i < before.len() implies ((#[trigger] before[i]) matches Some(
            found,
        ) ==> found == regex::regex_is_match(
            token_model::anchored_definition(definitions.drop_last()[i].1),
            token,
        )) by {
            assert(before[i] == verdicts[i]);
        }
        assert forall|i: int| 0 <= i < before.len() && (#[trigger] before[i]) is None implies exists|
            j: int,
        |
            0 <= j < i && #[trigger] before[j] == Some(true) by {
            assert(verdicts[i] is None);
            let j = choose|j: int| 0 <= j < i && #[trigger] verdicts[j] == Some(true);
            assert(before[j] == Some(true));
        }
        lemma_answers_tell_first(definitions.drop_last(), before, token);
        if first_matching(definitions.drop_last(), before) is None {
            if verdicts[n] is None {
                let j = choose|j: int| 0 <= j < n && #[trigger] verdicts[j] == Some(true);
                assert(before[j] == Some(true));
            }
            assert(verdicts[n] is Some);
            assert forall|i: int| 0 <= i < n implies #[trigger] verdicts[i] != Some(true) by {
                assert(before[i] == verdicts[i]);
            }
        }
    }
}

/// Where the engine answers, the type of a token is what its shape tells, else the name of the
/// first definition that matches it, else the token itself.
pub proof fn law_answers_settle_the_type(
    token: Seq<char>,
    definitions: Definitions,
    verdicts: Seq<Option<bool>>,
)
    requires
        are_verdicts(verdicts, definitions, token),
        are_answered(verdicts),
    ensures
        type_by(token, definitions, verdicts) == match fast_type(
            token,
            token_model::definition_names(definitions),
        ) {
            Some(name) => name,
            None => match first_match(definitions, token) {
                Some(name) => name,
                None => token,
            },
        },
{
    lemma_answers_tell_first(definitions, verdicts, token);
}

/// White space is its own class.
pub proof fn law_blank_is_its_own_class(
    r: TokenizedResult,
    raw_value: Seq<char>,
    definitions: Definitions,
    classes: Classes,
    i: int,
)
    requires
        is_tokenized(r, raw_value, definitions, Some(classes)),
        0 <= i < r.tokens.len(),
        text::all_in(r.tokens@[i]@, CharClass::White),
    ensures
        r.classes@[i]@ == r.tokens@[i]@,
{
}

} // verus!
