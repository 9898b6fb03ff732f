//! Bringing names into a form in which they can be compared.

use crate::runs;
use crate::text;
use crate::text::CharClass;
use crate::unicode;
use unicode_normalization::UnicodeNormalization;
use vstd::prelude::*;

verus! {

/// The general categories that matter here: the kinds of combining marks, and everything else.
#[derive(Debug, Clone, Copy, PartialEq, Eq, Structural)]
pub enum Category {
    NonspacingMark,
    SpacingMark,
    EnclosingMark,
    Other,
}

/// The compatibility decomposition of a text that is not all ASCII.
pub uninterp spec fn unicode_nfkd(text: Seq<char>) -> Seq<char>;

/// The general category of a character outside ASCII.
pub uninterp spec fn unicode_category(c: char) -> Category;

/// The compatibility decomposition of a text.
pub open spec fn decomposed(s: Seq<char>) -> Seq<char> {
    if unicode::is_ascii_text(s) {
        s
    } else {
        unicode_nfkd(s)
    }
}

/// The general category of a character.
pub open spec fn category_of(c: char) -> Category {
    if unicode::is_ascii_char(c) {
        Category::Other
    } else {
        unicode_category(c)
    }
}

/// `unicode_normalization::UnicodeNormalization::nfkd` gives the characters of the compatibility
/// decomposition; ASCII characters are not decomposed and keep their order.
#[verifier::external_body]
fn decompose(text: &str) -> (r: String)
    ensures
        unicode::is_ascii_text(text@) ==> r@ == text@,
        !unicode::is_ascii_text(text@) ==> r@ == unicode_nfkd(text@),
{
    text.nfkd().collect()
}

/// `unicode_general_category::get_general_category` gives the general category of a character; the
/// categories that are no marks are not told apart. No ASCII character is a mark.
#[verifier::external_body]
fn category(c: char) -> (r: Category)
    ensures
        unicode::is_ascii_char(c) ==> r == Category::Other,
        !unicode::is_ascii_char(c) ==> r == unicode_category(c),
{
    match unicode_general_category::get_general_category(c) {
        unicode_general_category::GeneralCategory::NonspacingMark => Category::NonspacingMark,
        unicode_general_category::GeneralCategory::SpacingMark => Category::SpacingMark,
        unicode_general_category::GeneralCategory::EnclosingMark => Category::EnclosingMark,
        _ => Category::Other,
    }
}

/// Whether a category is one of combining marks.
pub open spec fn is_mark(category: Category) -> bool {
    category != Category::Other
}

/// `s` without its combining marks.
pub open spec fn without_marks(s: Seq<char>) -> Seq<char>
    decreases s.len(),
{
    if s.len() == 0 {
        Seq::empty()
    } else if is_mark(category_of(s.last())) {
        without_marks(s.drop_last())
    } else {
        without_marks(s.drop_last()).push(s.last())
    }
}

/// The words of `s` with one space between neighbours.
pub open spec fn spaced(s: Seq<char>) -> Seq<char> {
    text::join(text::words(s), " "@)
}

/// `s` with a space in place of everything but ASCII capitals and digits.
pub open spec fn blanked(s: Seq<char>) -> Seq<char> {
    Seq::new(
        s.len(),
        |i: int|
            if unicode::is_ascii_upper(s[i]) || unicode::is_digit(s[i]) {
                s[i]
            } else {
                ' '
            },
    )
}

/// A text in capitals, with one space between words and none at its ends.
pub open spec fn normalized(value: Seq<char>) -> Seq<char> {
    spaced(unicode::uppercase(text::trim(value)))
}

/// A text reduced to ASCII capitals and digits.
pub open spec fn loosely_normalized(value: Seq<char>) -> Seq<char> {
    spaced(blanked(without_marks(decomposed(normalized(value)))))
}

/// The uppercase form of a text.
#[must_use]
pub fn to_upper(s: &str) -> (r: String)
    ensures
        r@ == unicode::uppercase(s@),
{
    let r = s.to_uppercase();
    proof {
        unicode::lemma_mapped_to_uppercase(
            s@,
            |c: char|
                if unicode::is_ascii_char(c) {
                    seq![unicode::capital(c)]
                } else {
                    unicode::unicode_capitals(c)
                },
        );
    }
    r
}

/// Whether a category is one of combining marks.
#[must_use]
pub fn is_combining(category: Category) -> (r: bool)
    ensures
        r == is_mark(category),
{
    !matches!(category, Category::Other)
}

/// A text without its combining marks.
#[must_use]
pub fn remove_marks(text: &str) -> (r: String)
    ensures
        r@ == without_marks(text@),
{
    let chars = text::chars_of(text);
    let mut kept = String::new();
    let mut i: usize = 0;
    while i < chars.len()
        invariant
            chars@ == text@,
            i <= chars.len(),
            kept@ == without_marks(text@.take(i as int)),
        decreases chars.len() - i,
    {
        let c = chars[i];
        assert(text@.take(i + 1).drop_last() == text@.take(i as int));
        if !is_combining(category(c)) {
            kept.push(c);
        }
        i = i + 1;
    }
    assert(text@.take(i as int) == text@);
    kept
}

/// A text without accents: its compatibility decomposition without combining marks.
#[must_use]
pub fn strip_accents(text: &str) -> (r: String)
    ensures
        r@ == without_marks(decomposed(text@)),
{
    let decomposed = decompose(text);
    remove_marks(decomposed.as_str())
}

/// The words of a text with one space between neighbours.
#[must_use]
pub fn collapse_spaces(text: &str) -> (r: String)
    ensures
        r@ == spaced(text@),
{
    let words = text::words_of(text);
    text::join_texts(&words, " ")
}

/// A text with a space in place of everything but ASCII capitals and digits, and then one space
/// between words.
#[must_use]
pub fn keep_capitals_and_digits(text: &str) -> (r: String)
    ensures
        r@ == spaced(blanked(text@)),
{
    let chars = text::chars_of(text);
    let mut out = String::new();
    let mut i: usize = 0;
    while i < chars.len()
        invariant
            chars@ == text@,
            i <= chars.len(),
            out@ == blanked(text@).take(i as int),
        decreases chars.len() - i,
    {
        let c = chars[i];
        assert(blanked(text@).take(i + 1) == blanked(text@).take(i as int).push(
            blanked(text@)[i as int],
        ));
        if ('A' <= c && c <= 'Z') || ('0' <= c && c <= '9') {
            out.push(c);
        } else {
            out.push(' ');
        }
        i = i + 1;
    }
    assert(blanked(text@).take(i as int) == blanked(text@));
    collapse_spaces(out.as_str())
}

/// A text in capitals, with one space between words and none at its ends.
#[must_use]
pub fn normalize_value(value: &str) -> (r: String)
    ensures
        r@ == normalized(value@),
{
    let upper = to_upper(text::trimmed(value));
    collapse_spaces(upper.as_str())
}

/// A text reduced to ASCII capitals and digits, with one space between words.
#[must_use]
pub fn normalize_loose(value: &str) -> (r: String)
    ensures
        r@ == loosely_normalized(value@),
{
    let normalized = normalize_value(value);
    let stripped = strip_accents(normalized.as_str());
    keep_capitals_and_digits(stripped.as_str())
}

/// The words of a text reduced to ASCII capitals and digits.
#[must_use]
pub fn tokenize_loose(value: &str) -> (r: Vec<String>)
    ensures
        r.deep_view() == text::words(loosely_normalized(value@)),
{
    let normalized = normalize_loose(value);
    text::words_of(normalized.as_str())
}

/// A space parts the words before it from those after it.
proof fn lemma_space_parts(a: Seq<char>, b: Seq<char>)
    ensures
        text::words(a + " "@ + b) == text::words(a) + text::words(b),
    decreases a.len(),
{
    reveal_strlit(" ");
    let s = a + " "@ + b;
    if a.len() == 0 {
        assert(s.skip(1) == b);
        assert(s[0] == ' ');
        assert(text::words(a) + text::words(b) == text::words(b));
    } else if unicode::is_white(a[0]) {
        lemma_space_parts(a.skip(1), b);
        assert(s.skip(1) == a.skip(1) + " "@ + b);
        assert(s[0] == a[0]);
    } else {
        let n = text::run_len(a, CharClass::Dark) as int;
        text::lemma_run(a, CharClass::Dark);
        assert(s[0] == a[0]);
        assert forall|i: int| 0 <= i < n implies text::in_class(CharClass::Dark, #[trigger] s[i]) by {
            assert(s[i] == a[i]);
        }
        if n < a.len() {
            assert(s[n] == a[n]);
        } else {
            assert(s[n] == ' ');
        }
        text::lemma_run_is(s, CharClass::Dark, n);
        lemma_space_parts(a.skip(n), b);
        assert(s.take(n) == a.take(n));
        assert(s.skip(n) == a.skip(n) + " "@ + b);
        assert(seq![a.take(n)] + (text::words(a.skip(n)) + text::words(b)) == seq![a.take(n)]
            + text::words(a.skip(n)) + text::words(b));
    }
}

/// Whether `w` is a word: not empty, and without white space.
pub open spec fn is_whole_word(w: Seq<char>) -> bool {
    w.len() > 0 && text::all_in(w, CharClass::Dark)
}

/// A word is the only word of itself.
pub proof fn lemma_one_word(w: Seq<char>)
    requires
        is_whole_word(w),
    ensures
        text::words(w) == seq![w],
{
    text::lemma_run_is(w, CharClass::Dark, w.len() as int);
    assert(text::in_class(CharClass::Dark, w[0]));
    assert(w.take(w.len() as int) == w);
    assert(text::words(w.skip(w.len() as int)) == Seq::<Seq<char>>::empty());
    assert(seq![w] + Seq::<Seq<char>>::empty() == seq![w]);
}

/// The words of a text are words.
pub proof fn lemma_words_are_whole(s: Seq<char>)
    ensures
        forall|i: int| 0 <= i < text::words(s).len() ==> is_whole_word(#[trigger] text::words(s)[i]),
    decreases s.len(),
{
    if s.len() > 0 {
        if unicode::is_white(s[0]) {
            lemma_words_are_whole(s.skip(1));
            assert(text::words(s) == text::words(s.skip(1)));
        } else {
            let n = text::run_len(s, CharClass::Dark) as int;
            text::lemma_run(s, CharClass::Dark);
            lemma_words_are_whole(s.skip(n));
            let rest = text::words(s.skip(n));
            assert forall|i: int| 0 <= i < text::words(s).len() implies is_whole_word(
                #[trigger] text::words(s)[i],
            ) by {
                if i > 0 {
                    assert(text::words(s)[i] == rest[i - 1]);
                } else {
                    assert(text::words(s)[0] == s.take(n));
                    assert forall|j: int| 0 <= j < n implies text::in_class(
                        CharClass::Dark,
                        #[trigger] s.take(n)[j],
                    ) by {
                        assert(s.take(n)[j] == s[j]);
                    }
                }
            }
        }
    }
}

/// Words that are joined by single spaces come back as they were.
pub proof fn law_joined_words_come_back(ws: Seq<Seq<char>>)
    requires
        forall|i: int| 0 <= i < ws.len() ==> is_whole_word(#[trigger] ws[i]),
    ensures
        text::words(text::join(ws, " "@)) == ws,
    decreases ws.len(),
{
    if ws.len() == 1 {
        lemma_one_word(ws[0]);
        assert(ws == seq![ws[0]]);
    } else if ws.len() > 1 {
        law_joined_words_come_back(ws.drop_last());
        lemma_space_parts(text::join(ws.drop_last(), " "@), ws.last());
        lemma_one_word(ws.last());
        assert(ws.drop_last() + seq![ws.last()] == ws);
    }
}

/// Spacing keeps the words of a text, and a second time changes nothing.
pub proof fn law_spacing_keeps_words(s: Seq<char>)
    ensures
        text::words(spaced(s)) == text::words(s),
        spaced(spaced(s)) == spaced(s),
{
    lemma_words_are_whole(s);
    law_joined_words_come_back(text::words(s));
}

/// The loose tokens of a value, joined by single spaces, are its loose form.
pub proof fn law_loose_tokens_make_loose_form(value: Seq<char>)
    ensures
        text::join(text::words(loosely_normalized(value)), " "@) == loosely_normalized(value),
{
    law_spacing_keeps_words(blanked(without_marks(decomposed(normalized(value)))));
}

/// Whether a character may stand in a loose form.
pub open spec fn is_loose(c: char) -> bool {
    unicode::is_ascii_upper(c) || unicode::is_digit(c) || c == ' '
}

proof fn lemma_words_within(s: Seq<char>, p: spec_fn(char) -> bool)
    requires
        forall|i: int| 0 <= i < s.len() ==> p(#[trigger] s[i]),
    ensures
        forall|k: int, i: int|
            0 <= k < text::words(s).len() && 0 <= i < text::words(s)[k].len() ==> p(
                #[trigger] text::words(s)[k][i],
            ),
    decreases s.len(),
{
    if s.len() > 0 {
        if unicode::is_white(s[0]) {
            assert forall|i: int| 0 <= i < s.skip(1).len() implies p(
                #[trigger] s.skip(1)[i],
            ) by {
                assert(s.skip(1)[i] == s[i + 1]);
            }
            lemma_words_within(s.skip(1), p);
            assert(text::words(s) == text::words(s.skip(1)));
        } else {
            let n = text::run_len(s, CharClass::Dark) as int;
            text::lemma_run(s, CharClass::Dark);
            assert forall|i: int| 0 <= i < s.skip(n).len() implies p(
                #[trigger] s.skip(n)[i],
            ) by {
                assert(s.skip(n)[i] == s[i + n]);
            }
            lemma_words_within(s.skip(n), p);
            let rest = text::words(s.skip(n));
            assert forall|k: int, i: int|
                0 <= k < text::words(s).len() && 0 <= i < text::words(s)[k].len() implies p(
                #[trigger] text::words(s)[k][i],
            ) by {
                if k > 0 {
                    assert(text::words(s)[k] == rest[k - 1]);
                } else {
                    assert(text::words(s)[0] == s.take(n));
                    assert(s.take(n)[i] == s[i]);
                }
            }
        }
    }
}

proof fn lemma_join_within(ws: Seq<Seq<char>>, p: spec_fn(char) -> bool)
    requires
        p(' '),
        forall|k: int, i: int|
            0 <= k < ws.len() && 0 <= i < ws[k].len() ==> p(#[trigger] ws[k][i]),
    ensures
        forall|i: int|
            0 <= i < text::join(ws, " "@).len() ==> p(#[trigger] text::join(ws, " "@)[i]),
    decreases ws.len(),
{
    reveal_strlit(" ");
    if ws.len() > 1 {
        let before = ws.drop_last();
        assert forall|k: int, i: int|
            0 <= k < before.len() && 0 <= i < before[k].len() implies p(
            #[trigger] before[k][i],
        ) by {
            assert(before[k] == ws[k]);
            assert(p(ws[k][i]));
        }
        lemma_join_within(before, p);
        let head = text::join(before, " "@);
        let all = text::join(ws, " "@);
        assert forall|i: int| 0 <= i < all.len() implies p(#[trigger] all[i]) by {
            if i < head.len() {
                assert(all[i] == head[i]);
            } else if i > head.len() {
                assert(all[i] == ws[ws.len() - 1][i - head.len() - 1]);
            }
        }
    } else if ws.len() == 1 {
        assert forall|i: int| 0 <= i < ws[0].len() implies p(#[trigger] ws[0][i]) by {}
    }
}

proof fn lemma_spaced_within(s: Seq<char>, p: spec_fn(char) -> bool)
    requires
        p(' '),
        forall|i: int| 0 <= i < s.len() ==> p(#[trigger] s[i]),
    ensures
        forall|i: int| 0 <= i < spaced(s).len() ==> p(#[trigger] spaced(s)[i]),
{
    lemma_words_within(s, p);
    lemma_join_within(text::words(s), p);
}

/// A loose form holds nothing but ASCII capitals, digits and spaces.
pub proof fn law_loose_form_is_plain(value: Seq<char>)
    ensures
        forall|i: int|
            0 <= i < loosely_normalized(value).len() ==> is_loose(
                #[trigger] loosely_normalized(value)[i],
            ),
{
    let s = blanked(without_marks(decomposed(normalized(value))));
    lemma_spaced_within(s, |c: char| is_loose(c));
}

/// Whether the only white space in a text is the space, never first, last or doubled.
pub open spec fn is_evenly_spaced(s: Seq<char>) -> bool {
    &&& forall|i: int|
        0 <= i < s.len() && unicode::is_white(#[trigger] s[i]) ==> s[i] == ' ' && 0 < i < s.len()
            - 1
    &&& forall|i: int, j: int|
        0 <= i < j < s.len() && unicode::is_white(#[trigger] s[i]) && unicode::is_white(
            #[trigger] s[j],
        ) ==> i + 1 < j
}

proof fn lemma_joined_words_are_evenly_spaced(ws: Seq<Seq<char>>)
    requires
        forall|i: int| 0 <= i < ws.len() ==> is_whole_word(#[trigger] ws[i]),
    ensures
        is_evenly_spaced(text::join(ws, " "@)),
        ws.len() > 0 ==> text::join(ws, " "@).len() > 0,
    decreases ws.len(),
{
    reveal_strlit(" ");
    let all = text::join(ws, " "@);
    if ws.len() == 1 {
        assert(is_whole_word(ws[0]));
        assert forall|i: int| 0 <= i < all.len() implies !unicode::is_white(#[trigger] all[i]) by {
            assert(text::in_class(CharClass::Dark, ws[0][i]));
        }
    } else if ws.len() > 1 {
        let before = ws.drop_last();
        let last = ws.last();
        assert forall|i: int| 0 <= i < before.len() implies is_whole_word(#[trigger] before[i]) by {
            assert(before[i] == ws[i]);
        }
        lemma_joined_words_are_evenly_spaced(before);
        assert(is_whole_word(ws[ws.len() - 1]));
        let head = text::join(before, " "@);
        let n = head.len() as int;
        assert forall|i: int| 0 <= i < all.len() implies (if i < n {
            #[trigger] all[i] == head[i]
        } else if i == n {
            all[i] == ' '
        } else {
            !unicode::is_white(all[i])
        }) by {
            if i > n {
                assert(all[i] == last[i - n - 1]);
                assert(text::in_class(CharClass::Dark, last[i - n - 1]));
            }
        }
        assert(!unicode::is_white(head[n - 1]));
        assert forall|i: int| 0 <= i < all.len() && unicode::is_white(#[trigger] all[i]) implies
            all[i] == ' ' && 0 < i < all.len() - 1 by {
            if i < n {
                assert(unicode::is_white(head[i]));
            }
        }
        assert forall|i: int, j: int|
            0 <= i < j < all.len() && unicode::is_white(#[trigger] all[i]) && unicode::is_white(
                #[trigger] all[j],
            ) implies i + 1 < j by {
            assert(i < n);
            assert(unicode::is_white(head[i]));
            if j < n {
                assert(unicode::is_white(head[j]));
            }
        }
    }
}

proof fn lemma_spaced_is_even(s: Seq<char>)
    ensures
        is_evenly_spaced(spaced(s)),
{
    lemma_words_are_whole(s);
    lemma_joined_words_are_evenly_spaced(text::words(s));
}

proof fn lemma_even_is_trimmed(s: Seq<char>)
    requires
        is_evenly_spaced(s),
    ensures
        text::trim(s) == s,
{
    if s.len() > 0 {
        assert(!unicode::is_white(s[0]));
        assert(!unicode::is_white(s[s.len() - 1]));
    }
    assert(text::run_len(s, CharClass::White) == 0);
    assert(text::trim_start(s) == s);
    assert(text::trailing_white(s) == 0);
    assert(text::trim_end(s) == s);
}

/// The normal form of a value is evenly spaced, has the words of the uppercase form of the value,
/// and is empty where the value is blank.
pub proof fn law_normal_form_is_evenly_spaced(value: Seq<char>)
    ensures
        is_evenly_spaced(normalized(value)),
        text::words(normalized(value)) == text::words(unicode::uppercase(text::trim(value))),
        text::all_in(value, CharClass::White) ==> normalized(value) == Seq::<char>::empty(),
{
    let upper = unicode::uppercase(text::trim(value));
    lemma_spaced_is_even(upper);
    law_spacing_keeps_words(upper);
    if text::all_in(value, CharClass::White) {
        text::lemma_run_is(value, CharClass::White, value.len() as int);
        assert(text::trim_start(value) == Seq::<char>::empty());
        assert(text::trim(value) == Seq::<char>::empty());
        assert(upper == Seq::<char>::empty());
    }
}

/// Normalizing a second time changes nothing, where the normal form is its own uppercase form.
pub proof fn law_normal_form_stays(value: Seq<char>)
    requires
        unicode::uppercase(normalized(value)) == normalized(value),
    ensures
        normalized(normalized(value)) == normalized(value),
{
    law_normal_form_is_evenly_spaced(value);
    lemma_even_is_trimmed(normalized(value));
    law_spacing_keeps_words(unicode::uppercase(text::trim(value)));
}

/// Whether uppercase keeps the words of a text apart and whole: no white space becomes anything else
/// or nothing, and nothing else becomes white space or nothing.
pub open spec fn keeps_words(s: Seq<char>) -> bool {
    forall|i: int|
        0 <= i < s.len() ==> is_kept_apart(#[trigger] s[i])
}

/// Whether the uppercase mapping of a character is white space throughout where the character is,
/// and holds none where it is not.
pub open spec fn is_kept_apart(c: char) -> bool {
    unicode::capitals_of(c).len() > 0 && text::all_in(
        unicode::capitals_of(c),
        if unicode::is_white(c) {
            CharClass::White
        } else {
            CharClass::Dark
        },
    )
}

/// The uppercase forms of texts.
pub open spec fn all_uppercase(parts: Seq<Seq<char>>) -> Seq<Seq<char>> {
    Seq::new(parts.len(), |i: int| unicode::uppercase(parts[i]))
}

proof fn lemma_blank_front(a: Seq<char>, b: Seq<char>)
    requires
        text::all_in(a, CharClass::White),
    ensures
        text::words(a + b) == text::words(b),
    decreases a.len(),
{
    let s = a + b;
    if a.len() == 0 {
        assert(s == b);
    } else {
        assert(text::in_class(CharClass::White, a[0]));
        assert(s[0] == a[0]);
        assert forall|i: int| 0 <= i < a.skip(1).len() implies text::in_class(
            CharClass::White,
            #[trigger] a.skip(1)[i],
        ) by {
            assert(a.skip(1)[i] == a[i + 1]);
        }
        lemma_blank_front(a.skip(1), b);
        assert(s.skip(1) == a.skip(1) + b);
    }
}

proof fn lemma_uppercase_of_one(s: Seq<char>)
    requires
        s.len() > 0,
    ensures
        unicode::uppercase(s) == unicode::capitals_of(s[0]) + unicode::uppercase(s.skip(1)),
{
    let first = seq![s[0]];
    unicode::lemma_uppercase_of_two(first, s.skip(1));
    assert(first + s.skip(1) == s);
    assert(first.drop_last() == Seq::<char>::empty());
    assert(unicode::uppercase(first.drop_last()) == Seq::<char>::empty());
    assert(Seq::<char>::empty() + unicode::capitals_of(s[0]) == unicode::capitals_of(s[0]));
}

proof fn lemma_words_of_uppercase(s: Seq<char>)
    requires
        keeps_words(s),
    ensures
        text::words(unicode::uppercase(s)) == all_uppercase(text::words(s)),
    decreases s.len(),
{
    if s.len() == 0 {
        assert(all_uppercase(text::words(s)) == Seq::<Seq<char>>::empty());
    } else if unicode::is_white(s[0]) {
        let rest = s.skip(1);
        assert(is_kept_apart(s[0]));
        assert forall|i: int| 0 <= i < rest.len() implies is_kept_apart(#[trigger] rest[i]) by {
            assert(rest[i] == s[i + 1]);
        }
        lemma_words_of_uppercase(rest);
        lemma_uppercase_of_one(s);
        lemma_blank_front(unicode::capitals_of(s[0]), unicode::uppercase(rest));
    } else {
        let n = text::run_len(s, CharClass::Dark) as int;
        text::lemma_run(s, CharClass::Dark);
        assert(text::in_class(CharClass::Dark, s[0]));
        let word = s.take(n);
        let rest = s.skip(n);
        let raised = unicode::uppercase(word);
        let more = unicode::uppercase(rest);
        assert forall|i: int| 0 <= i < rest.len() implies is_kept_apart(#[trigger] rest[i]) by {
            assert(rest[i] == s[i + n]);
        }
        lemma_words_of_uppercase(rest);
        assert(word + rest == s);
        unicode::lemma_uppercase_of_two(word, rest);
        let dark = |c: char| text::in_class(CharClass::Dark, c);
        assert forall|i: int, j: int|
            0 <= i < word.len() && 0 <= j < unicode::capitals_of(word[i]).len() implies dark(
            #[trigger] unicode::capitals_of(word[i])[j],
        ) by {
            assert(word[i] == s[i]);
            assert(text::in_class(CharClass::Dark, s[i]));
            assert(is_kept_apart(s[i]));
        }
        unicode::lemma_uppercase_within(word, dark);
        assert forall|i: int| 0 <= i < raised.len() implies text::in_class(
            CharClass::Dark,
            #[trigger] raised[i],
        ) by {
            assert(dark(raised[i]));
        }
        lemma_uppercase_of_one(word);
        assert(is_kept_apart(s[0]));
        assert(is_whole_word(raised));
        lemma_one_word(raised);
        if rest.len() > 0 {
            assert(!text::in_class(CharClass::Dark, s[n]));
            assert(rest[0] == s[n]);
            assert(is_kept_apart(rest[0]));
            lemma_uppercase_of_one(rest);
            assert(more[0] == unicode::capitals_of(rest[0])[0]);
            assert(text::in_class(CharClass::White, more[0]));
        }
        runs::lemma_runs_part(raised, more, CharClass::Dark);
        runs::lemma_words_are_runs(raised + more);
        runs::lemma_words_are_runs(raised);
        runs::lemma_words_are_runs(more);
        assert(seq![raised] + all_uppercase(text::words(rest)) == all_uppercase(
            seq![word] + text::words(rest),
        ));
    }
}

/// The words of the normal form of a value are the words of the value in uppercase, in order, where
/// uppercase keeps them apart and whole.
pub proof fn law_normal_words_are_uppercase_words(value: Seq<char>)
    requires
        keeps_words(value),
    ensures
        text::words(normalized(value)) == all_uppercase(text::words(value)),
{
    let t = text::trim(value);
    lemma_trim_within(value, |c: char| is_kept_apart(c));
    lemma_words_of_uppercase(t);
    law_spacing_keeps_words(unicode::uppercase(t));
    runs::lemma_runs_trim(value, CharClass::Dark);
    runs::lemma_words_are_runs(t);
    runs::lemma_words_are_runs(value);
}

/// Whether a character is its own uppercase mapping.
pub open spec fn is_uppercase(c: char) -> bool {
    unicode::capitals_of(c) == seq![c]
}

/// Normalizing a second time changes nothing, where the uppercase mappings of the characters of the
/// value are uppercase themselves.
pub proof fn law_uppercase_normal_form_stays(value: Seq<char>)
    requires
        forall|i: int, j: int|
            0 <= i < value.len() && 0 <= j < unicode::capitals_of(value[i]).len() ==> is_uppercase(
                #[trigger] unicode::capitals_of(value[i])[j],
            ),
    ensures
        normalized(normalized(value)) == normalized(value),
{
    let t = text::trim(value);
    let p = |c: char| is_uppercase(c);
    let all = |c: char|
        forall|j: int|
            0 <= j < unicode::capitals_of(c).len() ==> is_uppercase(
                #[trigger] unicode::capitals_of(c)[j],
            );
    assert forall|i: int| 0 <= i < value.len() implies all(#[trigger] value[i]) by {}
    lemma_trim_within(value, all);
    assert forall|i: int, j: int|
        0 <= i < t.len() && 0 <= j < unicode::capitals_of(t[i]).len() implies p(
        #[trigger] unicode::capitals_of(t[i])[j],
    ) by {
        assert(all(t[i]));
    }
    unicode::lemma_uppercase_within(t, p);
    assert(is_uppercase(' '));
    lemma_spaced_within(unicode::uppercase(t), p);
    let r = normalized(value);
    assert forall|i: int| 0 <= i < r.len() implies is_uppercase(#[trigger] r[i]) by {
        assert(p(r[i]));
    }
    lemma_already_uppercase(r);
    law_normal_form_stays(value);
}

proof fn lemma_already_uppercase(s: Seq<char>)
    requires
        forall|i: int| 0 <= i < s.len() ==> is_uppercase(#[trigger] s[i]),
    ensures
        unicode::uppercase(s) == s,
    decreases s.len(),
{
    if s.len() > 0 {
        let before = s.drop_last();
        assert forall|i: int| 0 <= i < before.len() implies is_uppercase(#[trigger] before[i]) by {
            assert(before[i] == s[i]);
        }
        lemma_already_uppercase(before);
        assert(is_uppercase(s[s.len() - 1]));
        assert(before + seq![s.last()] == s);
    }
}

proof fn lemma_trim_within(s: Seq<char>, p: spec_fn(char) -> bool)
    requires
        forall|i: int| 0 <= i < s.len() ==> p(#[trigger] s[i]),
    ensures
        forall|i: int| 0 <= i < text::trim(s).len() ==> p(#[trigger] text::trim(s)[i]),
{
    let t = text::trim(s);
    let start = text::trim_start(s);
    text::lemma_run(s, CharClass::White);
    text::lemma_trailing(start);
    assert forall|i: int| 0 <= i < t.len() implies p(#[trigger] t[i]) by {
        assert(t[i] == start[i]);
        assert(start[i] == s[i + text::run_len(s, CharClass::White)]);
    }
}

/// Whether a character is an ASCII character, and no lower-case letter.
spec fn is_raised(c: char) -> bool {
    unicode::is_ascii_char(c) && !('a' <= c && c <= 'z')
}

proof fn lemma_ascii_normal_form(value: Seq<char>)
    requires
        unicode::is_ascii_text(value),
    ensures
        unicode::is_ascii_text(text::trim(value)),
        forall|i: int| 0 <= i < normalized(value).len() ==> is_raised(#[trigger] normalized(value)[i]),
        unicode::is_ascii_text(normalized(value)),
        unicode::capitals(normalized(value)) == normalized(value),
        unicode::uppercase(normalized(value)) == normalized(value),
        unicode::uppercase(text::trim(value)) == unicode::capitals(text::trim(value)),
{
    let t = text::trim(value);
    let ascii = |c: char| unicode::is_ascii_char(c);
    lemma_trim_within(value, ascii);
    assert forall|i: int| 0 <= i < t.len() implies unicode::is_ascii_char(#[trigger] t[i]) by {
        assert(ascii(t[i]));
    }
    unicode::lemma_uppercase_of_ascii(t);
    let upper = unicode::capitals(t);
    assert forall|i: int| 0 <= i < upper.len() implies is_raised(#[trigger] upper[i]) by {
        runs::lemma_capital_stays(t[i]);
    }
    lemma_spaced_within(upper, |c: char| is_raised(c));
    let r = normalized(value);
    assert forall|i: int| 0 <= i < r.len() implies unicode::is_ascii_char(#[trigger] r[i]) by {
        assert(is_raised(r[i]));
    }
    assert(unicode::capitals(r) =~= r);
    unicode::lemma_uppercase_of_ascii(r);
}

/// The words of the normal form of an ASCII value are the words of the value in capitals, and
/// normalizing a second time changes nothing.
pub proof fn law_normal_form_of_ascii(value: Seq<char>)
    requires
        unicode::is_ascii_text(value),
    ensures
        text::words(normalized(value)) == runs::all_capitals(text::words(value)),
        normalized(normalized(value)) == normalized(value),
{
    lemma_ascii_normal_form(value);
    law_normal_form_stays(value);
    law_normal_form_is_evenly_spaced(value);
    let t = text::trim(value);
    runs::lemma_words_are_runs(unicode::capitals(t));
    runs::lemma_runs_of_capitals(t, CharClass::Dark);
    runs::lemma_runs_trim(value, CharClass::Dark);
    runs::lemma_words_are_runs(value);
}

proof fn lemma_nothing_to_remove(s: Seq<char>)
    requires
        unicode::is_ascii_text(s),
    ensures
        without_marks(s) == s,
    decreases s.len(),
{
    if s.len() > 0 {
        let before = s.drop_last();
        assert forall|i: int| 0 <= i < before.len() implies unicode::is_ascii_char(
            #[trigger] before[i],
        ) by {
            assert(before[i] == s[i]);
        }
        lemma_nothing_to_remove(before);
        assert(unicode::is_ascii_char(s[s.len() - 1]));
        assert(before.push(s.last()) == s);
    }
}

/// A loose form is evenly spaced, and loosening it again changes nothing.
pub proof fn law_loose_form_stays(value: Seq<char>)
    ensures
        is_evenly_spaced(loosely_normalized(value)),
        loosely_normalized(loosely_normalized(value)) == loosely_normalized(value),
{
    let inner = blanked(without_marks(decomposed(normalized(value))));
    let r = loosely_normalized(value);
    lemma_spaced_is_even(inner);
    law_spacing_keeps_words(inner);
    law_loose_form_is_plain(value);
    lemma_even_is_trimmed(r);
    assert forall|i: int| 0 <= i < r.len() implies unicode::is_ascii_char(#[trigger] r[i]) by {
        assert(is_loose(r[i]));
    }
    assert(unicode::capitals(r) =~= r) by {
        assert forall|i: int| 0 <= i < r.len() implies unicode::capital(#[trigger] r[i]) == r[i] by {
            assert(is_loose(r[i]));
        }
    }
    unicode::lemma_uppercase_of_ascii(r);
    assert(normalized(r) == spaced(r));
    lemma_nothing_to_remove(r);
    assert(blanked(r) =~= r) by {
        assert forall|i: int| 0 <= i < r.len() implies blanked(r)[i] == #[trigger] r[i] by {
            assert(is_loose(r[i]));
        }
    }
}

proof fn lemma_words_of_blanked(s: Seq<char>)
    requires
        forall|i: int| 0 <= i < s.len() ==> is_raised(#[trigger] s[i]),
    ensures
        text::words(blanked(s)) == runs::runs(s, CharClass::Plain),
    decreases s.len(),
{
    let b = blanked(s);
    assert forall|i: int| 0 <= i < s.len() implies text::in_class(CharClass::Dark, #[trigger] b[i])
        == text::in_class(CharClass::Plain, s[i]) by {
        assert(is_raised(s[i]));
    }
    if s.len() > 0 {
        assert(text::in_class(CharClass::Dark, b[0]) == text::in_class(CharClass::Plain, s[0]));
        let n = if text::in_class(CharClass::Plain, s[0]) {
            text::run_len(s, CharClass::Plain) as int
        } else {
            1
        };
        text::lemma_run(s, CharClass::Plain);
        let rest = s.skip(n);
        assert forall|i: int| 0 <= i < rest.len() implies is_raised(#[trigger] rest[i]) by {
            assert(rest[i] == s[n + i]);
        }
        lemma_words_of_blanked(rest);
        assert(b.skip(n) == blanked(rest));
        if text::in_class(CharClass::Plain, s[0]) {
            assert forall|i: int| 0 <= i < n implies text::in_class(
                CharClass::Dark,
                #[trigger] b[i],
            ) by {
                assert(text::in_class(CharClass::Plain, s[i]));
            }
            if n < s.len() {
                assert(text::in_class(CharClass::Dark, b[n]) == text::in_class(
                    CharClass::Plain,
                    s[n],
                ));
            }
            text::lemma_run_is(b, CharClass::Dark, n);
            assert forall|i: int| 0 <= i < n implies b[i] == #[trigger] s[i] by {
                assert(text::in_class(CharClass::Plain, s[i]));
                assert(is_raised(s[i]));
            }
            assert(b.take(n) == s.take(n));
        }
    }
}

/// The words of the loose form of an ASCII value are the runs of letters and digits of the value,
/// in capitals.
pub proof fn law_loose_words_of_ascii(value: Seq<char>)
    requires
        unicode::is_ascii_text(value),
    ensures
        text::words(loosely_normalized(value)) == runs::all_capitals(
            runs::runs(value, CharClass::Plain),
        ),
{
    lemma_ascii_normal_form(value);
    let r = normalized(value);
    lemma_nothing_to_remove(r);
    law_spacing_keeps_words(blanked(r));
    lemma_words_of_blanked(r);
    let t = text::trim(value);
    runs::lemma_runs_of_joined_words(unicode::capitals(t), CharClass::Plain);
    runs::lemma_runs_of_capitals(t, CharClass::Plain);
    runs::lemma_runs_trim(value, CharClass::Plain);
}

/// Removing marks from two texts is removing them from each.
pub proof fn law_marks_are_removed_piecewise(a: Seq<char>, b: Seq<char>)
    ensures
        without_marks(a + b) == without_marks(a) + without_marks(b),
    decreases b.len(),
{
    let s = a + b;
    if b.len() == 0 {
        assert(s == a);
        assert(without_marks(a) + Seq::<char>::empty() == without_marks(a));
    } else {
        law_marks_are_removed_piecewise(a, b.drop_last());
        assert(s.drop_last() == a + b.drop_last());
        let before = without_marks(a) + without_marks(b.drop_last());
        assert(before.push(b.last()) == without_marks(a) + without_marks(b.drop_last()).push(
            b.last(),
        ));
    }
}

/// Removing marks drops every mark and nothing else: a text without marks is left as it is, and one
/// of marks alone leaves nothing.
pub proof fn law_only_marks_are_removed(s: Seq<char>)
    ensures
        (forall|i: int| 0 <= i < s.len() ==> category_of(#[trigger] s[i]) == Category::Other)
            ==> without_marks(s) == s,
        (forall|i: int| 0 <= i < s.len() ==> category_of(#[trigger] s[i]) != Category::Other)
            ==> without_marks(s) == Seq::<char>::empty(),
    decreases s.len(),
{
    if s.len() > 0 {
        let before = s.drop_last();
        law_only_marks_are_removed(before);
        if forall|i: int| 0 <= i < s.len() ==> category_of(#[trigger] s[i]) == Category::Other {
            assert forall|i: int| 0 <= i < before.len() implies category_of(#[trigger] before[i])
                == Category::Other by {
                assert(before[i] == s[i]);
            }
            assert(category_of(s[s.len() - 1]) == Category::Other);
            assert(before.push(s.last()) == s);
        }
        if forall|i: int| 0 <= i < s.len() ==> category_of(#[trigger] s[i]) != Category::Other {
            assert forall|i: int| 0 <= i < before.len() implies category_of(#[trigger] before[i])
                != Category::Other by {
                assert(before[i] == s[i]);
            }
            assert(category_of(s[s.len() - 1]) != Category::Other);
        }
    }
}

/// Where marks are removed, what is left are the other characters, as often and in the order in
/// which they stood.
pub proof fn law_other_characters_stay(s: Seq<char>)
    ensures
        without_marks(s) == s.filter(|c: char| category_of(c) == Category::Other),
    decreases s.len(),
{
    reveal(Seq::filter);
    if s.len() > 0 {
        law_other_characters_stay(s.drop_last());
    }
}

/// Of a text without white space but spaces, the capitals and digits stay where they are and
/// anything else becomes a space; putting two texts together changes nothing of that.
pub proof fn law_capitals_and_digits_stay(s: Seq<char>, i: int)
    requires
        0 <= i < s.len(),
    ensures
        blanked(s).len() == s.len(),
        ('A' <= s[i] && s[i] <= 'Z') || ('0' <= s[i] && s[i] <= '9') ==> blanked(s)[i] == s[i],
        !(('A' <= s[i] && s[i] <= 'Z') || ('0' <= s[i] && s[i] <= '9')) ==> blanked(s)[i] == ' ',
{
}

/// Whether characters are capitals or digits throughout.
pub open spec fn is_code(s: Seq<char>) -> bool {
    forall|i: int|
        0 <= i < s.len() ==> ('A' <= #[trigger] s[i] && s[i] <= 'Z') || ('0' <= s[i] && s[i]
            <= '9')
}

/// The loose form of a value parts at everything but capitals and digits of what is left of the
/// value without accents: a character of any other kind between two such texts parts their words,
/// and takes none away.
pub proof fn law_other_characters_part_words(a: Seq<char>, c: char, b: Seq<char>)
    requires
        !is_code(seq![c]),
    ensures
        text::words(blanked(a + seq![c] + b)) == text::words(blanked(a)) + text::words(blanked(b)),
        is_code(a) && a.len() > 0 ==> text::words(blanked(a)) == seq![a],
{
    let one = seq![c];
    assert(!(('A' <= one[0] && one[0] <= 'Z') || ('0' <= one[0] && one[0] <= '9')));
    reveal_strlit(" ");
    assert(blanked(a + one + b) == blanked(a) + " "@ + blanked(b));
    lemma_space_parts(blanked(a), blanked(b));
    if is_code(a) && a.len() > 0 {
        assert(blanked(a) =~= a);
        assert forall|i: int| 0 <= i < a.len() implies text::in_class(
            CharClass::Dark,
            #[trigger] a[i],
        ) by {}
        lemma_one_word(a);
    }
}

} // verus!
