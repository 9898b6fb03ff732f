//! Character properties and whole-text mappings that come from Unicode data.

use vstd::prelude::*;

verus! {

/// The `White_Space` property of a character outside ASCII.
pub uninterp spec fn unicode_white_space(c: char) -> bool;

/// Whether a character outside ASCII is alphabetic or numeric.
pub uninterp spec fn unicode_alphanumeric(c: char) -> bool;

/// The uppercase mapping of a character outside ASCII, which is one or more characters.
pub uninterp spec fn unicode_capitals(c: char) -> Seq<char>;

/// Whether a character is one of the 128 ASCII characters.
pub open spec fn is_ascii_char(c: char) -> bool {
    c <= '\u{7f}'
}

/// Whether every character of a text is an ASCII character.
pub open spec fn is_ascii_text(s: Seq<char>) -> bool {
    forall|i: int| 0 <= i < s.len() ==> is_ascii_char(#[trigger] s[i])
}

/// The capital of an ASCII letter; any other character itself.
pub open spec fn capital(c: char) -> char {
    if 'a' <= c && c <= 'z' {
        (c as int - 32) as char
    } else {
        c
    }
}

/// A text with capitals in place of its ASCII letters.
pub open spec fn capitals(s: Seq<char>) -> Seq<char> {
    Seq::new(s.len(), |i: int| capital(s[i]))
}

/// The uppercase mapping of a character.
pub open spec fn capitals_of(c: char) -> Seq<char> {
    if is_ascii_char(c) {
        seq![capital(c)]
    } else {
        unicode_capitals(c)
    }
}

/// The uppercase form of a text: that of each of its characters, one after another.
pub open spec fn uppercase(s: Seq<char>) -> Seq<char>
    decreases s.len(),
{
    if s.len() == 0 {
        Seq::empty()
    } else {
        uppercase(s.drop_last()) + capitals_of(s.last())
    }
}

/// What a mapping gives for the characters of a text, one after another.
pub open spec fn mapped(s: Seq<char>, mapping: spec_fn(char) -> Seq<char>) -> Seq<char>
    decreases s.len(),
{
    if s.len() == 0 {
        Seq::empty()
    } else {
        mapped(s.drop_last(), mapping) + mapping(s.last())
    }
}

/// What maps each character to uppercase gives the uppercase form of a text.
pub proof fn lemma_mapped_to_uppercase(s: Seq<char>, mapping: spec_fn(char) -> Seq<char>)
    requires
        forall|c: char| #[trigger] mapping(c) == capitals_of(c),
    ensures
        mapped(s, mapping) == uppercase(s),
    decreases s.len(),
{
    if s.len() > 0 {
        lemma_mapped_to_uppercase(s.drop_last(), mapping);
    }
}

/// The uppercase form of an ASCII text is the text in capitals.
pub proof fn lemma_uppercase_of_ascii(s: Seq<char>)
    requires
        is_ascii_text(s),
    ensures
        uppercase(s) == capitals(s),
    decreases s.len(),
{
    if s.len() > 0 {
        let before = s.drop_last();
        assert forall|i: int| 0 <= i < before.len() implies is_ascii_char(#[trigger] before[i]) by {
            assert(before[i] == s[i]);
        }
        lemma_uppercase_of_ascii(before);
        assert(is_ascii_char(s[s.len() - 1]));
        assert(capitals(before) + seq![capital(s.last())] == capitals(s));
    }
}

/// The uppercase form of two texts is that of each.
pub proof fn lemma_uppercase_of_two(a: Seq<char>, b: Seq<char>)
    ensures
        uppercase(a + b) == uppercase(a) + uppercase(b),
    decreases b.len(),
{
    if b.len() == 0 {
        assert(a + b == a);
        assert(uppercase(a) + Seq::<char>::empty() == uppercase(a));
    } else {
        assert((a + b).drop_last() == a + b.drop_last());
        lemma_uppercase_of_two(a, b.drop_last());
        assert(uppercase(a) + uppercase(b.drop_last()) + capitals_of(b.last()) == uppercase(a) + (
        uppercase(b.drop_last()) + capitals_of(b.last())));
    }
}

/// What holds of the uppercase mapping of each character of a text holds of its uppercase form.
pub proof fn lemma_uppercase_within(s: Seq<char>, p: spec_fn(char) -> bool)
    requires
        forall|i: int, j: int|
            0 <= i < s.len() && 0 <= j < capitals_of(s[i]).len() ==> p(
                #[trigger] capitals_of(s[i])[j],
            ),
    ensures
        forall|i: int| 0 <= i < uppercase(s).len() ==> p(#[trigger] uppercase(s)[i]),
    decreases s.len(),
{
    if s.len() > 0 {
        let before = s.drop_last();
        assert forall|i: int, j: int|
            0 <= i < before.len() && 0 <= j < capitals_of(before[i]).len() implies p(
            #[trigger] capitals_of(before[i])[j],
        ) by {
            assert(before[i] == s[i]);
            assert(p(capitals_of(s[i])[j]));
        }
        lemma_uppercase_within(before, p);
        let n = uppercase(before).len() as int;
        let last = s.len() - 1;
        assert forall|i: int| 0 <= i < uppercase(s).len() implies p(#[trigger] uppercase(s)[i]) by {
            if i < n {
                assert(uppercase(s)[i] == uppercase(before)[i]);
            } else {
                assert(uppercase(s)[i] == capitals_of(s[last])[i - n]);
            }
        }
    }
}

/// Whether a character is white space.
pub open spec fn is_white(c: char) -> bool {
    if is_ascii_char(c) {
        c == ' ' || ('\t' <= c && c <= '\r')
    } else {
        unicode_white_space(c)
    }
}

/// Whether a character is an ASCII digit.
pub open spec fn is_digit(c: char) -> bool {
    '0' <= c && c <= '9'
}

/// Whether a character is an ASCII upper-case letter.
pub open spec fn is_ascii_upper(c: char) -> bool {
    'A' <= c && c <= 'Z'
}

/// Whether a character is an ASCII letter.
pub open spec fn is_ascii_letter(c: char) -> bool {
    is_ascii_upper(c) || ('a' <= c && c <= 'z')
}

/// Whether a character is alphabetic or numeric.
pub open spec fn is_alnum(c: char) -> bool {
    if is_ascii_char(c) {
        is_ascii_letter(c) || is_digit(c)
    } else {
        unicode_alphanumeric(c)
    }
}

/// `char::is_whitespace` holds of a space and of the ASCII controls from tab to carriage return,
/// of no other ASCII character, and follows the Unicode `White_Space` property elsewhere.
pub assume_specification[ char::is_whitespace ](c: char) -> (r: bool)
    ensures
        is_ascii_char(c) ==> r == (c == ' ' || ('\t' <= c && c <= '\r')),
        !is_ascii_char(c) ==> r == unicode_white_space(c),
;

/// `char::is_alphanumeric` holds of the ASCII letters and digits, of no other ASCII character,
/// and follows the Unicode properties elsewhere.
pub assume_specification[ char::is_alphanumeric ](c: char) -> (r: bool)
    ensures
        is_ascii_char(c) ==> r == (is_ascii_letter(c) || is_digit(c)),
        !is_ascii_char(c) ==> r == unicode_alphanumeric(c),
;

/// `str::to_uppercase` maps each character of a text to uppercase, by itself: an ASCII letter to its
/// capital, any other ASCII character to itself, and a character outside ASCII to what Unicode
/// gives for it.
pub assume_specification[ str::to_uppercase ](s: &str) -> (r: String)
    ensures
        r@ == mapped(
            s@,
            |c: char|
                if is_ascii_char(c) {
                    seq![capital(c)]
                } else {
                    unicode_capitals(c)
                },
        ),
;

/// `String::push` adds one character at the end.
pub assume_specification[ String::push ](s: &mut String, c: char)
    ensures
        final(s)@ == old(s)@.push(c),
;

} // verus!
