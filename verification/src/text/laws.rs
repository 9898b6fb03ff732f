//! What holds of cutting and putting together texts.

use crate::text;
use crate::text::CharClass;
use crate::unicode;
use vstd::prelude::*;

verus! {

/// The pieces of a text between occurrences of a character do not hold it, and put together with it
/// between them they make the text.
pub proof fn law_pieces_make_the_text(s: Seq<char>, c: char)
    ensures
        text::split_on(s, c).len() > 0,
        text::join(text::split_on(s, c), seq![c]) == s,
        forall|i: int|
            0 <= i < text::split_on(s, c).len() ==> !(#[trigger] text::split_on(s, c)[i]).contains(c),
    decreases s.len(),
{
    let pieces = text::split_on(s, c);
    s.index_of_first_ensures(c);
    if s.contains(c) {
        let n = s.index_of_first(c)->0;
        let first = s.take(n);
        let rest = s.skip(n + 1);
        law_pieces_make_the_text(rest, c);
        lemma_join_front(first, text::split_on(rest, c), seq![c]);
        assert(first + seq![c] + rest == s);
        assert forall|i: int| 0 <= i < pieces.len() implies !(#[trigger] pieces[i]).contains(c) by {
            if i == 0 {
                assert forall|j: int| 0 <= j < first.len() implies first[j] != c by {
                    assert(first[j] == s[j]);
                }
            } else {
                assert(pieces[i] == text::split_on(rest, c)[i - 1]);
            }
        }
    }
}

/// A first part comes before the others.
pub proof fn lemma_join_front(first: Seq<char>, rest: Seq<Seq<char>>, sep: Seq<char>)
    requires
        rest.len() > 0,
    ensures
        text::join(seq![first] + rest, sep) == first + sep + text::join(rest, sep),
    decreases rest.len(),
{
    let all = seq![first] + rest;
    if rest.len() == 1 {
        assert(all.drop_last() == seq![first]);
        assert(text::join(all.drop_last(), sep) == first);
        assert(all.last() == rest[0]);
    } else {
        assert(all.drop_last() == seq![first] + rest.drop_last());
        lemma_join_front(first, rest.drop_last(), sep);
        assert(all.last() == rest.last());
        assert(first + sep + text::join(rest.drop_last(), sep) + sep + rest.last() == first + sep + (
        text::join(rest.drop_last(), sep) + sep + rest.last()));
    }
}

/// Parts that do not hold a character, put together with it between them, come apart again as they
/// were.
pub proof fn law_joined_parts_come_apart(parts: Seq<Seq<char>>, c: char)
    requires
        parts.len() > 0,
        forall|i: int| 0 <= i < parts.len() ==> !(#[trigger] parts[i]).contains(c),
    ensures
        text::split_on(text::join(parts, seq![c]), c) == parts,
    decreases parts.len(),
{
    let first = parts[0];
    let rest = parts.skip(1);
    let s = text::join(parts, seq![c]);
    assert(!parts[0].contains(c));
    if parts.len() == 1 {
        assert(parts == seq![first]);
    } else {
        assert(seq![first] + rest == parts);
        lemma_join_front(first, rest, seq![c]);
        assert forall|i: int| 0 <= i < rest.len() implies !(#[trigger] rest[i]).contains(c) by {
            assert(rest[i] == parts[i + 1]);
        }
        law_joined_parts_come_apart(rest, c);
        let n = first.len() as int;
        assert(s[n] == c);
        s.index_of_first_ensures(c);
        let at = s.index_of_first(c)->0;
        if at < n {
            assert(first[at] == c);
        }
        if at > n {
            assert(s[n] != c);
        }
        assert(s.take(n) == first);
        assert(s.skip(n + 1) == text::join(rest, seq![c]));
    }
}

/// Trimming leaves a part of the text that neither begins nor ends with white space, and takes
/// away nothing but white space before and after it.
pub proof fn law_trimming_takes_blanks_alone(s: Seq<char>)
    ensures
        exists|from: int, to: int|
            0 <= from <= to <= s.len() && text::trim(s) == #[trigger] s.subrange(from, to) && (
            forall|i: int|
                0 <= i < from || to <= i < s.len() ==> unicode::is_white(#[trigger] s[i])),
        text::trim(s).len() > 0 ==> !unicode::is_white(text::trim(s)[0]) && !unicode::is_white(
            text::trim(s).last(),
        ),
{
    let from = text::run_len(s, CharClass::White) as int;
    text::lemma_run(s, CharClass::White);
    let t = text::trim_start(s);
    text::lemma_trailing(t);
    let to = s.len() - text::trailing_white(t);
    assert(text::trim(s) == s.subrange(from, to));
    assert forall|i: int| 0 <= i < from || to <= i < s.len() implies unicode::is_white(
        #[trigger] s[i],
    ) by {
        if i < from {
            assert(text::in_class(CharClass::White, s[i]));
        } else {
            assert(s[i] == t[i - from]);
        }
    }
    if text::trim(s).len() > 0 {
        assert(text::trim(s)[0] == s[from]);
        assert(!text::in_class(CharClass::White, s[from]));
        assert(text::trim(s).last() == t[t.len() - text::trailing_white(t) - 1]);
    }
}

/// What stands between two texts is found again, whatever it is.
pub proof fn law_between_is_what_was_put_between(
    open: Seq<char>,
    inner: Seq<char>,
    close: Seq<char>,
)
    ensures
        text::between(open + inner + close, open, close) == Some(inner),
{
    let s = open + inner + close;
    assert(s.subrange(0, open.len() as int) == open);
    let rest = s.skip(open.len() as int);
    assert(rest == inner + close);
    assert(rest.subrange(rest.len() - close.len(), rest.len() as int) == close);
    assert(rest.take(rest.len() - close.len()) == inner);
}

/// The first occurrence of a text is where it stands and does not stand before.
pub proof fn law_first_occurrence_is_found(s: Seq<char>, pat: Seq<char>, from: int)
    requires
        0 <= from,
    ensures
        match text::find_from(s, pat, from) {
            Some(at) => from <= at <= s.len() - pat.len() && s.subrange(at, at + pat.len()) == pat
                && (forall|i: int|
                from <= i < at ==> #[trigger] s.subrange(i, i + pat.len()) != pat),
            None => forall|i: int|
                from <= i <= s.len() - pat.len() ==> #[trigger] s.subrange(i, i + pat.len()) != pat,
        },
    decreases s.len() + 1 - from,
{
    if from + pat.len() <= s.len() && s.subrange(from, from + pat.len()) != pat {
        law_first_occurrence_is_found(s, pat, from + 1);
    }
}

/// Two lists of parts put together are each of them put together, one after the other; one part is
/// itself.
pub proof fn law_concatenations_join(a: Seq<Seq<char>>, b: Seq<Seq<char>>)
    ensures
        text::concat(a + b) == text::concat(a) + text::concat(b),
        a.len() == 1 ==> text::concat(a) == a[0],
    decreases b.len(),
{
    if a.len() == 1 {
        assert(text::concat(a.drop_last()) =~= Seq::<char>::empty());
        assert(text::concat(a) =~= a[0]);
    }
    if b.len() == 0 {
        assert(a + b == a);
        assert(text::concat(a) + Seq::<char>::empty() == text::concat(a));
    } else {
        assert((a + b).drop_last() == a + b.drop_last());
        law_concatenations_join(a, b.drop_last());
        assert(text::concat(a) + text::concat(b.drop_last()) + b.last() == text::concat(a) + (
        text::concat(b.drop_last()) + b.last()));
    }
}

/// Two lists of parts joined are each of them joined, with the separator between them.
pub proof fn law_joins_join(a: Seq<Seq<char>>, b: Seq<Seq<char>>, sep: Seq<char>)
    requires
        a.len() > 0,
        b.len() > 0,
    ensures
        text::join(a + b, sep) == text::join(a, sep) + sep + text::join(b, sep),
    decreases b.len(),
{
    let all = a + b;
    if b.len() == 1 {
        assert(all.drop_last() == a);
        assert(all.last() == b[0]);
    } else {
        assert(all.drop_last() == a + b.drop_last());
        law_joins_join(a, b.drop_last(), sep);
        assert(all.last() == b.last());
        assert(text::join(a, sep) + sep + text::join(b.drop_last(), sep) + sep + b.last()
            == text::join(a, sep) + sep + (text::join(b.drop_last(), sep) + sep + b.last()));
    }
}

/// Which ASCII characters belong to names, words and white space, and which characters may follow
/// the name of a bare class.
pub proof fn law_ascii_characters_are_told(c: char)
    requires
        c <= '\u{7f}',
    ensures
        ({
            let letter = 'A' <= c <= 'Z' || 'a' <= c <= 'z';
            let digit = '0' <= c <= '9';
            &&& text::in_class(CharClass::Plain, c) == (letter || digit)
            &&& text::in_class(CharClass::Ident, c) == (letter || digit || c == '_')
            &&& text::is_word(c) == (letter || digit || seq!['_', '-', '\''].contains(c))
            &&& text::in_class(CharClass::White, c) == seq![
                ' ',
                '\t',
                '\n',
                '\u{b}',
                '\u{c}',
                '\r',
            ].contains(c)
            &&& text::in_class(CharClass::Dark, c) != text::in_class(CharClass::White, c)
            &&& text::in_class(CharClass::ClassPrefix, c) == (letter || digit || seq![
                '_',
                '@',
                '#',
                ',',
                '+',
                '?',
                '|',
            ].contains(c))
        }),
{
    let joints = seq!['_', '-', '\''];
    assert(joints[0] == '_' && joints[1] == '-' && joints[2] == '\'');
    let blanks = seq![' ', '\t', '\n', '\u{b}', '\u{c}', '\r'];
    assert(blanks[0] == ' ' && blanks[1] == '\t' && blanks[2] == '\n' && blanks[3] == '\u{b}'
        && blanks[4] == '\u{c}' && blanks[5] == '\r');
    let signs = seq!['_', '@', '#', ',', '+', '?', '|'];
    assert(signs[0] == '_' && signs[1] == '@' && signs[2] == '#' && signs[3] == ',' && signs[4]
        == '+' && signs[5] == '?' && signs[6] == '|');
}

/// The capital of an ASCII letter stands where the letter stands in the alphabet; other characters
/// are their own capitals.
pub proof fn law_capitals_keep_their_place(i: int, c: char)
    requires
        0 <= i < 26,
        !('a' <= c <= 'z'),
    ensures
        unicode::capital(('a' as int + i) as char) == ('A' as int + i) as char,
        unicode::capital(c) == c,
{
}

} // verus!
