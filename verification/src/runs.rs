//! Maximal runs of the characters of a class.

use crate::text;
use crate::text::CharClass;
use crate::unicode;
use vstd::prelude::*;

verus! {

/// The maximal runs of characters of `s` that belong to `class`, in order.
pub open spec fn runs(s: Seq<char>, class: CharClass) -> Seq<Seq<char>>
    decreases s.len(),
{
    if s.len() == 0 {
        Seq::empty()
    } else if !text::in_class(class, s[0]) {
        runs(s.skip(1), class)
    } else {
        let n = text::run_len(s, class) as int;
        if 0 < n <= s.len() {
            seq![s.take(n)] + runs(s.skip(n), class)
        } else {
            Seq::empty()
        }
    }
}

/// The runs of texts, one text after another.
pub open spec fn all_runs(parts: Seq<Seq<char>>, class: CharClass) -> Seq<Seq<char>>
    decreases parts.len(),
{
    if parts.len() == 0 {
        Seq::empty()
    } else {
        runs(parts[0], class) + all_runs(parts.skip(1), class)
    }
}

/// Whether white space belongs to no run of a class.
pub open spec fn leaves_out_blanks(class: CharClass) -> bool {
    class == CharClass::Dark || class == CharClass::Plain
}

/// Texts with capitals in place of their ASCII letters.
pub open spec fn all_capitals(parts: Seq<Seq<char>>) -> Seq<Seq<char>> {
    Seq::new(parts.len(), |i: int| unicode::capitals(parts[i]))
}

/// Words are runs.
pub proof fn lemma_words_are_runs(s: Seq<char>)
    ensures
        text::words(s) == runs(s, CharClass::Dark),
    decreases s.len(),
{
    if s.len() > 0 {
        if unicode::is_white(s[0]) {
            lemma_words_are_runs(s.skip(1));
        } else {
            let n = text::run_len(s, CharClass::Dark) as int;
            text::lemma_run(s, CharClass::Dark);
            lemma_words_are_runs(s.skip(n));
        }
    }
}

/// Where the second text does not go on with a run, two texts have the runs of each.
pub proof fn lemma_runs_part(a: Seq<char>, b: Seq<char>, class: CharClass)
    requires
        b.len() > 0 ==> !text::in_class(class, b[0]),
    ensures
        runs(a + b, class) == runs(a, class) + runs(b, class),
    decreases a.len(),
{
    let s = a + b;
    if a.len() == 0 {
        assert(s == b);
        assert(runs(a, class) + runs(b, class) == runs(b, class));
    } else if !text::in_class(class, a[0]) {
        lemma_runs_part(a.skip(1), b, class);
        assert(s.skip(1) == a.skip(1) + b);
        assert(s[0] == a[0]);
    } else {
        let n = text::run_len(a, class) as int;
        text::lemma_run(a, class);
        assert(s[0] == a[0]);
        assert forall|i: int| 0 <= i < n implies text::in_class(class, #[trigger] s[i]) by {
            assert(s[i] == a[i]);
        }
        if n < a.len() {
            assert(s[n] == a[n]);
        } else if b.len() > 0 {
            assert(s[n] == b[0]);
        }
        text::lemma_run_is(s, class, n);
        lemma_runs_part(a.skip(n), b, class);
        assert(s.take(n) == a.take(n));
        assert(s.skip(n) == a.skip(n) + b);
        assert(seq![a.take(n)] + (runs(a.skip(n), class) + runs(b, class)) == seq![a.take(n)]
            + runs(a.skip(n), class) + runs(b, class));
    }
}

/// A text without characters of a class has no runs of it.
pub proof fn lemma_no_runs(s: Seq<char>, class: CharClass)
    requires
        forall|i: int| 0 <= i < s.len() ==> !text::in_class(class, #[trigger] s[i]),
    ensures
        runs(s, class) == Seq::<Seq<char>>::empty(),
    decreases s.len(),
{
    if s.len() > 0 {
        assert forall|i: int| 0 <= i < s.skip(1).len() implies !text::in_class(
            class,
            #[trigger] s.skip(1)[i],
        ) by {
            assert(s.skip(1)[i] == s[i + 1]);
        }
        lemma_no_runs(s.skip(1), class);
    }
}

proof fn lemma_runs_trim_start(s: Seq<char>, class: CharClass)
    requires
        leaves_out_blanks(class),
    ensures
        runs(text::trim_start(s), class) == runs(s, class),
    decreases s.len(),
{
    if s.len() > 0 && unicode::is_white(s[0]) {
        let t = s.skip(1);
        lemma_runs_trim_start(t, class);
        text::lemma_run(t, CharClass::White);
        assert(t.skip(text::run_len(t, CharClass::White) as int) == text::trim_start(s));
        assert(!text::in_class(class, s[0]));
    } else {
        assert(text::trim_start(s) == s);
    }
}

/// Trimming takes no runs away.
pub proof fn lemma_runs_trim(s: Seq<char>, class: CharClass)
    requires
        leaves_out_blanks(class),
    ensures
        runs(text::trim(s), class) == runs(s, class),
{
    lemma_runs_trim_start(s, class);
    let t = text::trim_start(s);
    text::lemma_trailing(t);
    let k = t.len() - text::trailing_white(t);
    let tail = t.skip(k);
    assert forall|i: int| 0 <= i < tail.len() implies !text::in_class(class, #[trigger] tail[i]) by {
        assert(tail[i] == t[k + i]);
        assert(unicode::is_white(t[k + i]));
    }
    lemma_no_runs(tail, class);
    if tail.len() > 0 {
        assert(!text::in_class(class, tail[0]));
    }
    lemma_runs_part(t.take(k), tail, class);
    assert(t.take(k) + tail == t);
    assert(runs(t.take(k), class) + Seq::<Seq<char>>::empty() == runs(t.take(k), class));
}

/// The runs of a text are those of its words.
proof fn lemma_runs_of_words(s: Seq<char>, class: CharClass)
    requires
        leaves_out_blanks(class),
    ensures
        all_runs(text::words(s), class) == runs(s, class),
    decreases s.len(),
{
    if s.len() > 0 {
        if unicode::is_white(s[0]) {
            lemma_runs_of_words(s.skip(1), class);
            assert(!text::in_class(class, s[0]));
        } else {
            let n = text::run_len(s, CharClass::Dark) as int;
            text::lemma_run(s, CharClass::Dark);
            assert(text::in_class(CharClass::Dark, s[0]));
            let rest = s.skip(n);
            lemma_runs_of_words(rest, class);
            let words = text::words(s);
            assert(words[0] == s.take(n));
            assert(words.skip(1) == text::words(rest));
            if rest.len() > 0 {
                assert(rest[0] == s[n]);
                assert(!text::in_class(class, rest[0]));
            }
            lemma_runs_part(s.take(n), rest, class);
            assert(s.take(n) + rest == s);
        }
    }
}

proof fn lemma_all_runs_last(parts: Seq<Seq<char>>, class: CharClass)
    requires
        parts.len() > 0,
    ensures
        all_runs(parts, class) == all_runs(parts.drop_last(), class) + runs(parts.last(), class),
    decreases parts.len(),
{
    if parts.len() == 1 {
        assert(parts.drop_last() == Seq::<Seq<char>>::empty());
        assert(parts.skip(1) == Seq::<Seq<char>>::empty());
        assert(all_runs(parts.skip(1), class) == Seq::<Seq<char>>::empty());
        assert(runs(parts[0], class) + Seq::<Seq<char>>::empty() == Seq::<Seq<char>>::empty()
            + runs(parts[0], class));
    } else {
        lemma_all_runs_last(parts.skip(1), class);
        assert(parts.skip(1).drop_last() == parts.drop_last().skip(1));
        assert(parts.skip(1).last() == parts.last());
        assert(parts.drop_last()[0] == parts[0]);
        let head = runs(parts[0], class);
        let middle = all_runs(parts.drop_last().skip(1), class);
        let last = runs(parts.last(), class);
        assert(head + (middle + last) == head + middle + last);
    }
}

/// Texts that are joined by spaces have the runs of each.
pub proof fn lemma_runs_of_join(parts: Seq<Seq<char>>, class: CharClass)
    requires
        leaves_out_blanks(class),
    ensures
        runs(text::join(parts, " "@), class) == all_runs(parts, class),
    decreases parts.len(),
{
    reveal_strlit(" ");
    if parts.len() == 1 {
        lemma_all_runs_last(parts, class);
        assert(parts.drop_last() == Seq::<Seq<char>>::empty());
        assert(all_runs(parts.drop_last(), class) == Seq::<Seq<char>>::empty());
        assert(Seq::<Seq<char>>::empty() + runs(parts[0], class) == runs(parts[0], class));
    } else if parts.len() > 1 {
        let before = text::join(parts.drop_last(), " "@);
        let rest = " "@ + parts.last();
        lemma_runs_of_join(parts.drop_last(), class);
        lemma_all_runs_last(parts, class);
        assert(rest[0] == ' ');
        assert(!text::in_class(class, ' '));
        lemma_runs_part(before, rest, class);
        assert(before + rest == text::join(parts, " "@));
        assert(rest.skip(1) == parts.last());
    }
}

/// A text and its words with single spaces between them have the same runs.
pub proof fn lemma_runs_of_joined_words(s: Seq<char>, class: CharClass)
    requires
        leaves_out_blanks(class),
    ensures
        runs(text::join(text::words(s), " "@), class) == runs(s, class),
{
    lemma_runs_of_join(text::words(s), class);
    lemma_runs_of_words(s, class);
}

/// The runs of a text in capitals are the runs of the text in capitals.
pub proof fn lemma_runs_of_capitals(s: Seq<char>, class: CharClass)
    requires
        leaves_out_blanks(class),
    ensures
        runs(unicode::capitals(s), class) == all_capitals(runs(s, class)),
    decreases s.len(),
{
    let t = unicode::capitals(s);
    assert forall|i: int| 0 <= i < s.len() implies text::in_class(class, #[trigger] t[i])
        == text::in_class(class, s[i]) by {
        lemma_capital_stays(s[i]);
    }
    if s.len() > 0 {
        assert(text::in_class(class, t[0]) == text::in_class(class, s[0]));
        if !text::in_class(class, s[0]) {
            lemma_runs_of_capitals(s.skip(1), class);
            assert(t.skip(1) == unicode::capitals(s.skip(1)));
        } else {
            let n = text::run_len(s, class) as int;
            text::lemma_run(s, class);
            assert forall|i: int| 0 <= i < n implies text::in_class(class, #[trigger] t[i]) by {
                assert(text::in_class(class, s[i]));
            }
            if n < s.len() {
                assert(text::in_class(class, t[n]) == text::in_class(class, s[n]));
            }
            text::lemma_run_is(t, class, n);
            lemma_runs_of_capitals(s.skip(n), class);
            assert(t.skip(n) == unicode::capitals(s.skip(n)));
            assert(t.take(n) == unicode::capitals(s.take(n)));
            assert(seq![t.take(n)] + all_capitals(runs(s.skip(n), class)) == all_capitals(
                seq![s.take(n)] + runs(s.skip(n), class),
            ));
        }
    } else {
        assert(all_capitals(runs(s, class)) == Seq::<Seq<char>>::empty());
    }
}

/// A capital is a letter where the character is one, and white space where it is.
pub proof fn lemma_capital_stays(c: char)
    ensures
        unicode::is_white(unicode::capital(c)) == unicode::is_white(c),
        text::in_class(CharClass::Plain, unicode::capital(c)) == text::in_class(
            CharClass::Plain,
            c,
        ),
        unicode::is_ascii_char(unicode::capital(c)) == unicode::is_ascii_char(c),
        !('a' <= unicode::capital(c) && unicode::capital(c) <= 'z'),
{
}

} // verus!
