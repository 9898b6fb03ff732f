//! Text as a sequence of characters: runs, words, joins, splits and searches.

pub mod laws;

use vstd::prelude::*;
use crate::unicode;
use vstd::utf8;

verus! {

/// Classes of characters that runs are made of.
#[derive(Clone, Copy)]
pub enum CharClass {
    /// White space.
    White,
    /// Anything but white space.
    Dark,
    /// Letters, digits and `_`.
    Ident,
    /// Identifier characters and the modifiers that may follow a bare class name.
    ClassPrefix,
    /// ASCII letters and digits.
    Plain,
}

/// Letters, digits and `_`.
pub open spec fn is_ident(c: char) -> bool {
    unicode::is_alnum(c) || c == '_'
}

/// The characters of a word: identifier characters, hyphen and apostrophe.
pub open spec fn is_word(c: char) -> bool {
    unicode::is_alnum(c) || c == '_' || c == '-' || c == '\''
}

/// Whether `c` belongs to `class`.
pub open spec fn in_class(class: CharClass, c: char) -> bool {
    match class {
        CharClass::White => unicode::is_white(c),
        CharClass::Dark => !unicode::is_white(c),
        CharClass::Ident => is_ident(c),
        CharClass::ClassPrefix => is_ident(c) || c == '@' || c == '#' || c == ',' || c == '+' || c
            == '?' || c == '|',
        CharClass::Plain => unicode::is_ascii_letter(c) || unicode::is_digit(c),
    }
}

/// The length of the longest prefix of `s` whose characters all belong to `class`.
pub open spec fn run_len(s: Seq<char>, class: CharClass) -> nat
    decreases s.len(),
{
    if s.len() > 0 && in_class(class, s[0]) {
        1 + run_len(s.skip(1), class)
    } else {
        0
    }
}

/// The length of the longest suffix of `s` that is white space.
pub open spec fn trailing_white(s: Seq<char>) -> nat
    decreases s.len(),
{
    if s.len() > 0 && unicode::is_white(s.last()) {
        1 + trailing_white(s.drop_last())
    } else {
        0
    }
}

/// `s` without its leading white space.
pub open spec fn trim_start(s: Seq<char>) -> Seq<char> {
    s.skip(run_len(s, CharClass::White) as int)
}

/// `s` without its trailing white space.
pub open spec fn trim_end(s: Seq<char>) -> Seq<char> {
    s.take(s.len() - trailing_white(s))
}

/// `s` without white space at either end.
pub open spec fn trim(s: Seq<char>) -> Seq<char> {
    trim_end(trim_start(s))
}

/// Whether every character of `s` belongs to `class`.
pub open spec fn all_in(s: Seq<char>, class: CharClass) -> bool {
    forall|i: int| 0 <= i < s.len() ==> in_class(class, #[trigger] s[i])
}

/// The maximal runs of characters of `s` that are not white space, in order.
pub open spec fn words(s: Seq<char>) -> Seq<Seq<char>>
    decreases s.len(),
{
    if s.len() == 0 {
        Seq::empty()
    } else if unicode::is_white(s[0]) {
        words(s.skip(1))
    } else {
        let n = run_len(s, CharClass::Dark) as int;
        if 0 < n <= s.len() {
            seq![s.take(n)] + words(s.skip(n))
        } else {
            Seq::empty()
        }
    }
}

/// `parts` one after another with `sep` between neighbours.
pub open spec fn join(parts: Seq<Seq<char>>, sep: Seq<char>) -> Seq<char>
    decreases parts.len(),
{
    if parts.len() == 0 {
        Seq::empty()
    } else if parts.len() == 1 {
        parts[0]
    } else {
        join(parts.drop_last(), sep) + sep + parts.last()
    }
}

/// `parts` one after another.
pub open spec fn concat(parts: Seq<Seq<char>>) -> Seq<char>
    decreases parts.len(),
{
    if parts.len() == 0 {
        Seq::empty()
    } else {
        concat(parts.drop_last()) + parts.last()
    }
}

/// The pieces of `s` between occurrences of `c`, the ends included.
pub open spec fn split_on(s: Seq<char>, c: char) -> Seq<Seq<char>>
    decreases s.len(),
{
    if s.contains(c) {
        let n = s.index_of_first(c)->0;
        if 0 <= n < s.len() {
            seq![s.take(n)] + split_on(s.skip(n + 1), c)
        } else {
            seq![s]
        }
    } else {
        seq![s]
    }
}

/// The least position at or after `from` where `pat` occurs in `s`.
pub open spec fn find_from(s: Seq<char>, pat: Seq<char>, from: int) -> Option<int>
    decreases s.len() + 1 - from,
{
    if from < 0 || from + pat.len() > s.len() {
        None
    } else if s.subrange(from, from + pat.len()) == pat {
        Some(from)
    } else {
        find_from(s, pat, from + 1)
    }
}

/// Adding a part at the end adds its characters at the end.
pub proof fn lemma_concat_push(parts: Seq<Seq<char>>, part: Seq<char>)
    ensures
        concat(parts.push(part)) == concat(parts) + part,
{
    assert(parts.push(part).drop_last() == parts);
}

/// The characters of a text.
pub fn chars_of(s: &str) -> (r: Vec<char>)
    ensures
        r@ == s@,
{
    let mut v: Vec<char> = Vec::new();
    for c in it: s.chars()
        invariant
            v@ == s@.take(it.index() as int),
            it.seq() == s@,
    {
        v.push(c);
    }
    proof {
        assert(s@.take(s@.len() as int) == s@);
    }
    v
}

/// The characters of `v` from `from` up to `to`, as a text.
pub fn text_of(v: &Vec<char>, from: usize, to: usize) -> (r: String)
    requires
        from <= to <= v.len(),
    ensures
        r@ == v@.subrange(from as int, to as int),
{
    let mut r = String::new();
    let mut i: usize = from;
    while i < to
        invariant
            from <= i <= to <= v.len(),
            r@ == v@.subrange(from as int, i as int),
        decreases to - i,
    {
        r.push(v[i]);
        i = i + 1;
        assert(v@.subrange(from as int, i as int) == v@.subrange(from as int, i - 1).push(v@[i - 1]));
    }
    r
}

/// Two texts have the same characters exactly when they have the same bytes.
pub proof fn lemma_same_bytes(a: Seq<char>, b: Seq<char>)
    ensures
        utf8::encode_utf8(a) == utf8::encode_utf8(b) ==> a == b,
{
    utf8::encode_utf8_decode_utf8(a);
    utf8::encode_utf8_decode_utf8(b);
}

/// Whether two texts are equal.
pub fn same_text(a: &str, b: &str) -> (r: bool)
    ensures
        r == (a@ == b@),
{
    let x = a.as_bytes();
    let y = b.as_bytes();
    if x.len() != y.len() {
        return false;
    }
    let mut i: usize = 0;
    while i < x.len()
        invariant
            i <= x.len() == y.len(),
            x@ == utf8::encode_utf8(a@),
            y@ == utf8::encode_utf8(b@),
            forall|j: int| 0 <= j < i ==> x@[j] == y@[j],
        decreases x.len() - i,
    {
        if x[i] != y[i] {
            return false;
        }
        i = i + 1;
    }
    proof {
        assert(x@ == y@);
        lemma_same_bytes(a@, b@);
    }
    true
}

/// Whether `c` belongs to `class`.
pub fn char_in(class: CharClass, c: char) -> (r: bool)
    ensures
        r == in_class(class, c),
{
    match class {
        CharClass::White => c.is_whitespace(),
        CharClass::Dark => !c.is_whitespace(),
        CharClass::Ident => c.is_alphanumeric() || c == '_',
        CharClass::ClassPrefix => c.is_alphanumeric() || c == '_' || c == '@' || c == '#' || c
            == ',' || c == '+' || c == '?' || c == '|',
        CharClass::Plain => ('A' <= c && c <= 'Z') || ('a' <= c && c <= 'z') || ('0' <= c && c
            <= '9'),
    }
}

/// A run is no longer than its text, lies in its class, and ends where the class does.
pub proof fn lemma_run(s: Seq<char>, class: CharClass)
    ensures
        run_len(s, class) <= s.len(),
        forall|i: int| 0 <= i < run_len(s, class) ==> in_class(class, #[trigger] s[i]),
        run_len(s, class) < s.len() ==> !in_class(class, s[run_len(s, class) as int]),
    decreases s.len(),
{
    if s.len() > 0 && in_class(class, s[0]) {
        let t = s.skip(1);
        lemma_run(t, class);
        assert forall|i: int| 0 <= i < run_len(s, class) implies in_class(class, #[trigger] s[i]) by {
            if i > 0 {
                assert(s[i] == t[i - 1]);
            }
        }
    }
}

/// A position up to which all characters are in the class, and where the class or the text ends,
/// is the length of the run.
pub proof fn lemma_run_is(s: Seq<char>, class: CharClass, n: int)
    requires
        0 <= n <= s.len(),
        forall|i: int| 0 <= i < n ==> in_class(class, #[trigger] s[i]),
        n < s.len() ==> !in_class(class, s[n]),
    ensures
        run_len(s, class) == n,
{
    lemma_run(s, class);
    let m = run_len(s, class) as int;
    if m < n {
        assert(in_class(class, s[m]));
    } else if n < m {
        assert(in_class(class, s[n]));
    }
}

/// The position where the run of `class` that starts at `from` ends.
pub fn run_end(v: &Vec<char>, from: usize, class: CharClass) -> (r: usize)
    requires
        from <= v.len(),
    ensures
        r == from + run_len(v@.skip(from as int), class),
        from <= r <= v.len(),
{
    let mut i: usize = from;
    while i < v.len() && char_in(class, v[i])
        invariant
            from <= i <= v.len(),
            forall|j: int| from <= j < i ==> in_class(class, #[trigger] v@[j]),
        decreases v.len() - i,
    {
        i = i + 1;
    }
    proof {
        let t = v@.skip(from as int);
        assert forall|j: int| 0 <= j < i - from implies in_class(class, #[trigger] t[j]) by {
            assert(t[j] == v@[from + j]);
        }
        lemma_run_is(t, class, i - from);
    }
    i
}

/// Whether every character of `s` belongs to `class`.
pub fn all_chars_in(s: &str, class: CharClass) -> (r: bool)
    ensures
        r == all_in(s@, class),
{
    let v = chars_of(s);
    let n = run_end(&v, 0, class);
    proof {
        assert(v@.skip(0) == v@);
        lemma_run(v@, class);
    }
    n == v.len()
}

/// Trailing white space is no longer than its text and lies at its end.
pub proof fn lemma_trailing(s: Seq<char>)
    ensures
        trailing_white(s) <= s.len(),
        forall|i: int| s.len() - trailing_white(s) <= i < s.len() ==> unicode::is_white(#[trigger] s[i]),
        trailing_white(s) < s.len() ==> !unicode::is_white(s[s.len() - trailing_white(s) - 1]),
    decreases s.len(),
{
    if s.len() > 0 && unicode::is_white(s.last()) {
        let t = s.drop_last();
        lemma_trailing(t);
        assert forall|i: int| s.len() - trailing_white(s) <= i < s.len() implies unicode::is_white(
            #[trigger] s[i],
        ) by {
            if i < t.len() {
                assert(s[i] == t[i]);
            }
        }
    }
}

/// A count of final white space that stops at a character that is none is the trailing white space.
pub proof fn lemma_trailing_is(s: Seq<char>, n: int)
    requires
        0 <= n <= s.len(),
        forall|i: int| s.len() - n <= i < s.len() ==> unicode::is_white(#[trigger] s[i]),
        n < s.len() ==> !unicode::is_white(s[s.len() - n - 1]),
    ensures
        trailing_white(s) == n,
{
    lemma_trailing(s);
    let m = trailing_white(s) as int;
    if m < n {
        assert(unicode::is_white(s[s.len() - m - 1]));
    } else if n < m {
        assert(unicode::is_white(s[s.len() - n - 1]));
    }
}

/// `s` without its leading white space.
pub fn trimmed_start(s: &str) -> (r: &str)
    ensures
        r@ == trim_start(s@),
{
    let v = chars_of(s);
    let n = run_end(&v, 0, CharClass::White);
    proof {
        assert(v@.skip(0) == v@);
        lemma_run(v@, CharClass::White);
    }
    s.substring_char(n, v.len())
}

/// `s` without its trailing white space.
pub fn trimmed_end(s: &str) -> (r: &str)
    ensures
        r@ == trim_end(s@),
{
    let v = chars_of(s);
    let mut n: usize = v.len();
    while n > 0 && v[n - 1].is_whitespace()
        invariant
            n <= v.len(),
            forall|i: int| n <= i < v.len() ==> unicode::is_white(#[trigger] v@[i]),
        decreases n,
    {
        n = n - 1;
    }
    proof {
        lemma_trailing_is(v@, v.len() - n);
    }
    s.substring_char(0, n)
}

/// `s` without white space at either end.
pub fn trimmed(s: &str) -> (r: &str)
    ensures
        r@ == trim(s@),
{
    trimmed_end(trimmed_start(s))
}

/// Whether `c` occurs in `s`.
pub fn contains_char(s: &str, c: char) -> (r: bool)
    ensures
        r == s@.contains(c),
{
    let v = chars_of(s);
    let mut i: usize = 0;
    while i < v.len()
        invariant
            v@ == s@,
            i <= v.len(),
            forall|j: int| 0 <= j < i ==> v@[j] != c,
        decreases v.len() - i,
    {
        if v[i] == c {
            assert(v@[i as int] == c);
            return true;
        }
        i = i + 1;
    }
    false
}

/// Whether `pat` occurs in `v` at position `at`.
pub fn occurs_at(v: &Vec<char>, at: usize, pat: &Vec<char>) -> (r: bool)
    requires
        at <= v.len(),
    ensures
        r == (at + pat.len() <= v.len() && v@.subrange(at as int, at + pat.len()) == pat@),
{
    if pat.len() > v.len() - at {
        return false;
    }
    let mut i: usize = 0;
    while i < pat.len()
        invariant
            at + pat.len() <= v.len(),
            i <= pat.len(),
            forall|j: int| 0 <= j < i ==> v@[at + j] == pat@[j],
        decreases pat.len() - i,
    {
        if v[at + i] != pat[i] {
            assert(v@.subrange(at as int, at + pat.len())[i as int] != pat@[i as int]);
            return false;
        }
        i = i + 1;
    }
    assert(v@.subrange(at as int, at + pat.len()) == pat@);
    true
}

/// Whether `s` begins with `p`.
pub fn has_prefix(s: &str, p: &str) -> (r: bool)
    ensures
        r == p@.is_prefix_of(s@),
{
    let v = chars_of(s);
    let w = chars_of(p);
    occurs_at(&v, 0, &w)
}

/// Whether `s` ends with `p`.
pub fn has_suffix(s: &str, p: &str) -> (r: bool)
    ensures
        r == p@.is_suffix_of(s@),
{
    let v = chars_of(s);
    let w = chars_of(p);
    if w.len() > v.len() {
        return false;
    }
    occurs_at(&v, v.len() - w.len(), &w)
}

/// The first position at or after `from` where `pat` occurs in `v`.
pub fn find_sub(v: &Vec<char>, from: usize, pat: &Vec<char>) -> (r: Option<usize>)
    requires
        from <= v.len(),
    ensures
        match r {
            Some(i) => find_from(v@, pat@, from as int) == Some(i as int) && from <= i && i
                + pat.len() <= v.len(),
            None => find_from(v@, pat@, from as int) is None,
        },
{
    let mut i: usize = from;
    while i < v.len()
        invariant
            from <= i <= v.len(),
            find_from(v@, pat@, from as int) == find_from(v@, pat@, i as int),
        decreases v.len() - i,
    {
        if occurs_at(v, i, pat) {
            return Some(i);
        }
        i = i + 1;
    }
    if occurs_at(v, i, pat) {
        return Some(i);
    }
    assert(pat@.len() == 0 ==> v@.subrange(i as int, i as int) == pat@);
    None
}

/// Words of a text that begins with white space are those of the rest.
proof fn lemma_words_skip(s: Seq<char>)
    ensures
        words(s) == words(trim_start(s)),
    decreases s.len(),
{
    if s.len() > 0 && unicode::is_white(s[0]) {
        lemma_words_skip(s.skip(1));
        lemma_run(s.skip(1), CharClass::White);
        assert(s.skip(1).skip(run_len(s.skip(1), CharClass::White) as int) == trim_start(s));
    } else {
        assert(trim_start(s) == s);
    }
}

/// The words of a text.
pub fn words_of(s: &str) -> (r: Vec<String>)
    ensures
        r.deep_view() == words(s@),
{
    let v = chars_of(s);
    let mut out: Vec<String> = Vec::new();
    let mut i: usize = run_end(&v, 0, CharClass::White);
    proof {
        assert(v@.skip(0) == v@);
        lemma_words_skip(v@);
        lemma_run(v@, CharClass::White);
        assert(out.deep_view() + words(v@.skip(i as int)) == words(v@));
    }
    while i < v.len()
        invariant
            v@ == s@,
            i <= v.len(),
            i < v.len() ==> !unicode::is_white(v@[i as int]),
            out.deep_view() + words(v@.skip(i as int)) == words(s@),
        decreases v.len() - i,
    {
        let ghost before = out.deep_view();
        let ghost rest = v@.skip(i as int);
        let j = run_end(&v, i, CharClass::Dark);
        let k = run_end(&v, j, CharClass::White);
        let word = text_of(&v, i, j);
        out.push(word);
        proof {
            lemma_run(rest, CharClass::Dark);
            assert(rest[0] == v@[i as int]);
            assert(run_len(rest, CharClass::Dark) == j - i);
            assert(rest.take(j - i) == word@);
            assert(rest.skip(j - i) == v@.skip(j as int));
            lemma_words_skip(v@.skip(j as int));
            lemma_run(v@.skip(j as int), CharClass::White);
            assert(trim_start(v@.skip(j as int)) == v@.skip(k as int));
            assert(k < v.len() ==> v@.skip(j as int)[k - j] == v@[k as int]);
            assert(out.deep_view() == before.push(word@));
            assert(before.push(word@) + words(v@.skip(k as int)) == before + (seq![word@] + words(
                v@.skip(k as int),
            )));
        }
        i = k;
    }
    proof {
        assert(v@.skip(i as int).len() == 0);
        assert(out.deep_view() + words(v@.skip(i as int)) == out.deep_view());
    }
    out
}

/// `parts` one after another with `sep` between neighbours.
pub fn join_texts(parts: &Vec<String>, sep: &str) -> (r: String)
    ensures
        r@ == join(parts.deep_view(), sep@),
{
    let mut out = String::new();
    let mut i: usize = 0;
    let ghost all = parts.deep_view();
    while i < parts.len()
        invariant
            all == parts.deep_view(),
            i <= parts.len(),
            out@ == join(all.take(i as int), sep@),
        decreases parts.len() - i,
    {
        if i > 0 {
            out.append(sep);
        }
        out.append(parts[i].as_str());
        proof {
            let next = all.take(i + 1);
            assert(next.drop_last() == all.take(i as int));
            assert(next.last() == parts@[i as int]@);
            if i == 0 {
                assert(next[0] == parts@[0]@);
            }
        }
        i = i + 1;
    }
    assert(all.take(i as int) == all);
    out
}

/// `parts` one after another.
pub fn concat_texts(parts: &[&str]) -> (r: String)
    ensures
        r@ == concat(parts.deep_view()),
{
    let mut out = String::new();
    let mut i: usize = 0;
    let ghost all = parts.deep_view();
    while i < parts.len()
        invariant
            all == parts.deep_view(),
            i <= parts.len(),
            out@ == concat(all.take(i as int)),
        decreases parts.len() - i,
    {
        out.append(parts[i]);
        proof {
            let next = all.take(i + 1);
            assert(next.drop_last() == all.take(i as int));
            assert(next.last() == parts@[i as int]@);
        }
        i = i + 1;
    }
    assert(all.take(i as int) == all);
    out
}

/// The pieces of `s` between occurrences of `c`.
pub fn split_text(s: &str, c: char) -> (r: Vec<String>)
    ensures
        r.deep_view() == split_on(s@, c),
{
    let v = chars_of(s);
    let mut out: Vec<String> = Vec::new();
    let mut start: usize = 0;
    let mut i: usize = 0;
    proof {
        assert(v@.skip(0) == v@);
        assert(out.deep_view() + split_on(v@.skip(0), c) == split_on(s@, c));
    }
    while i < v.len()
        invariant
            v@ == s@,
            start <= i <= v.len(),
            forall|j: int| start <= j < i ==> v@[j] != c,
            out.deep_view() + split_on(v@.skip(start as int), c) == split_on(s@, c),
        decreases v.len() - i,
    {
        if v[i] == c {
            let ghost before = out.deep_view();
            let ghost rest = v@.skip(start as int);
            let piece = text_of(&v, start, i);
            out.push(piece);
            proof {
                assert(rest[i - start] == c);
                rest.index_of_first_ensures(c);
                let n = rest.index_of_first(c)->0;
                if n < i - start {
                    assert(v@[start + n] == c);
                }
                assert(n == i - start);
                assert(rest.take(n) == piece@);
                assert(rest.skip(n + 1) == v@.skip(i + 1));
                assert(out.deep_view() == before.push(piece@));
                assert(before.push(piece@) + split_on(v@.skip(i + 1), c) == before + (seq![piece@]
                    + split_on(v@.skip(i + 1), c)));
            }
            start = i + 1;
        }
        i = i + 1;
    }
    let ghost before = out.deep_view();
    let piece = text_of(&v, start, v.len());
    out.push(piece);
    proof {
        let rest = v@.skip(start as int);
        assert forall|j: int| 0 <= j < rest.len() implies rest[j] != c by {
            assert(rest[j] == v@[start + j]);
        }
        assert(!rest.contains(c));
        assert(piece@ == rest);
        assert(out.deep_view() == before + seq![rest]);
    }
    out
}

/// A copy of a list of texts.
pub fn clone_texts(items: &Vec<String>) -> (r: Vec<String>)
    ensures
        r.deep_view() == items.deep_view(),
        r.len() == items.len(),
{
    let mut out: Vec<String> = Vec::new();
    let mut i: usize = 0;
    while i < items.len()
        invariant
            i <= items.len(),
            out.len() == i,
            forall|j: int| 0 <= j < i ==> out@[j]@ == #[trigger] items@[j]@,
        decreases items.len() - i,
    {
        out.push(items[i].clone());
        i = i + 1;
    }
    assert(out.deep_view() == items.deep_view());
    out
}

/// A copy of an optional text.
pub fn clone_text(item: &Option<String>) -> (r: Option<String>)
    ensures
        r.deep_view() == item.deep_view(),
{
    match item {
        Some(value) => Some(value.clone()),
        None => None,
    }
}

/// `s` without the prefix `p`, where it has it.
pub open spec fn without_prefix(s: Seq<char>, p: Seq<char>) -> Option<Seq<char>> {
    if p.is_prefix_of(s) {
        Some(s.skip(p.len() as int))
    } else {
        None
    }
}

/// `s` without the suffix `p`, where it has it.
pub open spec fn without_suffix(s: Seq<char>, p: Seq<char>) -> Option<Seq<char>> {
    if p.is_suffix_of(s) {
        Some(s.take(s.len() - p.len()))
    } else {
        None
    }
}

/// What stands between the prefix `open` and the suffix `close` of `s`, where it has both.
pub open spec fn between(s: Seq<char>, open: Seq<char>, close: Seq<char>) -> Option<Seq<char>> {
    match without_prefix(s, open) {
        Some(rest) => without_suffix(rest, close),
        None => None,
    }
}

/// `s` without the prefix `p`, where it has it.
pub fn strip_prefix<'a>(s: &'a str, p: &str) -> (r: Option<&'a str>)
    ensures
        r.deep_view() == without_prefix(s@, p@),
{
    if has_prefix(s, p) {
        Some(s.substring_char(p.unicode_len(), s.unicode_len()))
    } else {
        None
    }
}

/// `s` without the suffix `p`, where it has it.
pub fn strip_suffix<'a>(s: &'a str, p: &str) -> (r: Option<&'a str>)
    ensures
        r.deep_view() == without_suffix(s@, p@),
{
    if has_suffix(s, p) {
        Some(s.substring_char(0, s.unicode_len() - p.unicode_len()))
    } else {
        None
    }
}

/// What stands between the prefix `open` and the suffix `close` of `s`, where it has both.
pub fn strip_both<'a>(s: &'a str, open: &str, close: &str) -> (r: Option<&'a str>)
    ensures
        r.deep_view() == between(s@, open@, close@),
{
    match strip_prefix(s, open) {
        Some(rest) => strip_suffix(rest, close),
        None => None,
    }
}

/// `a` followed by `b`.
pub fn glue(a: &str, b: &str) -> (r: String)
    ensures
        r@ == a@ + b@,
{
    let mut r = a.to_string();
    r.append(b);
    r
}

/// `a` followed by `b` and `c`.
pub fn glue3(a: &str, b: &str, c: &str) -> (r: String)
    ensures
        r@ == a@ + b@ + c@,
{
    let mut r = glue(a, b);
    r.append(c);
    r
}

/// A text as a new value, where there is one.
pub fn owned(s: Option<&str>) -> (r: Option<String>)
    ensures
        r.deep_view() == s.deep_view(),
{
    match s {
        Some(s) => Some(s.to_string()),
        None => None,
    }
}

/// An optional text as a borrowed one.
pub fn borrowed(s: &Option<String>) -> (r: Option<&str>)
    ensures
        r.deep_view() == s.deep_view(),
{
    match s {
        Some(s) => Some(s.as_str()),
        None => None,
    }
}

/// The first position of `c`.
pub fn first_of(v: &Vec<char>, c: char) -> (r: Option<usize>)
    ensures
        match r {
            Some(i) => v@.contains(c) && v@.index_of_first(c) == Some(i as int) && i < v.len()
                && v@[i as int] == c,
            None => !v@.contains(c),
        },
{
    let mut i: usize = 0;
    while i < v.len()
        invariant
            i <= v.len(),
            forall|j: int| 0 <= j < i ==> v@[j] != c,
        decreases v.len() - i,
    {
        if v[i] == c {
            proof {
                assert(v@[i as int] == c);
                v@.index_of_first_ensures(c);
            }
            return Some(i);
        }
        i = i + 1;
    }
    None
}

/// The last position of `c`.
pub fn last_of(v: &Vec<char>, c: char) -> (r: Option<usize>)
    ensures
        match r {
            Some(i) => v@.index_of_last(c) == Some(i as int) && i < v.len() && v@[i as int] == c,
            None => v@.index_of_last(c) is None,
        },
{
    let mut i: usize = v.len();
    while i > 0
        invariant
            i <= v.len(),
            forall|j: int| i <= j < v.len() ==> v@[j] != c,
        decreases i,
    {
        i = i - 1;
        if v[i] == c {
            proof {
                assert(v@[i as int] == c);
                v@.index_of_last_ensures(c);
            }
            return Some(i);
        }
    }
    proof {
        v@.index_of_last_ensures(c);
    }
    None
}

/// `parts` without white space at their ends, those that are then empty left out.
pub open spec fn nonblank(parts: Seq<Seq<char>>) -> Seq<Seq<char>>
    decreases parts.len(),
{
    if parts.len() == 0 {
        Seq::empty()
    } else {
        let part = trim(parts.last());
        let before = nonblank(parts.drop_last());
        if part.len() == 0 {
            before
        } else {
            before.push(part)
        }
    }
}

/// The pieces of `s` between occurrences of `c`, without white space at their ends, those that are
/// then empty left out.
pub fn split_nonblank(s: &str, c: char) -> (r: Vec<String>)
    ensures
        r.deep_view() == nonblank(split_on(s@, c)),
{
    let parts = split_text(s, c);
    let ghost all = parts.deep_view();
    let mut items: Vec<String> = Vec::new();
    let mut i: usize = 0;
    while i < parts.len()
        invariant
            all == parts.deep_view(),
            i <= parts.len(),
            items.deep_view() == nonblank(all.take(i as int)),
        decreases parts.len() - i,
    {
        let ghost before = items.deep_view();
        let item = trimmed(parts[i].as_str());
        proof {
            let next = all.take(i + 1);
            assert(next.drop_last() == all.take(i as int));
            assert(next.last() == parts@[i as int]@);
        }
        if !item.is_empty() {
            items.push(item.to_string());
            assert(items.deep_view() == before.push(item@));
        }
        i = i + 1;
    }
    assert(all.take(i as int) == all);
    items
}

/// The texts of a list, borrowed.
pub fn texts_of(items: &[String]) -> (r: Vec<&str>)
    ensures
        r.deep_view() == items.deep_view(),
{
    let mut texts: Vec<&str> = Vec::new();
    let mut i: usize = 0;
    while i < items.len()
        invariant
            i <= items.len(),
            texts.len() == i,
            forall|j: int| 0 <= j < i ==> (#[trigger] texts@[j])@ == items@[j]@,
        decreases items.len() - i,
    {
        texts.push(items[i].as_str());
        i = i + 1;
    }
    assert(texts.deep_view() =~= items.deep_view());
    texts
}

} // verus!
