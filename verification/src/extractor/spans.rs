//! From byte offsets in a joined text to tokens, and what captured spans leave over.

use crate::offsets;
use crate::text;
use crate::text::CharClass;
use vstd::prelude::*;

verus! {

/// Whether a text is white space throughout.
pub open spec fn is_blank(s: Seq<char>) -> bool {
    text::all_in(s, CharClass::White)
}

/// The number of bytes of tokens that stand one after another.
pub open spec fn total_len(tokens: Seq<Seq<char>>) -> nat
    decreases tokens.len(),
{
    if tokens.len() == 0 {
        0
    } else {
        total_len(tokens.drop_last()) + offsets::byte_len(tokens.last())
    }
}

/// The byte offset in the joined text at which the token `i` starts.
pub open spec fn start_of(tokens: Seq<Seq<char>>, i: int) -> nat {
    total_len(tokens.take(i))
}

/// The byte offset in the joined text at which the token `i` ends.
pub open spec fn end_of(tokens: Seq<Seq<char>>, i: int) -> nat {
    total_len(tokens.take(i + 1))
}

/// Whether pairs are the offsets of tokens.
pub open spec fn are_offsets(pairs: Seq<(usize, usize)>, tokens: Seq<Seq<char>>) -> bool {
    pairs.len() == tokens.len() && forall|i: int|
        0 <= i < pairs.len() ==> (#[trigger] pairs[i]).0 == start_of(tokens, i) && pairs[i].1
            == end_of(tokens, i)
}

/// The bytes of two texts one after another.
pub proof fn lemma_byte_len_of_two(a: Seq<char>, b: Seq<char>)
    ensures
        offsets::byte_len(a + b) == offsets::byte_len(a) + offsets::byte_len(b),
    decreases a.len(),
{
    if a.len() == 0 {
        assert(a + b == b);
        assert(vstd::utf8::encode_utf8(a).len() == 0);
    } else {
        let s = a + b;
        assert(s.skip(1) == a.skip(1) + b);
        assert(s.drop_first() == a.drop_first() + b);
        lemma_byte_len_of_two(a.drop_first(), b);
        reveal_with_fuel(vstd::utf8::encode_utf8, 2);
        assert(s[0] == a[0]);
    }
}

/// Tokens one after another have as many bytes as they have in all.
pub proof fn lemma_total_len(tokens: Seq<Seq<char>>)
    ensures
        offsets::byte_len(text::concat(tokens)) == total_len(tokens),
    decreases tokens.len(),
{
    if tokens.len() == 0 {
        assert(vstd::utf8::encode_utf8(text::concat(tokens)).len() == 0);
    } else {
        lemma_total_len(tokens.drop_last());
        lemma_byte_len_of_two(text::concat(tokens.drop_last()), tokens.last());
    }
}

/// The first tokens have no more bytes than all.
pub proof fn lemma_start_grows(tokens: Seq<Seq<char>>, i: int, j: int)
    requires
        0 <= i <= j <= tokens.len(),
    ensures
        total_len(tokens.take(i)) <= total_len(tokens.take(j)),
    decreases j - i,
{
    if i < j {
        lemma_start_grows(tokens, i, j - 1);
        assert(tokens.take(j).drop_last() == tokens.take(j - 1));
    }
}

/// The first token from `i` on that holds the byte at the offset `at`.
pub open spec fn token_at(tokens: Seq<Seq<char>>, at: int, i: int) -> Option<int>
    decreases tokens.len() - i,
{
    if i < 0 || i >= tokens.len() {
        None
    } else if start_of(tokens, i) <= at < end_of(tokens, i) {
        Some(i)
    } else {
        token_at(tokens, at, i + 1)
    }
}

/// The first token from `i` on that holds the byte before the offset `at`.
pub open spec fn token_before(tokens: Seq<Seq<char>>, at: int, i: int) -> Option<int>
    decreases tokens.len() - i,
{
    if i < 0 || i >= tokens.len() {
        None
    } else if start_of(tokens, i) < at <= end_of(tokens, i) {
        Some(i)
    } else {
        token_before(tokens, at, i + 1)
    }
}

/// The tokens that a part of the joined text reaches into, from the first up to the second.
pub open spec fn token_range(tokens: Seq<Seq<char>>, from: int, to: int) -> Option<(int, int)> {
    match (token_at(tokens, from, 0), token_before(tokens, to, 0)) {
        (Some(first), Some(last)) => if first <= last {
            Some((first, last + 1))
        } else {
            None
        },
        _ => None,
    }
}

/// The first position from `i` on that is `end`, or whose token is not blank or not there.
pub open spec fn skip_blank(tokens: Seq<Seq<char>>, i: int, end: int) -> int
    decreases end - i,
{
    if 0 <= i < end && i < tokens.len() && is_blank(tokens[i]) {
        skip_blank(tokens, i + 1, end)
    } else {
        i
    }
}

/// The last position up to `i` that is 0 or whose token is not blank.
pub open spec fn skip_blank_back(tokens: Seq<Seq<char>>, i: int) -> int
    decreases i,
{
    if 0 < i < tokens.len() && is_blank(tokens[i]) {
        skip_blank_back(tokens, i - 1)
    } else {
        i
    }
}

/// The byte offset in the object text of the first token that is not blank among those that a part
/// of the class text reaches into.
pub open spec fn aligned_start(
    classes: Seq<Seq<char>>,
    objects: Seq<Seq<char>>,
    from: int,
    to: int,
) -> Option<int> {
    match (token_at(classes, from, 0), token_before(classes, to, 0)) {
        (Some(first), Some(last)) => {
            let start = skip_blank(classes, first, classes.len() as int);
            if start <= skip_blank_back(classes, last) && start < objects.len() {
                Some(start_of(objects, start) as int)
            } else {
                None
            }
        },
        _ => None,
    }
}

/// The byte offsets of tokens in the text that they make.
pub fn token_offsets(tokens: &[&str], joined: &str) -> (r: Vec<(usize, usize)>)
    requires
        joined@ == text::concat(tokens.deep_view()),
    ensures
        are_offsets(r@, tokens.deep_view()),
{
    let ghost all = tokens.deep_view();
    let len = offsets::len_of(joined);
    proof {
        lemma_total_len(all);
        assert(all.take(all.len() as int) == all);
    }
    let mut pairs: Vec<(usize, usize)> = Vec::new();
    let mut offset: usize = 0;
    let mut i: usize = 0;
    while i < tokens.len()
        invariant
            all == tokens.deep_view(),
            len == total_len(all.take(all.len() as int)),
            i <= tokens.len(),
            pairs.len() == i,
            offset == start_of(all, i as int),
            forall|j: int|
                0 <= j < i ==> (#[trigger] pairs@[j]).0 == start_of(all, j) && pairs@[j].1
                    == end_of(all, j),
        decreases tokens.len() - i,
    {
        let start = offset;
        proof {
            lemma_start_grows(all, i + 1, all.len() as int);
            assert(all.take(i + 1).drop_last() == all.take(i as int));
            assert(all.take(i + 1).last() == tokens@[i as int]@);
        }
        offset = offset + offsets::len_of(tokens[i]);
        pairs.push((start, offset));
        i = i + 1;
    }
    pairs
}

fn find_token_at(pairs: &Vec<(usize, usize)>, at: u128, Ghost(tokens): Ghost<Seq<Seq<char>>>) -> (r:
    Option<usize>)
    requires
        are_offsets(pairs@, tokens),
    ensures
        match r {
            Some(i) => token_at(tokens, at as int, 0) == Some(i as int) && i < pairs.len(),
            None => token_at(tokens, at as int, 0) is None,
        },
{
    let mut i: usize = 0;
    while i < pairs.len()
        invariant
            are_offsets(pairs@, tokens),
            i <= pairs.len(),
            token_at(tokens, at as int, 0) == token_at(tokens, at as int, i as int),
        decreases pairs.len() - i,
    {
        let (start, end) = pairs[i];
        assert(pairs@[i as int].0 == start_of(tokens, i as int));
        if start as u128 <= at && at < end as u128 {
            return Some(i);
        }
        i = i + 1;
    }
    None
}

fn find_token_before(pairs: &Vec<(usize, usize)>, at: u128, Ghost(tokens): Ghost<Seq<Seq<char>>>) -> (r:
    Option<usize>)
    requires
        are_offsets(pairs@, tokens),
    ensures
        match r {
            Some(i) => token_before(tokens, at as int, 0) == Some(i as int) && i < pairs.len(),
            None => token_before(tokens, at as int, 0) is None,
        },
{
    let mut i: usize = 0;
    while i < pairs.len()
        invariant
            are_offsets(pairs@, tokens),
            i <= pairs.len(),
            token_before(tokens, at as int, 0) == token_before(tokens, at as int, i as int),
        decreases pairs.len() - i,
    {
        let (start, end) = pairs[i];
        assert(pairs@[i as int].0 == start_of(tokens, i as int));
        if (start as u128) < at && at <= end as u128 {
            return Some(i);
        }
        i = i + 1;
    }
    None
}

/// The tokens that a match in the trimmed text reaches into.
pub(crate) fn match_token_index_range(
    pairs: &Vec<(usize, usize)>,
    left_trim: usize,
    match_start: usize,
    match_end: usize,
    Ghost(tokens): Ghost<Seq<Seq<char>>>,
) -> (r: Option<(usize, usize)>)
    requires
        are_offsets(pairs@, tokens),
    ensures
        match r {
            Some((first, end)) => token_range(tokens, left_trim + match_start, left_trim + match_end)
                == Some((first as int, end as int)) && first < end <= tokens.len(),
            None => token_range(tokens, left_trim + match_start, left_trim + match_end) is None,
        },
{
    let from = left_trim as u128 + match_start as u128;
    let to = left_trim as u128 + match_end as u128;
    match (
        find_token_at(pairs, from, Ghost(tokens)),
        find_token_before(pairs, to, Ghost(tokens)),
    ) {
        (Some(first), Some(last)) => if first <= last {
            Some((first, last + 1))
        } else {
            None
        },
        _ => None,
    }
}

/// The first position from `index` on that is `end`, or whose token is not blank or not there.
pub fn skip_whitespace_tokens(tokens: &[&str], index: usize, end: usize) -> (r: usize)
    ensures
        r == skip_blank(tokens.deep_view(), index as int, end as int),
        index <= r,
        index <= end ==> r <= end,
        r < end && r < tokens.len() ==> !is_blank(tokens.deep_view()[r as int]),
{
    let ghost all = tokens.deep_view();
    let mut i: usize = index;
    while i < end && i < tokens.len() && text::all_chars_in(tokens[i], CharClass::White)
        invariant
            all == tokens.deep_view(),
            index <= i,
            index <= end ==> i <= end,
            skip_blank(all, index as int, end as int) == skip_blank(all, i as int, end as int),
        decreases end - i,
    {
        assert(all[i as int] == tokens@[i as int]@);
        i = i + 1;
    }
    proof {
        if i < end && i < tokens.len() {
            assert(all[i as int] == tokens@[i as int]@);
        }
    }
    i
}

/// The byte offset in the object text at which the match in the class text starts.
pub(crate) fn align_any_match(
    class_pairs: &Vec<(usize, usize)>,
    object_pairs: &Vec<(usize, usize)>,
    class_list: &[&str],
    left_trim: usize,
    match_start: usize,
    match_end: usize,
    Ghost(objects): Ghost<Seq<Seq<char>>>,
) -> (r: Option<usize>)
    requires
        are_offsets(class_pairs@, class_list.deep_view()),
        are_offsets(object_pairs@, objects),
    ensures
        match r {
            Some(at) => aligned_start(
                class_list.deep_view(),
                objects,
                left_trim + match_start,
                left_trim + match_end,
            ) == Some(at as int),
            None => aligned_start(
                class_list.deep_view(),
                objects,
                left_trim + match_start,
                left_trim + match_end,
            ) is None,
        },
{
    let ghost classes = class_list.deep_view();
    let from = left_trim as u128 + match_start as u128;
    let to = left_trim as u128 + match_end as u128;
    match (
        find_token_at(class_pairs, from, Ghost(classes)),
        find_token_before(class_pairs, to, Ghost(classes)),
    ) {
        (Some(first), Some(last)) => {
            let start = skip_whitespace_tokens(class_list, first, class_list.len());
            let mut end: usize = last;
            while end > 0 && text::all_chars_in(class_list[end], CharClass::White)
                invariant
                    classes == class_list.deep_view(),
                    end < class_list.len(),
                    skip_blank_back(classes, last as int) == skip_blank_back(classes, end as int),
                decreases end,
            {
                assert(classes[end as int] == class_list@[end as int]@);
                end = end - 1;
            }
            proof {
                assert(classes[end as int] == class_list@[end as int]@);
            }
            if start <= end && start < object_pairs.len() {
                Some(object_pairs[start].0)
            } else {
                None
            }
        },
        _ => None,
    }
}

} // verus!
