//! What captured spans leave over of a text.

use crate::offsets;
use crate::regex::GroupSpan;
use crate::text;
use vstd::prelude::*;
use vstd::relations;
use vstd::seq_lib;
use vstd::utf8;

verus! {

/// Spans by where they start, then by where they end.
pub open spec fn span_order() -> spec_fn((usize, usize), (usize, usize)) -> bool {
    |a: (usize, usize), b: (usize, usize)| a.0 < b.0 || (a.0 == b.0 && a.1 <= b.1)
}

/// Spans in order.
pub open spec fn in_order(spans: Seq<(usize, usize)>) -> Seq<(usize, usize)> {
    spans.sort_by(span_order())
}

/// The part of `s` from one offset up to a later one; nothing where it is not later.
pub open spec fn gap(s: Seq<char>, from: int, to: int) -> Seq<char> {
    if from < to {
        offsets::slice(s, from, to)
    } else {
        Seq::empty()
    }
}

/// The greater of two offsets.
pub open spec fn later(a: int, b: int) -> int {
    if a < b {
        b
    } else {
        a
    }
}

/// What ordered spans leave over of `s` from the offset `from` on.
pub open spec fn uncovered(s: Seq<char>, spans: Seq<(usize, usize)>, from: int) -> Seq<char>
    decreases spans.len(),
{
    if spans.len() == 0 {
        gap(s, from, offsets::byte_len(s) as int)
    } else {
        gap(s, from, spans[0].0 as int) + uncovered(
            s,
            spans.skip(1),
            later(from, spans[0].1 as int),
        )
    }
}

/// What stands before, between and after ordered groups, each counted from the end of the one
/// before it. `None` where the offsets do not enclose parts of `s`.
pub open spec fn outside(s: Seq<char>, spans: Seq<(usize, usize)>, from: int) -> Option<Seq<char>>
    decreases spans.len(),
{
    let to = if spans.len() == 0 {
        offsets::byte_len(s) as int
    } else {
        spans[0].0 as int
    };
    if from < to && !offsets::is_span(s, from, to) {
        None
    } else if spans.len() == 0 {
        Some(gap(s, from, to))
    } else {
        match outside(s, spans.skip(1), spans[0].1 as int) {
            Some(rest) => Some(gap(s, from, to) + rest),
            None => None,
        }
    }
}

/// The spans of the groups that took part in a match.
pub open spec fn group_spans(groups: Seq<GroupSpan>) -> Seq<(usize, usize)>
    decreases groups.len(),
{
    if groups.len() == 0 {
        Seq::empty()
    } else {
        match groups.last() {
            Some(span) => group_spans(groups.drop_last()).push(span),
            None => group_spans(groups.drop_last()),
        }
    }
}

/// The groups of a match without the first, which is the whole match.
pub open spec fn inner_groups(groups: Seq<GroupSpan>) -> Seq<GroupSpan> {
    if groups.len() == 0 {
        groups
    } else {
        groups.skip(1)
    }
}

/// What spans leave over of a text.
pub open spec fn complement_of_spans(s: Seq<char>, spans: Seq<(usize, usize)>) -> Seq<char> {
    uncovered(s, in_order(spans), 0)
}

/// What the groups of a match leave over of a text; the whole match is no group.
pub open spec fn complement_of_groups(s: Seq<char>, groups: Seq<GroupSpan>) -> Option<Seq<char>> {
    outside(s, in_order(group_spans(inner_groups(groups))), 0)
}

proof fn lemma_span_order()
    ensures
        relations::total_ordering(span_order()),
{
}

/// Puts spans in order.
fn sort_spans(spans: &Vec<(usize, usize)>) -> (r: Vec<(usize, usize)>)
    ensures
        r@ == in_order(spans@),
{
    let mut sorted: Vec<(usize, usize)> = Vec::new();
    let mut i: usize = 0;
    proof {
        assert(spans@.take(0) == sorted@);
    }
    while i < spans.len()
        invariant
            i <= spans.len(),
            relations::sorted_by(sorted@, span_order()),
            sorted@.to_multiset() == spans@.take(i as int).to_multiset(),
        decreases spans.len() - i,
    {
        let span = spans[i];
        let mut k: usize = sorted.len();
        while k > 0 && (span.0 < sorted[k - 1].0 || (span.0 == sorted[k - 1].0 && span.1 < sorted[k
            - 1].1))
            invariant
                k <= sorted.len(),
                relations::sorted_by(sorted@, span_order()),
                forall|j: int| k <= j < sorted.len() ==> #[trigger] span_order()(span, sorted@[j]),
            decreases k,
        {
            k = k - 1;
            proof {
                assert forall|j: int| k <= j < sorted.len() implies #[trigger] span_order()(
                    span,
                    sorted@[j],
                ) by {}
            }
        }
        let ghost before = sorted@;
        sorted.insert(k, span);
        proof {
            broadcast use seq_lib::group_to_multiset_ensures;

            let a = before.take(k as int);
            let b = before.skip(k as int);
            assert(before == a + b);
            assert(sorted@ == a + seq![span] + b);
            seq_lib::lemma_multiset_commutative(a, b);
            seq_lib::lemma_multiset_commutative(a + seq![span], b);
            seq_lib::lemma_multiset_commutative(a, seq![span]);
            assert(a + seq![span] == a.push(span));
            assert(sorted@.to_multiset() =~= before.to_multiset().insert(span));
            assert(spans@.take(i + 1) == spans@.take(i as int).push(span));
            assert(sorted@.to_multiset() =~= spans@.take(i + 1).to_multiset());
            assert forall|x: int, y: int| 0 <= x < y < sorted@.len() implies #[trigger] span_order()(
                sorted@[x],
                sorted@[y],
            ) by {
                if y < k {
                    assert(span_order()(before[x], before[y]));
                } else if y == k {
                    if x < k - 1 {
                        assert(span_order()(before[x], before[k - 1]));
                    }
                } else if x < k {
                    assert(span_order()(before[x], before[y - 1]));
                } else if x == k {
                    assert(span_order()(span, before[y - 1]));
                } else {
                    assert(span_order()(before[x - 1], before[y - 1]));
                }
            }
        }
        i = i + 1;
    }
    proof {
        assert(spans@.take(i as int) == spans@);
        lemma_span_order();
        spans@.lemma_sort_by_ensures(span_order());
        seq_lib::lemma_sorted_unique(sorted@, in_order(spans@), span_order());
    }
    sorted
}

/// What spans leave over of a text.
#[must_use]
pub fn get_complement_of_spans(text: &str, spans: &Vec<(usize, usize)>) -> (r: String)
    requires
        forall|i: int|
            0 <= i < spans.len() ==> offsets::is_span(
                text@,
                (#[trigger] spans@[i]).0 as int,
                spans@[i].1 as int,
            ),
    ensures
        r@ == complement_of_spans(text@, spans@),
{
    let sorted = sort_spans(spans);
    let len = offsets::len_of(text);
    let mut kept = String::new();
    let mut start: usize = 0;
    let mut i: usize = 0;
    proof {
        offsets::lemma_ends(text@);
        lemma_span_order();
        spans@.lemma_sort_by_ensures(span_order());
        assert forall|j: int| 0 <= j < sorted.len() implies offsets::is_span(
            text@,
            (#[trigger] sorted@[j]).0 as int,
            sorted@[j].1 as int,
        ) by {
            assert(in_order(spans@).contains(sorted@[j]));
            let k = choose|k: int| 0 <= k < spans.len() && spans@[k] == sorted@[j];
            assert(spans@.contains(sorted@[j]));
            assert(offsets::is_span(text@, spans@[k].0 as int, spans@[k].1 as int));
        }
        assert(sorted@.skip(0) == sorted@);
        assert(kept@ + uncovered(text@, sorted@, 0) == uncovered(text@, sorted@, 0));
    }
    while i < sorted.len()
        invariant
            len == offsets::byte_len(text@),
            i <= sorted.len(),
            offsets::is_edge(text@, start as int),
            forall|j: int|
                0 <= j < sorted.len() ==> offsets::is_span(
                    text@,
                    (#[trigger] sorted@[j]).0 as int,
                    sorted@[j].1 as int,
                ),
            kept@ + uncovered(text@, sorted@.skip(i as int), start as int) == uncovered(
                text@,
                sorted@,
                0,
            ),
        decreases sorted.len() - i,
    {
        let (span_start, span_end) = sorted[i];
        let ghost before = kept@;
        let ghost rest = sorted@.skip(i as int);
        proof {
            assert(rest[0] == sorted@[i as int]);
            assert(rest.skip(1) == sorted@.skip(i + 1));
            assert(offsets::is_span(text@, sorted@[i as int].0 as int, sorted@[i as int].1 as int));
        }
        if start < span_start {
            kept.append(offsets::slice_of(text, start, span_start));
        }
        proof {
            assert(kept@ == before + gap(text@, start as int, span_start as int));
            assert(before + (gap(text@, start as int, span_start as int) + uncovered(
                text@,
                rest.skip(1),
                later(start as int, span_end as int),
            )) == kept@ + uncovered(
                text@,
                rest.skip(1),
                later(start as int, span_end as int),
            ));
        }
        if start < span_end {
            start = span_end;
        }
        i = i + 1;
    }
    if start < len {
        proof {
            offsets::lemma_ends(text@);
        }
        kept.append(offsets::slice_of(text, start, len));
    }
    kept
}

/// What the groups of a match leave over of a text; `None` where their offsets do not enclose parts
/// of it.
#[must_use]
pub fn get_complement_of_captured_groups(text: &str, groups: &Vec<GroupSpan>) -> (r: Option<String>)
    ensures
        r.deep_view() == complement_of_groups(text@, groups@),
{
    let mut spans: Vec<(usize, usize)> = Vec::new();
    let ghost tail = inner_groups(groups@);
    let mut k: usize = 1;
    assert(tail.take(0) == Seq::<GroupSpan>::empty());
    while k < groups.len()
        invariant
            tail == inner_groups(groups@),
            1 <= k,
            k <= groups.len() || k == 1,
            spans@ == group_spans(tail.take(k - 1)),
        decreases groups.len() - k,
    {
        proof {
            let next = tail.take(k as int);
            assert(next.drop_last() == tail.take(k - 1));
            assert(next.last() == groups@[k as int]);
        }
        if let Some(span) = groups[k] {
            spans.push(span);
        }
        k = k + 1;
    }
    proof {
        if groups.len() > 0 {
            assert(tail.take(k - 1) == tail);
        } else {
            assert(tail.take(k - 1) == Seq::<GroupSpan>::empty());
        }
    }
    let sorted = sort_spans(&spans);
    let len = offsets::len_of(text);
    let mut kept = String::new();
    let mut start: usize = 0;
    let mut i: usize = 0;
    assert(sorted@.skip(0) == sorted@);
    while i < sorted.len()
        invariant
            len == offsets::byte_len(text@),
            i <= sorted.len(),
            sorted@ == in_order(group_spans(inner_groups(groups@))),
            match outside(text@, sorted@.skip(i as int), start as int) {
                Some(rest) => outside(text@, sorted@, 0) == Some(kept@ + rest),
                None => outside(text@, sorted@, 0) is None,
            },
        decreases sorted.len() - i,
    {
        let (span_start, span_end) = sorted[i];
        let ghost before = kept@;
        let ghost rest = sorted@.skip(i as int);
        proof {
            assert(rest[0] == sorted@[i as int]);
            assert(rest.skip(1) == sorted@.skip(i + 1));
        }
        if start < span_start {
            if !offsets::spans(text, start, span_start) {
                return None;
            }
            kept.append(offsets::slice_of(text, start, span_start));
        }
        proof {
            let g = gap(text@, start as int, span_start as int);
            assert(kept@ == before + g);
            match outside(text@, rest.skip(1), span_end as int) {
                Some(more) => {
                    assert(before + (g + more) == kept@ + more);
                },
                None => {},
            }
        }
        start = span_end;
        i = i + 1;
    }
    let ghost before = kept@;
    if start < len {
        if !offsets::spans(text, start, len) {
            return None;
        }
        kept.append(offsets::slice_of(text, start, len));
    }
    assert(kept@ == before + gap(text@, start as int, len as int));
    Some(kept)
}

/// Without spans the whole text is left over.
pub proof fn law_no_span_leaves_all(s: Seq<char>)
    ensures
        complement_of_spans(s, Seq::empty()) == s,
{
    let none = Seq::<(usize, usize)>::empty();
    lemma_span_order();
    none.lemma_sort_by_ensures(span_order());
    assert(in_order(none).to_multiset().len() == 0) by {
        broadcast use seq_lib::group_to_multiset_ensures;

    }
    assert(in_order(none).len() == 0) by {
        broadcast use seq_lib::group_to_multiset_ensures;

    }
    offsets::lemma_slice_all(s);
    if s.len() == 0 {
        assert(gap(s, 0, offsets::byte_len(s) as int) == s);
    } else {
        if offsets::byte_len(s) == 0 {
            offsets::lemma_slice_none(s, 0);
        }
    }
}

/// Whether ordered spans follow one another without overlap, from the offset `from` on.
pub open spec fn follow(spans: Seq<(usize, usize)>, from: int) -> bool
    decreases spans.len(),
{
    spans.len() > 0 ==> from <= spans[0].0 <= spans[0].1 && follow(
        spans.skip(1),
        spans[0].1 as int,
    )
}

/// The number of bytes that spans cover.
pub open spec fn covered_len(spans: Seq<(usize, usize)>) -> int
    decreases spans.len(),
{
    if spans.len() == 0 {
        0
    } else {
        spans[0].1 - spans[0].0 + covered_len(spans.skip(1))
    }
}

/// What spans that do not overlap cover and what they leave over are together as long as the text.
pub proof fn law_spans_part_the_text(s: Seq<char>, spans: Seq<(usize, usize)>, from: int)
    requires
        offsets::is_edge(s, from),
        follow(spans, from),
        forall|i: int|
            0 <= i < spans.len() ==> offsets::is_span(
                s,
                (#[trigger] spans[i]).0 as int,
                spans[i].1 as int,
            ),
    ensures
        offsets::byte_len(uncovered(s, spans, from)) + covered_len(spans) == offsets::byte_len(s)
            - from,
    decreases spans.len(),
{
    offsets::lemma_ends(s);
    let to = if spans.len() == 0 {
        offsets::byte_len(s) as int
    } else {
        spans[0].0 as int
    };
    assert(spans.len() > 0 ==> offsets::is_span(s, spans[0].0 as int, spans[0].1 as int));
    if from < to {
        offsets::lemma_slice(s, from, to);
    } else {
        assert(utf8::encode_utf8(gap(s, from, to)).len() == 0);
    }
    assert(offsets::byte_len(gap(s, from, to)) == to - from);
    if spans.len() > 0 {
        let rest = spans.skip(1);
        assert forall|i: int| 0 <= i < rest.len() implies offsets::is_span(
            s,
            (#[trigger] rest[i]).0 as int,
            rest[i].1 as int,
        ) by {
            assert(rest[i] == spans[i + 1]);
        }
        law_spans_part_the_text(s, rest, spans[0].1 as int);
        crate::extractor::spans::lemma_byte_len_of_two(
            gap(s, from, to),
            uncovered(s, rest, spans[0].1 as int),
        );
    }
}

/// Whether some span covers the byte at an offset.
pub open spec fn is_covered(spans: Seq<(usize, usize)>, at: int) -> bool {
    exists|i: int| 0 <= i < spans.len() && (#[trigger] spans[i]).0 <= at < spans[i].1
}

/// The bytes from the offset `from` on that no span covers, in order.
pub open spec fn uncovered_bytes(
    bytes: Seq<u8>,
    spans: Seq<(usize, usize)>,
    from: int,
) -> Seq<u8>
    decreases bytes.len() - from,
{
    if from < 0 || from >= bytes.len() {
        Seq::empty()
    } else if is_covered(spans, from) {
        uncovered_bytes(bytes, spans, from + 1)
    } else {
        seq![bytes[from]] + uncovered_bytes(bytes, spans, from + 1)
    }
}

proof fn lemma_bytes_of_gap(bytes: Seq<u8>, spans: Seq<(usize, usize)>, from: int, to: int)
    requires
        0 <= from <= to <= bytes.len(),
        forall|k: int| from <= k < to ==> !#[trigger] is_covered(spans, k),
    ensures
        uncovered_bytes(bytes, spans, from) == bytes.subrange(from, to) + uncovered_bytes(
            bytes,
            spans,
            to,
        ),
    decreases to - from,
{
    let rest = uncovered_bytes(bytes, spans, to);
    if from < to {
        lemma_bytes_of_gap(bytes, spans, from + 1, to);
        assert(!is_covered(spans, from));
        assert(seq![bytes[from]] + (bytes.subrange(from + 1, to) + rest) == bytes.subrange(from, to)
            + rest);
    } else {
        assert(bytes.subrange(from, to) + rest == rest);
    }
}

proof fn lemma_bytes_of_span(bytes: Seq<u8>, spans: Seq<(usize, usize)>, from: int, to: int)
    requires
        0 <= from <= to <= bytes.len(),
        forall|k: int| from <= k < to ==> #[trigger] is_covered(spans, k),
    ensures
        uncovered_bytes(bytes, spans, from) == uncovered_bytes(bytes, spans, to),
    decreases to - from,
{
    if from < to {
        assert(is_covered(spans, from));
        lemma_bytes_of_span(bytes, spans, from + 1, to);
    }
}

proof fn lemma_bytes_of_same(
    bytes: Seq<u8>,
    a: Seq<(usize, usize)>,
    b: Seq<(usize, usize)>,
    from: int,
)
    requires
        0 <= from,
        forall|k: int| from <= k ==> #[trigger] is_covered(a, k) == is_covered(b, k),
    ensures
        uncovered_bytes(bytes, a, from) == uncovered_bytes(bytes, b, from),
    decreases bytes.len() - from,
{
    if from < bytes.len() {
        assert(is_covered(a, from) == is_covered(b, from));
        lemma_bytes_of_same(bytes, a, b, from + 1);
    }
}

proof fn lemma_uncovered_bytes(s: Seq<char>, spans: Seq<(usize, usize)>, from: int)
    requires
        offsets::is_edge(s, from),
        relations::sorted_by(spans, span_order()),
        forall|i: int|
            0 <= i < spans.len() ==> offsets::is_span(
                s,
                (#[trigger] spans[i]).0 as int,
                spans[i].1 as int,
            ),
    ensures
        utf8::encode_utf8(uncovered(s, spans, from)) == uncovered_bytes(
            utf8::encode_utf8(s),
            spans,
            from,
        ),
    decreases spans.len(),
{
    let bytes = utf8::encode_utf8(s);
    let end = bytes.len() as int;
    offsets::lemma_ends(s);
    if spans.len() == 0 {
        lemma_bytes_of_gap(bytes, spans, from, end);
        assert(bytes.subrange(from, end) + Seq::<u8>::empty() == bytes.subrange(from, end));
        lemma_gap_bytes(s, from, end);
    } else {
        let (a, e) = (spans[0].0 as int, spans[0].1 as int);
        assert(offsets::is_span(s, spans[0].0 as int, spans[0].1 as int));
        let rest = spans.skip(1);
        let next = later(from, e);
        let middle = later(from, a);
        assert forall|k: int| from <= k < middle implies !#[trigger] is_covered(spans, k) by {
            assert forall|i: int| 0 <= i < spans.len() implies !((#[trigger] spans[i]).0 <= k
                < spans[i].1) by {
                if i > 0 {
                    assert(span_order()(spans[0], spans[i]));
                }
            }
        }
        lemma_bytes_of_gap(bytes, spans, from, middle);
        assert forall|k: int| middle <= k < next implies #[trigger] is_covered(spans, k) by {
            assert(spans[0].0 <= k < spans[0].1);
        }
        lemma_bytes_of_span(bytes, spans, middle, next);
        assert forall|k: int| next <= k implies #[trigger] is_covered(spans, k) == is_covered(
            rest,
            k,
        ) by {
            if is_covered(spans, k) {
                let i = choose|i: int|
                    0 <= i < spans.len() && (#[trigger] spans[i]).0 <= k < spans[i].1;
                assert(rest[i - 1] == spans[i]);
            }
            if is_covered(rest, k) {
                let i = choose|i: int|
                    0 <= i < rest.len() && (#[trigger] rest[i]).0 <= k < rest[i].1;
                assert(spans[i + 1] == rest[i]);
            }
        }
        lemma_bytes_of_same(bytes, spans, rest, next);
        assert forall|i: int| 0 <= i < rest.len() implies offsets::is_span(
            s,
            (#[trigger] rest[i]).0 as int,
            rest[i].1 as int,
        ) by {
            assert(rest[i] == spans[i + 1]);
        }
        assert(relations::sorted_by(rest, span_order())) by {
            assert forall|i: int, j: int| 0 <= i < j < rest.len() implies #[trigger] span_order()(
                rest[i],
                rest[j],
            ) by {
                assert(span_order()(spans[i + 1], spans[j + 1]));
            }
        }
        lemma_uncovered_bytes(s, rest, next);
        lemma_gap_bytes(s, from, a);
        lemma_encode_two(gap(s, from, a), uncovered(s, rest, next));
        if from >= a {
            assert(bytes.subrange(from, middle) == Seq::<u8>::empty());
        }
    }
}

proof fn lemma_gap_bytes(s: Seq<char>, from: int, to: int)
    requires
        offsets::is_edge(s, from),
        offsets::is_edge(s, to),
    ensures
        utf8::encode_utf8(gap(s, from, to)) == if from < to {
            utf8::encode_utf8(s).subrange(from, to)
        } else {
            Seq::<u8>::empty()
        },
{
    if from < to {
        offsets::lemma_slice(s, from, to);
    } else {
        assert(utf8::encode_utf8(gap(s, from, to)).len() == 0);
    }
}

proof fn lemma_encode_two(a: Seq<char>, b: Seq<char>)
    ensures
        utf8::encode_utf8(a + b) == utf8::encode_utf8(a) + utf8::encode_utf8(b),
    decreases a.len(),
{
    let s = a + b;
    if a.len() == 0 {
        assert(s == b);
        assert(utf8::encode_utf8(a) + utf8::encode_utf8(b) == utf8::encode_utf8(b));
    } else {
        assert(s.drop_first() == a.drop_first() + b);
        lemma_encode_two(a.drop_first(), b);
        let first = utf8::encode_scalar(a[0] as u32);
        assert(s[0] == a[0]);
        assert(first + (utf8::encode_utf8(a.drop_first()) + utf8::encode_utf8(b)) == first
            + utf8::encode_utf8(a.drop_first()) + utf8::encode_utf8(b));
    }
}

/// The bytes that spans leave over are those that no span covers, whatever the order of the spans
/// and however they overlap.
pub proof fn law_complement_is_what_no_span_covers(s: Seq<char>, spans: Seq<(usize, usize)>)
    requires
        forall|i: int|
            0 <= i < spans.len() ==> offsets::is_span(
                s,
                (#[trigger] spans[i]).0 as int,
                spans[i].1 as int,
            ),
    ensures
        utf8::encode_utf8(complement_of_spans(s, spans)) == uncovered_bytes(
            utf8::encode_utf8(s),
            spans,
            0,
        ),
{
    let sorted = in_order(spans);
    offsets::lemma_ends(s);
    lemma_span_order();
    spans.lemma_sort_by_ensures(span_order());
    lemma_same_spans(spans);
    assert forall|j: int| 0 <= j < sorted.len() implies offsets::is_span(
        s,
        (#[trigger] sorted[j]).0 as int,
        sorted[j].1 as int,
    ) by {
        assert(spans.contains(sorted[j]));
        let k = choose|k: int| 0 <= k < spans.len() && spans[k] == sorted[j];
        assert(offsets::is_span(s, spans[k].0 as int, spans[k].1 as int));
    }
    lemma_uncovered_bytes(s, sorted, 0);
    assert forall|k: int| 0 <= k implies #[trigger] is_covered(sorted, k) == is_covered(
        spans,
        k,
    ) by {
        if is_covered(sorted, k) {
            let i = choose|i: int|
                0 <= i < sorted.len() && (#[trigger] sorted[i]).0 <= k < sorted[i].1;
            assert(spans.contains(sorted[i]));
            let j = choose|j: int| 0 <= j < spans.len() && spans[j] == sorted[i];
            assert(spans[j].0 <= k < spans[j].1);
        }
        if is_covered(spans, k) {
            let i = choose|i: int|
                0 <= i < spans.len() && (#[trigger] spans[i]).0 <= k < spans[i].1;
            assert(sorted.contains(spans[i]));
            let j = choose|j: int| 0 <= j < sorted.len() && sorted[j] == spans[i];
            assert(sorted[j].0 <= k < sorted[j].1);
        }
    }
    lemma_bytes_of_same(utf8::encode_utf8(s), sorted, spans, 0);
}

/// Ordering keeps the spans that there are.
proof fn lemma_same_spans(spans: Seq<(usize, usize)>)
    ensures
        forall|span: (usize, usize)|
            #![auto]
            in_order(spans).contains(span) <==> spans.contains(span),
        forall|i: int| 0 <= i < spans.len() ==> in_order(spans).contains(#[trigger] spans[i]),
        forall|i: int|
            0 <= i < in_order(spans).len() ==> spans.contains(#[trigger] in_order(spans)[i]),
{
    broadcast use seq_lib::group_to_multiset_ensures;

    lemma_span_order();
    spans.lemma_sort_by_ensures(span_order());
    let sorted = in_order(spans);
    assert(sorted.to_multiset() == spans.to_multiset());
    assert forall|span: (usize, usize)| sorted.contains(span) <==> spans.contains(span) by {
        assert(sorted.to_multiset().count(span) == spans.to_multiset().count(span));
    }
    assert forall|i: int| 0 <= i < spans.len() implies sorted.contains(#[trigger] spans[i]) by {
        assert(spans.contains(spans[i]));
    }
    assert forall|i: int| 0 <= i < sorted.len() implies spans.contains(#[trigger] sorted[i]) by {
        assert(sorted.contains(sorted[i]));
    }
}

/// Groups that follow one another without overlap leave over what their spans leave over.
pub proof fn law_apart_groups_leave_what_spans_leave(
    s: Seq<char>,
    spans: Seq<(usize, usize)>,
    from: int,
)
    requires
        offsets::is_edge(s, from),
        follow(spans, from),
        forall|i: int|
            0 <= i < spans.len() ==> offsets::is_span(
                s,
                (#[trigger] spans[i]).0 as int,
                spans[i].1 as int,
            ),
    ensures
        outside(s, spans, from) == Some(uncovered(s, spans, from)),
    decreases spans.len(),
{
    offsets::lemma_ends(s);
    if spans.len() > 0 {
        assert(offsets::is_span(s, spans[0].0 as int, spans[0].1 as int));
        let rest = spans.skip(1);
        assert forall|i: int| 0 <= i < rest.len() implies offsets::is_span(
            s,
            (#[trigger] rest[i]).0 as int,
            rest[i].1 as int,
        ) by {
            assert(rest[i] == spans[i + 1]);
        }
        law_apart_groups_leave_what_spans_leave(s, rest, spans[0].1 as int);
    }
}

/// Whatever the groups, what follows the end of the last of them is left over at the end.
pub proof fn law_what_follows_the_last_group_is_left(
    s: Seq<char>,
    spans: Seq<(usize, usize)>,
    from: int,
)
    requires
        spans.len() > 0,
        outside(s, spans, from) is Some,
        spans.last().1 < offsets::byte_len(s),
    ensures
        offsets::slice(s, spans.last().1 as int, offsets::byte_len(s) as int).is_suffix_of(
            outside(s, spans, from)->0,
        ),
    decreases spans.len(),
{
    let n = offsets::byte_len(s) as int;
    let rest = spans.skip(1);
    let tail = offsets::slice(s, spans.last().1 as int, n);
    let front = gap(s, from, spans[0].0 as int);
    let after = outside(s, rest, spans[0].1 as int)->0;
    if rest.len() == 0 {
        assert(spans.last() == spans[0]);
        assert(after == tail);
    } else {
        assert(rest.last() == spans.last());
        law_what_follows_the_last_group_is_left(s, rest, spans[0].1 as int);
    }
    let all = front + after;
    assert(all.subrange(all.len() - tail.len(), all.len() as int) =~= after.subrange(
        after.len() - tail.len(),
        after.len() as int,
    ));
}

/// The groups of a match that has the given spans as its groups.
pub open spec fn as_groups(spans: Seq<(usize, usize)>) -> Seq<GroupSpan> {
    Seq::new(spans.len(), |i: int| Some(spans[i]))
}

/// The whole match is no group, and a group that took no part in the match takes nothing away.
pub proof fn law_absent_groups_take_nothing(
    s: Seq<char>,
    whole: GroupSpan,
    groups: Seq<GroupSpan>,
    more: Seq<GroupSpan>,
)
    ensures
        complement_of_groups(s, seq![whole]) == Some(s),
        complement_of_groups(s, seq![whole] + groups + seq![None] + more) == complement_of_groups(
            s,
            seq![whole] + groups + more,
        ),
{
    let one = seq![whole];
    assert(one.skip(1) =~= Seq::empty());
    assert(group_spans(one.skip(1)) =~= Seq::empty());
    let none = Seq::<(usize, usize)>::empty();
    lemma_span_order();
    none.lemma_sort_by_ensures(span_order());
    assert(in_order(none).len() == 0) by {
        assert(in_order(none).to_multiset().len() == none.to_multiset().len());
        none.to_multiset_ensures();
        in_order(none).to_multiset_ensures();
    }
    offsets::lemma_ends(s);
    offsets::lemma_slice_all(s);
    if offsets::byte_len(s) == 0 {
        assert(s.len() == 0) by {
            if s.len() > 0 {
                lemma_text_has_bytes(s);
            }
        }
        assert(s =~= Seq::empty());
    }
    let with_none = seq![whole] + groups + seq![None] + more;
    let without = seq![whole] + groups + more;
    assert(with_none.skip(1) =~= groups + seq![None::<(usize, usize)>] + more);
    assert(without.skip(1) =~= groups + more);
    lemma_spans_without(groups, more);
}

proof fn lemma_text_has_bytes(s: Seq<char>)
    requires
        s.len() > 0,
    ensures
        offsets::byte_len(s) > 0,
{
    assert(utf8::encode_scalar(s[0] as u32).len() > 0);
}

proof fn lemma_spans_without(groups: Seq<GroupSpan>, more: Seq<GroupSpan>)
    ensures
        group_spans(groups + seq![None] + more) == group_spans(groups + more),
    decreases more.len(),
{
    let a = groups + seq![None::<(usize, usize)>] + more;
    let b = groups + more;
    if more.len() == 0 {
        assert(a.drop_last() =~= groups);
        assert(b =~= groups);
        assert(a.last() is None);
    } else {
        let fewer = more.drop_last();
        assert(a.drop_last() =~= groups + seq![None::<(usize, usize)>] + fewer);
        assert(b.drop_last() =~= groups + fewer);
        assert(a.last() == more.last() && b.last() == more.last());
        lemma_spans_without(groups, fewer);
    }
}

/// Where groups do not overlap, in whatever order they stand, what they leave over is what their
/// spans leave over.
pub proof fn law_groups_leave_what_spans_leave(
    s: Seq<char>,
    whole: GroupSpan,
    spans: Seq<(usize, usize)>,
)
    requires
        follow(in_order(spans), 0),
        forall|i: int|
            0 <= i < spans.len() ==> offsets::is_span(
                s,
                (#[trigger] spans[i]).0 as int,
                spans[i].1 as int,
            ),
    ensures
        complement_of_groups(s, seq![whole] + as_groups(spans)) == Some(
            complement_of_spans(s, spans),
        ),
{
    let groups = seq![whole] + as_groups(spans);
    assert(groups.skip(1) =~= as_groups(spans));
    lemma_spans_of_groups(spans);
    offsets::lemma_ends(s);
    let sorted = in_order(spans);
    lemma_span_order();
    spans.lemma_sort_by_ensures(span_order());
    spans.to_multiset_ensures();
    sorted.to_multiset_ensures();
    assert forall|i: int| 0 <= i < sorted.len() implies offsets::is_span(
        s,
        (#[trigger] sorted[i]).0 as int,
        sorted[i].1 as int,
    ) by {
        assert(sorted.contains(sorted[i]));
        assert(spans.to_multiset().count(sorted[i]) == sorted.to_multiset().count(sorted[i]));
        assert(spans.contains(sorted[i]));
    }
    law_apart_groups_leave_what_spans_leave(s, sorted, 0);
}

proof fn lemma_spans_of_groups(spans: Seq<(usize, usize)>)
    ensures
        group_spans(as_groups(spans)) == spans,
    decreases spans.len(),
{
    if spans.len() > 0 {
        assert(as_groups(spans).drop_last() =~= as_groups(spans.drop_last()));
        lemma_spans_of_groups(spans.drop_last());
        assert(spans.drop_last().push(spans.last()) =~= spans);
    } else {
        assert(spans =~= Seq::empty());
    }
}

} // verus!
