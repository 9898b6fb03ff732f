//! Byte offsets in a text.

use crate::unicode;
use vstd::prelude::*;
use vstd::utf8;

verus! {

/// The number of bytes of a text.
pub open spec fn byte_len(s: Seq<char>) -> nat {
    utf8::encode_utf8(s).len()
}

/// Whether a byte offset lies at the start of a character of `s` or at its end.
pub open spec fn is_edge(s: Seq<char>, at: int) -> bool {
    0 <= at <= byte_len(s) && utf8::is_char_boundary(utf8::encode_utf8(s), at)
}

/// Whether two byte offsets enclose a part of `s`.
pub open spec fn is_span(s: Seq<char>, from: int, to: int) -> bool {
    from <= to && is_edge(s, from) && is_edge(s, to)
}

/// The part of `s` between two byte offsets.
pub open spec fn slice(s: Seq<char>, from: int, to: int) -> Seq<char> {
    utf8::decode_utf8(utf8::encode_utf8(s).subrange(from, to))
}

/// A character of a valid encoding starts where no continuation byte stands.
proof fn lemma_edge_is(s: Seq<char>, at: int)
    requires
        0 <= at <= byte_len(s),
    ensures
        is_edge(s, at) <==> at == byte_len(s) || !utf8::is_continuation_byte(
            utf8::encode_utf8(s)[at],
        ),
{
    let b = utf8::encode_utf8(s);
    utf8::encode_utf8_valid_utf8(s);
    if at == b.len() {
        utf8::is_char_boundary_start_end_of_seq(b);
    } else {
        utf8::is_char_boundary_iff_not_is_continuation_byte(b, at);
    }
}

/// The ends of a text are edges.
pub proof fn lemma_ends(s: Seq<char>)
    ensures
        is_edge(s, 0),
        is_edge(s, byte_len(s) as int),
{
    utf8::encode_utf8_valid_utf8(s);
    utf8::is_char_boundary_start_end_of_seq(utf8::encode_utf8(s));
}

/// The part between two edges is a text whose bytes are those between them.
pub proof fn lemma_slice(s: Seq<char>, from: int, to: int)
    requires
        is_span(s, from, to),
    ensures
        utf8::encode_utf8(slice(s, from, to)) == utf8::encode_utf8(s).subrange(from, to),
        utf8::valid_utf8(utf8::encode_utf8(s).subrange(from, to)),
{
    let b = utf8::encode_utf8(s);
    utf8::encode_utf8_valid_utf8(s);
    utf8::valid_utf8_split(b, to);
    let head = b.subrange(0, to);
    if from < to {
        lemma_edge_is(s, from);
        utf8::is_char_boundary_iff_not_is_continuation_byte(head, from);
        utf8::is_char_boundary_iff_not_is_continuation_byte(b, from);
        assert(head[from] == b[from]);
    } else {
        utf8::is_char_boundary_start_end_of_seq(head);
    }
    utf8::valid_utf8_split(head, from);
    assert(head.subrange(from, head.len() as int) == b.subrange(from, to));
    utf8::decode_utf8_encode_utf8(b.subrange(from, to));
}

/// Two neighbouring parts make one.
pub proof fn lemma_slice_join(s: Seq<char>, from: int, mid: int, to: int)
    requires
        is_span(s, from, mid),
        is_span(s, mid, to),
    ensures
        slice(s, from, mid) + slice(s, mid, to) == slice(s, from, to),
{
    let b = utf8::encode_utf8(s);
    let part = b.subrange(from, to);
    utf8::encode_utf8_valid_utf8(s);
    lemma_slice(s, from, to);
    if mid == to {
        utf8::is_char_boundary_start_end_of_seq(part);
    } else if mid < to {
        utf8::is_char_boundary_iff_not_is_continuation_byte(b, mid);
        utf8::is_char_boundary_iff_not_is_continuation_byte(part, mid - from);
        assert(part[mid - from] == b[mid]);
    }
    utf8::decode_utf8_split(part, mid - from);
    assert(part.subrange(0, mid - from) == b.subrange(from, mid));
    assert(part.subrange(mid - from, part.len() as int) == b.subrange(mid, to));
}

/// The whole of a text is itself.
pub proof fn lemma_slice_all(s: Seq<char>)
    ensures
        slice(s, 0, byte_len(s) as int) == s,
{
    let b = utf8::encode_utf8(s);
    assert(b.subrange(0, b.len() as int) == b);
    utf8::encode_utf8_decode_utf8(s);
}

/// An empty part is empty.
pub proof fn lemma_slice_none(s: Seq<char>, at: int)
    requires
        0 <= at <= byte_len(s),
    ensures
        slice(s, at, at) == Seq::<char>::empty(),
{
    assert(utf8::encode_utf8(s).subrange(at, at).len() == 0);
    reveal_with_fuel(utf8::decode_utf8, 1);
}

/// Every position of an ASCII text is the byte offset of an edge.
pub proof fn lemma_ascii(s: Seq<char>)
    requires
        unicode::is_ascii_text(s),
    ensures
        byte_len(s) == s.len(),
        forall|i: int| 0 <= i <= s.len() ==> #[trigger] is_edge(s, i),
{
    lemma_ascii_bytes(s);
    let b = utf8::encode_utf8(s);
    assert forall|i: int| 0 <= i <= s.len() implies #[trigger] is_edge(s, i) by {
        lemma_edge_is(s, i);
        if i < s.len() {
            assert(s[i] as u8 == b[i]);
            lemma_ascii_byte(s[i]);
        }
    }
}

proof fn lemma_ascii_byte(c: char)
    requires
        unicode::is_ascii_char(c),
    ensures
        '\0' <= c <= '\u{7f}',
        !utf8::is_continuation_byte(c as u8),
{
    let code = c as u32;
    assert(code as u8 <= 0x7f) by (bit_vector)
        requires
            code <= 0x7f,
    ;
}

proof fn lemma_ascii_bytes(s: Seq<char>)
    requires
        unicode::is_ascii_text(s),
    ensures
        byte_len(s) == s.len(),
        forall|i: int|
            0 <= i < s.len() ==> #[trigger] s[i] as u8 == utf8::encode_utf8(s)[i],
{
    assert(utf8::is_ascii_chars(s)) by {
        assert forall|i: int| 0 <= i < s.len() implies '\0' <= #[trigger] s[i] <= '\u{7f}' by {
            lemma_ascii_byte(s[i]);
        }
    }
    utf8::is_ascii_chars_encode_utf8(s);
}

/// The part of an ASCII text between two byte offsets holds the characters between them.
pub proof fn lemma_ascii_slice(s: Seq<char>, from: int, to: int)
    requires
        unicode::is_ascii_text(s),
        0 <= from <= to <= s.len(),
    ensures
        slice(s, from, to) == s.subrange(from, to),
{
    let part = s.subrange(from, to);
    assert forall|i: int| 0 <= i < part.len() implies unicode::is_ascii_char(#[trigger] part[i]) by {
        assert(part[i] == s[from + i]);
    }
    lemma_ascii_bytes(s);
    lemma_ascii_bytes(part);
    let b = utf8::encode_utf8(s).subrange(from, to);
    assert forall|i: int| 0 <= i < part.len() implies utf8::encode_utf8(part)[i] == b[i] by {
        assert(part[i] as u8 == utf8::encode_utf8(part)[i]);
        assert(s[from + i] as u8 == utf8::encode_utf8(s)[from + i]);
        assert(part[i] == s[from + i]);
    }
    assert(utf8::encode_utf8(part) =~= b);
    utf8::encode_utf8_decode_utf8(part);
}

/// The number of bytes of a text.
pub fn len_of(s: &str) -> (r: usize)
    ensures
        r == byte_len(s@),
{
    s.as_bytes().len()
}

/// Whether two byte offsets enclose a part of a text.
pub fn spans(s: &str, from: usize, to: usize) -> (r: bool)
    ensures
        r == is_span(s@, from as int, to as int),
{
    from <= to && to <= len_of(s) && s.is_char_boundary(from) && s.is_char_boundary(to)
}

/// The part of a text between two byte offsets.
pub fn slice_of(s: &str, from: usize, to: usize) -> (r: &str)
    requires
        is_span(s@, from as int, to as int),
    ensures
        r@ == slice(s@, from as int, to as int),
{
    let (head, _) = s.split_at(to);
    proof {
        let b = utf8::encode_utf8(s@);
        utf8::encode_utf8_valid_utf8(s@);
        if from < to {
            utf8::valid_utf8_split(b, to as int);
            utf8::is_char_boundary_iff_not_is_continuation_byte(b, from as int);
            utf8::is_char_boundary_iff_not_is_continuation_byte(
                b.subrange(0, to as int),
                from as int,
            );
        } else {
            utf8::valid_utf8_split(b, to as int);
            utf8::is_char_boundary_start_end_of_seq(b.subrange(0, to as int));
        }
    }
    let (_, part) = head.split_at(from);
    proof {
        let b = utf8::encode_utf8(s@);
        assert(b.subrange(0, to as int).subrange(from as int, to as int) == b.subrange(
            from as int,
            to as int,
        ));
        utf8::encode_utf8_decode_utf8(part@);
    }
    part
}

proof fn lemma_bytes_of_two(a: Seq<char>, b: Seq<char>)
    ensures
        utf8::encode_utf8(a + b) == utf8::encode_utf8(a) + utf8::encode_utf8(b),
    decreases a.len(),
{
    if a.len() == 0 {
        assert(a + b =~= b);
        assert(utf8::encode_utf8(a) + utf8::encode_utf8(b) =~= utf8::encode_utf8(b));
    } else {
        let s = a + b;
        assert(s.drop_first() =~= a.drop_first() + b);
        lemma_bytes_of_two(a.drop_first(), b);
        assert(s[0] == a[0]);
        assert(utf8::encode_utf8(s) =~= utf8::encode_utf8(a) + utf8::encode_utf8(b));
    }
}

/// A text that stands between two others is the part between the end of the first and the start of
/// the second, and these are edges of characters.
pub proof fn law_parts_are_found_again(a: Seq<char>, b: Seq<char>, c: Seq<char>)
    ensures
        byte_len(a + b) == byte_len(a) + byte_len(b),
        is_span(a + b + c, byte_len(a) as int, byte_len(a + b) as int),
        slice(a + b + c, byte_len(a) as int, byte_len(a + b) as int) == b,
{
    let s = a + b + c;
    let bytes = utf8::encode_utf8(s);
    let from = byte_len(a) as int;
    let to = byte_len(a + b) as int;
    lemma_bytes_of_two(a, b);
    lemma_bytes_of_two(a + b, c);
    assert(a + b + c =~= a + (b + c));
    lemma_bytes_of_two(a, b + c);
    assert(bytes.subrange(from, to) =~= utf8::encode_utf8(b));
    utf8::encode_utf8_decode_utf8(b);
    lemma_edge_between(a, b + c);
    lemma_edge_between(a + b, c);
}

/// Where one text ends and another begins there is an edge.
proof fn lemma_edge_between(a: Seq<char>, b: Seq<char>)
    ensures
        is_edge(a + b, byte_len(a) as int),
{
    lemma_bytes_of_two(a, b);
    lemma_edge_is(a + b, byte_len(a) as int);
    if b.len() > 0 {
        lemma_ends(b);
        lemma_edge_is(b, 0);
        assert(utf8::encode_utf8(a + b)[byte_len(a) as int] == utf8::encode_utf8(b)[0]
            || byte_len(b) == 0);
    } else {
        assert(a + b =~= a);
    }
}

} // verus!
