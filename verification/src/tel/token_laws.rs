//! What holds of cutting patterns into tokens and taking tokens apart.

use crate::tel::compiled;
use crate::tel::segment;
use crate::tel::split;
use crate::tel::split::{SplitMode, SplitState};
use crate::tel::{ClassConstraintView, Quantity, TelSegmentView, TokenInfoView, TokenKind};
use crate::text;
use crate::text::laws as text_laws;
use crate::text::CharClass;
use crate::unicode;
use vstd::prelude::*;

verus! {

/// A state further on, by the length of a text before the pattern.
spec fn moved(st: SplitState, by: int) -> SplitState {
    SplitState { index: st.index + by, ..st }
}

/// A state with tokens before its own.
spec fn after_tokens(first: Seq<Seq<char>>, st: SplitState) -> SplitState {
    SplitState { tokens: first + st.tokens, ..st }
}

proof fn lemma_step_moves(a: Seq<char>, b: Seq<char>, st: SplitState)
    requires
        0 <= st.index < b.len(),
    ensures
        split::step(a + b, moved(st, a.len() as int)) == moved(split::step(b, st), a.len() as int),
{
    let s = a + b;
    let n = a.len() as int;
    let i = st.index;
    assert(s[i + n] == b[i]);
    if i + 1 < b.len() {
        assert(s[i + 1 + n] == b[i + 1]);
    }
    if i + 2 < b.len() {
        assert(s[i + 2 + n] == b[i + 2]);
    }
    if i + 3 < b.len() {
        assert(s[i + 3 + n] == b[i + 3]);
    }
    assert(s.skip(i + n) =~= b.skip(i));
    let t = b.skip(i);
    text::lemma_run(t, CharClass::White);
    let w = text::run_len(t, CharClass::White) as int;
    assert(s.subrange(i + n, i + n + w) =~= b.subrange(i, i + w));
    if i + 2 <= b.len() {
        assert(s.subrange(i + n, i + n + 2) =~= b.subrange(i, i + 2));
    }
}

/// Cutting goes on in the same way whatever stood before.
proof fn lemma_split_moves(a: Seq<char>, b: Seq<char>, st: SplitState)
    requires
        0 <= st.index <= b.len(),
    ensures
        split::split_from(a + b, moved(st, a.len() as int)) == split::split_from(b, st),
    decreases b.len() - st.index,
{
    let s = a + b;
    if st.index < b.len() {
        lemma_step_moves(a, b, st);
        split::lemma_step_progress(b, st);
        split::lemma_step_progress(s, moved(st, a.len() as int));
        lemma_split_moves(a, b, split::step(b, st));
    }
}

proof fn lemma_step_adds(s: Seq<char>, first: Seq<Seq<char>>, st: SplitState)
    requires
        0 <= st.index < s.len(),
    ensures
        split::step(s, after_tokens(first, st)) == after_tokens(first, split::step(s, st)),
{
    let next = split::step(s, st);
    let other = split::step(s, after_tokens(first, st));
    assert(split::flushed(first + st.tokens, st.current) =~= first + split::flushed(
        st.tokens,
        st.current,
    ));
    assert(other.tokens =~= first + next.tokens);
}

/// Tokens that are complete come before those that follow.
proof fn lemma_split_adds(s: Seq<char>, first: Seq<Seq<char>>, st: SplitState)
    requires
        0 <= st.index <= s.len(),
    ensures
        split::split_from(s, after_tokens(first, st)) == first + split::split_from(s, st),
    decreases s.len() - st.index,
{
    if st.index < s.len() {
        lemma_step_adds(s, first, st);
        split::lemma_step_progress(s, st);
        split::lemma_step_progress(s, after_tokens(first, st));
        lemma_split_adds(s, first, split::step(s, st));
    } else {
        assert(split::finished(after_tokens(first, st)) =~= first + split::finished(st));
    }
}

/// At the end of a token the rest of the pattern is cut for itself.
proof fn lemma_rest_is_cut(front: Seq<char>, rest: Seq<char>, tokens: Seq<Seq<char>>)
    ensures
        split::split_from(
            front + rest,
            SplitState {
                tokens,
                current: Seq::empty(),
                literal: Seq::empty(),
                index: front.len() as int,
                mode: SplitMode::Outside,
            },
        ) == tokens + split::split_from(rest, split::split_start()),
{
    let start = split::split_start();
    lemma_split_adds(rest, tokens, start);
    assert(tokens + start.tokens =~= tokens);
    lemma_split_moves(front, rest, after_tokens(tokens, start));
}

/// Where a pattern is not the one whose blanks separate nothing, its tokens are those of a cut from
/// its start.
proof fn lemma_split_is_cut(s: Seq<char>)
    requires
        s != split::BARE_PROVINCE_PATTERN@,
    ensures
        split::split_tokens(s) == split::split_from(s, split::split_start()),
{
    let start = split::split_start();
    if s.len() == 0 {
        assert(split::finished(start) =~= Seq::<Seq<char>>::empty());
    } else if text::all_in(s, CharClass::White) {
        assert(text::in_class(CharClass::White, s[0]));
        assert(s.skip(0) == s);
        text::lemma_run_is(s, CharClass::White, s.len() as int);
        lemma_blank_start(s[0]);
        let next = split::step(s, start);
        assert(s.subrange(0, s.len() as int) == s);
        assert(next.tokens =~= seq![s]);
        assert(split::split_from(s, start) == split::split_from(s, next));
        assert(split::split_from(s, next) =~= seq![s]);
    }
}

/// No white space begins a token of another kind.
proof fn lemma_blank_start(c: char)
    requires
        unicode::is_white(c),
    ensures
        c != '\\' && c != '{' && c != '<' && c != '>' && c != '!',
{
}

/// Inside `<<` and `>>`, or `<!` and `!>`, characters other than `<`, `>` and `!` add to the token.
proof fn lemma_inside_grows(s: Seq<char>, st: SplitState, to: int)
    requires
        st.mode == SplitMode::Capture || st.mode == SplitMode::Vanish,
        0 <= st.index <= to <= s.len(),
        forall|k: int|
            st.index <= k < to ==> #[trigger] s[k] != '<' && s[k] != '>' && s[k] != '!',
    ensures
        split::split_from(s, st) == split::split_from(
            s,
            SplitState { current: st.current + s.subrange(st.index, to), index: to, ..st },
        ),
    decreases to - st.index,
{
    if st.index < to {
        let next = split::step(s, st);
        split::lemma_step_progress(s, st);
        assert(s[st.index] != '<' && s[st.index] != '>' && s[st.index] != '!');
        assert(next == SplitState {
            current: st.current.push(s[st.index]),
            index: st.index + 1,
            ..st
        });
        lemma_inside_grows(s, next, to);
        assert(next.current + s.subrange(st.index + 1, to) =~= st.current + s.subrange(
            st.index,
            to,
        ));
    } else {
        assert(st.current + s.subrange(st.index, to) =~= st.current);
    }
}

/// Inside `{{` and `}}` characters other than braces add to the block.
proof fn lemma_literal_grows(s: Seq<char>, st: SplitState, to: int)
    requires
        st.mode == SplitMode::Literal,
        0 <= st.index <= to <= s.len(),
        forall|k: int| st.index <= k < to ==> #[trigger] s[k] != '{' && s[k] != '}',
    ensures
        split::split_from(s, st) == split::split_from(
            s,
            SplitState { literal: st.literal + s.subrange(st.index, to), index: to, ..st },
        ),
    decreases to - st.index,
{
    if st.index < to {
        let next = split::step(s, st);
        split::lemma_step_progress(s, st);
        assert(s[st.index] != '{' && s[st.index] != '}');
        lemma_literal_grows(s, next, to);
        assert(next.literal + s.subrange(st.index + 1, to) =~= st.literal + s.subrange(
            st.index,
            to,
        ));
    } else {
        assert(st.literal + s.subrange(st.index, to) =~= st.literal);
    }
}

/// A capture `<<..>>` and a vanishing group `<!..!>` are one token each, and what follows is cut as
/// if they were not there.
pub proof fn law_groups_are_tokens(inner: Seq<char>, rest: Seq<char>)
    requires
        forall|i: int|
            0 <= i < inner.len() ==> #[trigger] inner[i] != '<' && inner[i] != '>' && inner[i]
                != '!',
        rest != split::BARE_PROVINCE_PATTERN@,
    ensures
        split::split_tokens(seq!['<', '<'] + inner + seq!['>', '>'] + rest) == seq![
            seq!['<', '<'] + inner + seq!['>', '>'],
        ] + split::split_tokens(rest),
        split::split_tokens(seq!['<', '!'] + inner + seq!['!', '>'] + rest) == seq![
            seq!['<', '!'] + inner + seq!['!', '>'],
        ] + split::split_tokens(rest),
{
    lemma_group_is_token(inner, rest, '<', '>', SplitMode::Capture);
    lemma_group_is_token(inner, rest, '!', '!', SplitMode::Vanish);
}

proof fn lemma_group_is_token(
    inner: Seq<char>,
    rest: Seq<char>,
    open: char,
    close: char,
    mode: SplitMode,
)
    requires
        forall|i: int|
            0 <= i < inner.len() ==> #[trigger] inner[i] != '<' && inner[i] != '>' && inner[i]
                != '!',
        rest != split::BARE_PROVINCE_PATTERN@,
        (open == '<' && close == '>' && mode == SplitMode::Capture) || (open == '!' && close == '!'
            && mode == SplitMode::Vanish),
    ensures
        split::split_tokens(seq!['<', open] + inner + seq![close, '>'] + rest) == seq![
            seq!['<', open] + inner + seq![close, '>'],
        ] + split::split_tokens(rest),
{
    let token = seq!['<', open] + inner + seq![close, '>'];
    let s = token + rest;
    assert(seq!['<', open] + inner + seq![close, '>'] + rest == s);
    reveal_strlit("ALPHA <!PROV!> POSTALCODE");
    assert(s[0] == '<' && s[1] == open);
    assert(split::BARE_PROVINCE_PATTERN@[0] == 'A');
    lemma_split_is_cut(s);
    lemma_split_is_cut(rest);
    let start = split::split_start();
    let opened = split::step(s, start);
    assert(opened.tokens =~= Seq::<Seq<char>>::empty());
    assert(split::split_from(s, start) == split::split_from(s, opened));
    let to = 2 + inner.len() as int;
    assert forall|k: int| opened.index <= k < to implies #[trigger] s[k] != '<' && s[k] != '>'
        && s[k] != '!' by {
        assert(s[k] == inner[k - 2]);
    }
    lemma_inside_grows(s, opened, to);
    let full = SplitState {
        current: opened.current + s.subrange(opened.index, to),
        index: to,
        ..opened
    };
    assert(s.subrange(2, to) =~= inner);
    assert(s[to] == close && s[to + 1] == '>');
    let closed = split::step(s, full);
    assert(full.current + s.subrange(to, to + 2) =~= token);
    assert(closed.tokens =~= seq![token]);
    assert(split::split_from(s, full) == split::split_from(s, closed));
    lemma_rest_is_cut(token, rest, seq![token]);
    assert(closed == SplitState {
        tokens: seq![token],
        current: Seq::empty(),
        literal: Seq::empty(),
        index: token.len() as int,
        mode: SplitMode::Outside,
    });
}

/// A literal block `{{..}}` is one token, and what follows is cut as if it were not there.
pub proof fn law_literal_blocks_are_tokens(inner: Seq<char>, rest: Seq<char>)
    requires
        forall|i: int| 0 <= i < inner.len() ==> #[trigger] inner[i] != '{' && inner[i] != '}',
        rest.len() > 0 ==> rest[0] != '}',
        rest != split::BARE_PROVINCE_PATTERN@,
    ensures
        split::split_tokens(seq!['{', '{'] + inner + seq!['}', '}'] + rest) == seq![
            seq!['{', '{'] + inner + seq!['}', '}'],
        ] + split::split_tokens(rest),
{
    let token = seq!['{', '{'] + inner + seq!['}', '}'];
    let s = token + rest;
    reveal_strlit("ALPHA <!PROV!> POSTALCODE");
    assert(s[0] == '{' && s[1] == '{');
    assert(split::BARE_PROVINCE_PATTERN@[0] == 'A');
    lemma_split_is_cut(s);
    lemma_split_is_cut(rest);
    let start = split::split_start();
    let opened = split::step(s, start);
    assert(split::split_from(s, start) == split::split_from(s, opened));
    let to = 2 + inner.len() as int;
    assert forall|k: int| opened.index <= k < to implies #[trigger] s[k] != '{' && s[k] != '}' by {
        assert(s[k] == inner[k - 2]);
    }
    lemma_literal_grows(s, opened, to);
    let full = SplitState {
        literal: opened.literal + s.subrange(opened.index, to),
        index: to,
        ..opened
    };
    assert(s.subrange(2, to) =~= inner);
    assert(full.literal =~= inner);
    assert(s[to] == '}' && s[to + 1] == '}');
    assert(to + 2 < s.len() ==> s[to + 2] == rest[0]);
    let closed = split::step(s, full);
    assert(closed.tokens =~= seq![token]);
    assert(split::split_from(s, full) == split::split_from(s, closed));
    lemma_rest_is_cut(token, rest, seq![token]);
    assert(closed.current =~= Seq::<char>::empty());
    assert(closed.literal =~= Seq::<char>::empty());
}

/// An escaped bracket is a token of the bracket alone.
pub proof fn law_escaped_brackets_are_tokens(bracket: char, rest: Seq<char>)
    requires
        seq!['(', ')', '[', ']', '{', '}'].contains(bracket),
        rest != split::BARE_PROVINCE_PATTERN@,
    ensures
        split::split_tokens(seq!['\\', bracket] + rest) == seq![seq![bracket]]
            + split::split_tokens(rest),
{
    let token = seq!['\\', bracket];
    let s = token + rest;
    reveal_strlit("ALPHA <!PROV!> POSTALCODE");
    assert(s[0] == '\\' && s[1] == bracket);
    assert(split::BARE_PROVINCE_PATTERN@[0] == 'A');
    let all = seq!['(', ')', '[', ']', '{', '}'];
    let i = choose|i: int| 0 <= i < all.len() && all[i] == bracket;
    assert(split::is_bracket(all[i]));
    lemma_split_is_cut(s);
    lemma_split_is_cut(rest);
    let start = split::split_start();
    let next = split::step(s, start);
    assert(next.tokens =~= seq![seq![bracket]]);
    assert(split::split_from(s, start) == split::split_from(s, next));
    lemma_rest_is_cut(token, rest, seq![seq![bracket]]);
}

/// White space is one token up to what follows it.
pub proof fn law_white_space_is_a_token(blanks: Seq<char>, rest: Seq<char>)
    requires
        blanks.len() > 0,
        forall|i: int| 0 <= i < blanks.len() ==> unicode::is_white(#[trigger] blanks[i]),
        rest.len() > 0 ==> !unicode::is_white(rest[0]),
        rest != split::BARE_PROVINCE_PATTERN@,
    ensures
        split::split_tokens(blanks + rest) == seq![blanks] + split::split_tokens(rest),
{
    let s = blanks + rest;
    reveal_strlit("ALPHA <!PROV!> POSTALCODE");
    assert(s[0] == blanks[0]);
    assert(unicode::is_white(blanks[0]));
    assert(split::BARE_PROVINCE_PATTERN@[0] == 'A');
    lemma_split_is_cut(s);
    lemma_split_is_cut(rest);
    lemma_blank_start(s[0]);
    assert(s.skip(0) == s);
    assert forall|i: int| 0 <= i < blanks.len() implies text::in_class(
        CharClass::White,
        #[trigger] s[i],
    ) by {
        assert(s[i] == blanks[i]);
    }
    if rest.len() > 0 {
        assert(s[blanks.len() as int] == rest[0]);
    }
    text::lemma_run_is(s, CharClass::White, blanks.len() as int);
    let start = split::split_start();
    let next = split::step(s, start);
    assert(s.subrange(0, blanks.len() as int) =~= blanks);
    assert(next.tokens =~= seq![blanks]);
    assert(split::split_from(s, start) == split::split_from(s, next));
    lemma_rest_is_cut(blanks, rest, seq![blanks]);
}

/// Whether a character belongs to words and to nothing else that patterns know.
pub open spec fn is_letter_of_word(c: char) -> bool {
    (unicode::is_alnum(c) || c == '_' || c == '-' || c == '\'') && !unicode::is_white(c)
}

proof fn lemma_word_grows(s: Seq<char>, st: SplitState, to: int)
    requires
        st.mode == SplitMode::Outside,
        0 <= st.index <= to <= s.len(),
        forall|k: int| st.index <= k < to ==> is_letter_of_word(#[trigger] s[k]),
    ensures
        split::split_from(s, st) == split::split_from(
            s,
            SplitState { current: st.current + s.subrange(st.index, to), index: to, ..st },
        ),
    decreases to - st.index,
{
    if st.index < to {
        let next = split::step(s, st);
        split::lemma_step_progress(s, st);
        assert(is_letter_of_word(s[st.index]));
        lemma_word_grows(s, next, to);
        assert(next.current + s.subrange(st.index + 1, to) =~= st.current + s.subrange(
            st.index,
            to,
        ));
    } else {
        assert(st.current + s.subrange(st.index, to) =~= st.current);
    }
}

/// A word is one token, up to white space or the end of the pattern; up to a modifier that belongs
/// to it, it is one token with the modifier.
pub proof fn law_words_are_tokens(word: Seq<char>, modifier: char, blank: char, rest: Seq<char>)
    requires
        word.len() > 0,
        forall|i: int| 0 <= i < word.len() ==> is_letter_of_word(#[trigger] word[i]),
        seq!['@', '#', '%', '$', '?', '+', '='].contains(modifier),
        unicode::is_white(blank),
        rest.len() > 0 ==> !unicode::is_white(rest[0]),
        word + seq![blank] + rest != split::BARE_PROVINCE_PATTERN@,
        rest != split::BARE_PROVINCE_PATTERN@,
    ensures
        split::split_tokens(word) == seq![word],
        split::split_tokens(word + seq![modifier]) == seq![word + seq![modifier]],
        split::split_tokens(word + seq![blank] + rest) == seq![word, seq![blank]]
            + split::split_tokens(rest),
{
    reveal_strlit("ALPHA <!PROV!> POSTALCODE");
    let bare = split::BARE_PROVINCE_PATTERN@;
    assert(bare[5] == ' ' && bare[24] == 'E' && bare.len() == 25);
    let start = split::split_start();
    let n = word.len() as int;
    let mods = seq!['@', '#', '%', '$', '?', '+', '='];
    let m = choose|m: int| 0 <= m < mods.len() && mods[m] == modifier;
    assert(split::is_modifier(mods[m]));
    // The word alone.
    assert(word != bare) by {
        if word == bare {
            assert(is_letter_of_word(word[5]));
        }
    }
    lemma_split_is_cut(word);
    lemma_word_grows(word, start, n);
    let whole = SplitState { current: start.current + word.subrange(0, n), index: n, ..start };
    assert(whole.current =~= word);
    assert(split::finished(whole) =~= seq![word]);
    // With a modifier.
    let marked = word + seq![modifier];
    assert(marked != bare) by {
        if marked == bare {
            assert(marked[24] == 'E');
            assert(marked[5] == ' ');
            assert(word[5] == ' ');
            assert(is_letter_of_word(word[5]));
        }
    }
    lemma_split_is_cut(marked);
    assert forall|k: int| 0 <= k < n implies is_letter_of_word(#[trigger] marked[k]) by {
        assert(marked[k] == word[k]);
    }
    lemma_word_grows(marked, start, n);
    let at = SplitState { current: start.current + marked.subrange(0, n), index: n, ..start };
    assert(at.current =~= word);
    assert(marked[n] == modifier);
    assert(is_letter_of_word(word[n - 1]));
    assert(!word.contains(modifier)) by {
        if word.contains(modifier) {
            let k = choose|k: int| 0 <= k < word.len() && word[k] == modifier;
            assert(is_letter_of_word(word[k]));
        }
    }
    let end = split::step(marked, at);
    assert(end.current =~= marked);
    assert(split::split_from(marked, at) == split::split_from(marked, end));
    assert(split::finished(end) =~= seq![marked]);
    // Before white space.
    let s = word + seq![blank] + rest;
    lemma_split_is_cut(s);
    lemma_split_is_cut(rest);
    assert forall|k: int| 0 <= k < n implies is_letter_of_word(#[trigger] s[k]) by {
        assert(s[k] == word[k]);
    }
    lemma_word_grows(s, start, n);
    let here = SplitState { current: start.current + s.subrange(0, n), index: n, ..start };
    assert(here.current =~= word);
    assert(s[n] == blank);
    lemma_blank_start(blank);
    let t = s.skip(n);
    assert(t[0] == blank);
    if rest.len() > 0 {
        assert(t[1] == rest[0]);
    }
    text::lemma_run_is(t, CharClass::White, 1);
    let next = split::step(s, here);
    assert(s.subrange(n, n + 1) =~= seq![blank]);
    assert(next.tokens =~= seq![word, seq![blank]]);
    assert(split::split_from(s, here) == split::split_from(s, next));
    lemma_rest_is_cut(word + seq![blank], rest, seq![word, seq![blank]]);
}

/// A capture `<<NAMEmods>>` has the field and the modifiers that it says, and `<<NAMEmods::CLASS>>`
/// the class too.
pub proof fn law_captures_have_their_parts(
    name: Seq<char>,
    modifiers: Seq<char>,
    class: Seq<char>,
)
    requires
        name.len() > 0,
        forall|i: int|
            0 <= i < name.len() ==> unicode::is_alnum(#[trigger] name[i]) || name[i] == '_',
        modifiers.len() > 0 ==> !unicode::is_alnum(modifiers[0]) && modifiers[0] != '_',
        !modifiers.contains(':'),
    ensures
        ({
            let plain = seq!['<', '<'] + (name + modifiers) + seq!['>', '>'];
            let classed = seq!['<', '<'] + (name + modifiers + seq![':', ':'] + class) + seq![
                '>',
                '>',
            ];
            let modifier = if modifiers.len() == 0 {
                None
            } else {
                Some(modifiers)
            };
            &&& segment::token_word(plain) == Ok::<TokenInfoView, Seq<char>>(
                TokenInfoView {
                    token: plain,
                    var_name: Some(name),
                    modifier,
                    class_type: None,
                    kind: TokenKind::Capturing,
                    flags: segment::flags_of(modifier),
                },
            )
            &&& segment::token_word(classed) == Ok::<TokenInfoView, Seq<char>>(
                TokenInfoView {
                    token: classed,
                    var_name: Some(name),
                    modifier,
                    class_type: Some(class),
                    kind: TokenKind::Capturing,
                    flags: segment::flags_of(modifier),
                },
            )
        }),
{
    let base = name + modifiers;
    assert(!base.contains(':')) by {
        if base.contains(':') {
            let i = choose|i: int| 0 <= i < base.len() && base[i] == ':';
            if i < name.len() {
                assert(unicode::is_alnum(name[i]) || name[i] == '_');
            } else {
                assert(modifiers[i - name.len()] == ':');
            }
        }
    }
    lemma_double_colon(base, Seq::empty());
    lemma_capture_is_taken_apart(name, modifiers, base, None);
    lemma_double_colon(base, class);
    let inner = base + seq![':', ':'] + class;
    assert(inner.take(base.len() as int) =~= base);
    assert(inner.skip(base.len() as int + 2) =~= class);
    lemma_capture_is_taken_apart(name, modifiers, inner, Some(class));
}

proof fn lemma_capture_is_taken_apart(
    name: Seq<char>,
    modifiers: Seq<char>,
    inner: Seq<char>,
    class: Option<Seq<char>>,
)
    requires
        name.len() > 0,
        forall|i: int|
            0 <= i < name.len() ==> unicode::is_alnum(#[trigger] name[i]) || name[i] == '_',
        modifiers.len() > 0 ==> !unicode::is_alnum(modifiers[0]) && modifiers[0] != '_',
        inner.len() > 0,
        class is None ==> inner == name + modifiers && text::find_from(inner, "::"@, 0) is None,
        class matches Some(c) ==> text::find_from(inner, "::"@, 0) is Some && inner.take(
            text::find_from(inner, "::"@, 0)->0,
        ) == name + modifiers && inner.skip(text::find_from(inner, "::"@, 0)->0 + 2) == c,
    ensures
        ({
            let token = seq!['<', '<'] + inner + seq!['>', '>'];
            let modifier = if modifiers.len() == 0 {
                None
            } else {
                Some(modifiers)
            };
            segment::token_word(token) == Ok::<TokenInfoView, Seq<char>>(
                TokenInfoView {
                    token,
                    var_name: Some(name),
                    modifier,
                    class_type: class,
                    kind: TokenKind::Capturing,
                    flags: segment::flags_of(modifier),
                },
            )
        }),
{
    lemma_base_is_taken_apart(name, modifiers);
    lemma_capture_shape(inner);
    let token = seq!['<', '<'] + inner + seq!['>', '>'];
    let parts = segment::structure(token);
    assert(parts is Ok);
    assert(parts->Ok_0.var_name == Some(name));
    assert(parts->Ok_0.class_type == class);
}

proof fn lemma_base_is_taken_apart(name: Seq<char>, modifiers: Seq<char>)
    requires
        name.len() > 0,
        forall|i: int|
            0 <= i < name.len() ==> unicode::is_alnum(#[trigger] name[i]) || name[i] == '_',
        modifiers.len() > 0 ==> !unicode::is_alnum(modifiers[0]) && modifiers[0] != '_',
    ensures
        text::run_len(name + modifiers, CharClass::Ident) == name.len(),
        (name + modifiers).take(name.len() as int) == name,
        (name + modifiers).skip(name.len() as int) == modifiers,
{
    let base = name + modifiers;
    assert forall|i: int| 0 <= i < name.len() implies text::in_class(
        CharClass::Ident,
        #[trigger] base[i],
    ) by {
        assert(base[i] == name[i]);
    }
    if modifiers.len() > 0 {
        assert(base[name.len() as int] == modifiers[0]);
    }
    text::lemma_run_is(base, CharClass::Ident, name.len() as int);
    assert(base.take(name.len() as int) =~= name);
    assert(base.skip(name.len() as int) =~= modifiers);
}

proof fn lemma_double_colon(base: Seq<char>, class: Seq<char>)
    requires
        !base.contains(':'),
    ensures
        text::find_from(base, "::"@, 0) is None,
        text::find_from(base + seq![':', ':'] + class, "::"@, 0) == Some(base.len() as int),
{
    reveal_strlit("::");
    let sep = "::"@;
    text_laws::law_first_occurrence_is_found(base, sep, 0);
    if text::find_from(base, sep, 0) is Some {
        let at = text::find_from(base, sep, 0)->0;
        assert(base.subrange(at, at + 2)[0] == sep[0]);
        assert(base[at] == ':');
    }
    let inner = base + seq![':', ':'] + class;
    let n = base.len() as int;
    text_laws::law_first_occurrence_is_found(inner, sep, 0);
    assert(inner.subrange(n, n + 2) =~= sep);
    let found = text::find_from(inner, sep, 0);
    if found is None {
        assert(inner.subrange(n, n + sep.len()) != sep);
    } else {
        let at = found->0;
        if at < n {
            assert(inner.subrange(at, at + 2)[0] == sep[0]);
            assert(base[at] == ':');
        } else if at > n {
            assert(inner.subrange(n, n + sep.len()) != sep);
        }
    }
}

proof fn lemma_capture_shape(inner: Seq<char>)
    requires
        inner.len() > 0,
    ensures
        ({
            let token = seq!['<', '<'] + inner + seq!['>', '>'];
            &&& text::between(token, "<<"@, ">>"@) == Some(inner)
            &&& text::between(token, "{{"@, "}}"@) is None
            &&& segment::vanishing_class(token) is None
            &&& token.len() > 0
            &&& token != "#"@ && token != "$"@ && token != "@"@ && token != "<<>>"@
        }),
{
    reveal_strlit("<<");
    reveal_strlit(">>");
    reveal_strlit("{{");
    reveal_strlit("}}");
    reveal_strlit("<!");
    reveal_strlit("!>");
    reveal_strlit("#");
    reveal_strlit("$");
    reveal_strlit("@");
    reveal_strlit("<<>>");
    let token = seq!['<', '<'] + inner + seq!['>', '>'];
    assert("<<"@ =~= seq!['<', '<'] && ">>"@ =~= seq!['>', '>']);
    text_laws::law_between_is_what_was_put_between("<<"@, inner, ">>"@);
    assert(token.subrange(0, 2)[0] == '<' && token.subrange(0, 2)[1] == '<');
    assert("{{"@[0] == '{' && "<!"@[1] == '!');
    assert("#"@.len() == 1 && "$"@.len() == 1 && "@"@.len() == 1 && "<<>>"@.len() == 4);
}

/// Each modifier means one thing: `?` optional, `+` one or more, `%` extended, `=` strict, `$`
/// greedy, `@` letters and `#` digits. A segment takes one or more tokens with `+`, at most one with
/// `?` alone, and one without either.
pub proof fn law_modifiers_mean_one_thing(info: TokenInfoView)
    requires
        info.flags == segment::flags_of(info.modifier),
    ensures
        ({
            let m = if info.modifier is Some {
                info.modifier->0
            } else {
                Seq::empty()
            };
            let types = segment::type_modifiers_of(info.modifier);
            &&& info.flags.optional == m.contains('?')
            &&& info.flags.multi_group == m.contains('+')
            &&& info.flags.extended == m.contains('%')
            &&& info.flags.strict_class == m.contains('=')
            &&& info.flags.greedy_matching == m.contains('$')
            &&& info.flags.has_class_group_modifier == (m.contains('[') && m.contains(']'))
            &&& types.alpha == m.contains('@')
            &&& types.numeric == m.contains('#')
            &&& types.extended == m.contains('%')
            &&& types.strict == m.contains('=')
            &&& types.greedy == m.contains('$')
            &&& segment::quantity_of(info.flags) == (if m.contains('+') {
                Quantity::OneOrMore
            } else if m.contains('?') {
                Quantity::Optional
            } else {
                Quantity::Required
            })
            &&& segment::segment_of(info) matches Ok(made) ==> made.token_info == info
                && made.type_modifiers == types && made.quantity == segment::quantity_of(info.flags)
        }),
{
}

/// A vanishing group `<!NAME!>` has the class that it names and nothing else, a literal block
/// `{{..}}` is a literal of its content, and a bare word the class that it names with its modifiers.
pub proof fn law_other_tokens_have_their_parts(
    name: Seq<char>,
    modifiers: Seq<char>,
    content: Seq<char>,
)
    requires
        name.len() > 0,
        forall|i: int|
            0 <= i < name.len() ==> unicode::is_alnum(#[trigger] name[i]) || name[i] == '_',
        modifiers.len() > 0 ==> !unicode::is_alnum(modifiers[0]) && modifiers[0] != '_',
        !modifiers.contains(':'),
        !modifiers.contains('>'),
    ensures
        ({
            let vanishing = seq!['<', '!'] + name + seq!['!', '>'];
            let literal = seq!['{', '{'] + content + seq!['}', '}'];
            let bare = name + modifiers;
            let modifier = if modifiers.len() == 0 {
                None
            } else {
                Some(modifiers)
            };
            &&& segment::token_word(vanishing) == Ok::<TokenInfoView, Seq<char>>(
                TokenInfoView {
                    token: vanishing,
                    var_name: None,
                    modifier: None,
                    class_type: Some(name),
                    kind: TokenKind::Vanishing,
                    flags: segment::flags_of(None),
                },
            )
            &&& segment::token_word(literal) == Ok::<TokenInfoView, Seq<char>>(
                TokenInfoView {
                    token: content,
                    var_name: None,
                    modifier: None,
                    class_type: None,
                    kind: TokenKind::Literal,
                    flags: segment::flags_of(None),
                },
            )
            &&& segment::token_word(bare) == Ok::<TokenInfoView, Seq<char>>(
                TokenInfoView {
                    token: bare,
                    var_name: None,
                    modifier,
                    class_type: Some(name),
                    kind: TokenKind::Class,
                    flags: segment::flags_of(modifier),
                },
            )
        }),
{
    reveal_strlit("<<");
    reveal_strlit(">>");
    reveal_strlit("{{");
    reveal_strlit("}}");
    reveal_strlit("<!");
    reveal_strlit("!>");
    reveal_strlit("#");
    reveal_strlit("$");
    reveal_strlit("@");
    reveal_strlit("<<>>");
    assert("<!"@ =~= seq!['<', '!'] && "!>"@ =~= seq!['!', '>']);
    assert("{{"@ =~= seq!['{', '{'] && "}}"@ =~= seq!['}', '}']);
    assert("<<"@[0] == '<' && "<<"@[1] == '<' && "{{"@[0] == '{' && "<!"@[0] == '<');
    assert("#"@[0] == '#' && "$"@[0] == '$' && "@"@[0] == '@' && "<<>>"@[0] == '<' && "<<>>"@[1]
        == '<');
    let vanishing = seq!['<', '!'] + name + seq!['!', '>'];
    text_laws::law_between_is_what_was_put_between("<!"@, name, "!>"@);
    assert(vanishing[0] == '<' && vanishing[1] == '!');
    assert(vanishing.subrange(0, 2)[0] == '<' && vanishing.subrange(0, 2)[1] == '!');
    assert forall|i: int| 0 <= i < name.len() implies text::in_class(
        CharClass::Ident,
        #[trigger] name[i],
    ) by {}
    assert(text::all_in(name, CharClass::Ident));
    let literal = seq!['{', '{'] + content + seq!['}', '}'];
    text_laws::law_between_is_what_was_put_between("{{"@, content, "}}"@);
    assert(literal[0] == '{');
    let bare = name + modifiers;
    assert(bare[0] == name[0]);
    assert(unicode::is_alnum(name[0]) || name[0] == '_');
    if bare.len() >= 2 {
        assert(bare.subrange(0, 2)[0] == bare[0]);
    }
    assert(segment::vanishing_class(bare) is None);
    assert(text::between(bare, "<<"@, ">>"@) is None);
    assert(text::between(bare, "{{"@, "}}"@) is None);
    assert(!bare.contains(':')) by {
        if bare.contains(':') {
            let i = choose|i: int| 0 <= i < bare.len() && bare[i] == ':';
            if i < name.len() {
                assert(unicode::is_alnum(name[i]) || name[i] == '_');
            } else {
                assert(modifiers[i - name.len()] == ':');
            }
        }
    }
    lemma_double_colon(bare, Seq::empty());
    lemma_base_is_taken_apart(name, modifiers);
}

/// A capture has the class constraint that it says: the class after `::`; else the items of the
/// list in square brackets, which are those to leave out where the list begins with `!`.
pub proof fn law_constraints_are_read(
    before: Seq<char>,
    list: Seq<char>,
    after: Seq<char>,
    class: Seq<char>,
)
    requires
        !before.contains('['),
        !after.contains(']'),
        list.len() > 0,
    ensures
        ({
            let modifier = before + seq!['['] + list + seq![']'] + after;
            let items = text::nonblank(text::split_on(list, '|'));
            &&& segment::constraint_of(Some(modifier), Some(class)) == Ok::<
                Option<ClassConstraintView>,
                Seq<char>,
            >(Some(ClassConstraintView::Explicit(class)))
            &&& segment::constraint_of(Some(before), None) == Ok::<
                Option<ClassConstraintView>,
                Seq<char>,
            >(None)
            &&& segment::constraint_of(None, None) == Ok::<Option<ClassConstraintView>, Seq<char>>(
                None,
            )
            &&& list[0] == '!' ==> segment::constraint_of(Some(modifier), None) == Ok::<
                Option<ClassConstraintView>,
                Seq<char>,
            >(Some(ClassConstraintView::Excluded(items)))
            &&& list[0] != '!' ==> segment::constraint_of(Some(modifier), None) == Ok::<
                Option<ClassConstraintView>,
                Seq<char>,
            >(Some(ClassConstraintView::Included(items)))
            &&& segment::constraint_of(Some(before + seq!['[', ']'] + after), None) is Err
            &&& segment::constraint_of(Some(before + seq!['['] + after), None) is Err
        }),
{
    let modifier = before + seq!['['] + list + seq![']'] + after;
    let from = before.len() as int;
    let to = from + 1 + list.len() as int;
    assert(modifier.take(from) =~= before && modifier.skip(to + 1) =~= after);
    lemma_brackets(modifier, before, after, from, to);
    assert(modifier.subrange(from + 1, to) =~= list);
    let empty = before + seq!['[', ']'] + after;
    assert(empty.take(from) =~= before && empty.skip(from + 2) =~= after);
    lemma_brackets(empty, before, after, from, from + 1);
    assert(empty.subrange(from + 1, from + 1).len() == 0);
    let open = before + seq!['['] + after;
    assert(open[from] == '[');
    open.index_of_first_ensures('[');
    open.index_of_last_ensures(']');
    let first = open.index_of_first('[')->0;
    if first < from {
        assert(before[first] == '[');
    } else if first > from {
        assert(open[from] != '[');
    }
    if open.index_of_last(']') is Some {
        let last = open.index_of_last(']')->0;
        if last > from {
            assert(after[last - from - 1] == ']');
        }
    }
}

proof fn lemma_brackets(s: Seq<char>, before: Seq<char>, after: Seq<char>, from: int, to: int)
    requires
        !before.contains('['),
        !after.contains(']'),
        from == before.len(),
        from < to,
        s.len() == to + 1 + after.len(),
        s.take(from) == before,
        s[from] == '[',
        s[to] == ']',
        s.skip(to + 1) == after,
    ensures
        s.contains('['),
        s.index_of_first('[') == Some(from),
        s.index_of_last(']') == Some(to),
{
    s.index_of_first_ensures('[');
    s.index_of_last_ensures(']');
    let first = s.index_of_first('[')->0;
    if first < from {
        assert(before[first] == s[first]);
    } else if first > from {
        assert(s[from] != '[');
    }
    let last = s.index_of_last(']')->0;
    if last > to {
        assert(after[last - to - 1] == s[last]);
    } else if last < to {
        assert(s[to] != ']');
    }
}

/// Items of a list that hold something, and no white space at their ends, stay as they are, and
/// blank ones are left out.
pub proof fn law_list_items_are_kept(items: Seq<Seq<char>>, blank: Seq<char>)
    requires
        forall|i: int|
            0 <= i < items.len() ==> text::trim(#[trigger] items[i]) == items[i] && items[i].len()
                > 0,
        text::trim(blank).len() == 0,
    ensures
        text::nonblank(items) == items,
        text::nonblank(items.push(blank)) == items,
    decreases items.len(),
{
    if items.len() > 0 {
        let before = items.drop_last();
        assert forall|i: int| 0 <= i < before.len() implies text::trim(#[trigger] before[i])
            == before[i] && before[i].len() > 0 by {
            assert(before[i] == items[i]);
        }
        law_list_items_are_kept(before, blank);
        assert(items[items.len() - 1].len() > 0);
        assert(before.push(items.last()) == items);
    }
    assert(items.push(blank).drop_last() == items);
}

/// A token is no valid segment just where it is a vanishing group with modifiers or a list, a bare
/// class with `::`, anything but a capture with a list, or a capture with a list of no items.
pub proof fn law_invalid_segments_are_told(
    info: TokenInfoView,
    constraint: Option<ClassConstraintView>,
)
    ensures
        segment::segment_error(info, constraint) is Some <==> {
            ||| info.kind == TokenKind::Vanishing && (info.modifier is Some || constraint is Some)
            ||| info.kind == TokenKind::Class && text::find_from(info.token, "::"@, 0) is Some
            ||| info.kind != TokenKind::Capturing && constraint is Some
            ||| constraint matches Some(ClassConstraintView::Included(items)) && items.len() == 0
            ||| constraint matches Some(ClassConstraintView::Excluded(items)) && items.len() == 0
        },
{
    if let Some(ClassConstraintView::Included(items)) = constraint {
        if items.len() == 0 {
            assert(items =~= Seq::<Seq<char>>::empty());
        }
    }
    if let Some(ClassConstraintView::Excluded(items)) = constraint {
        if items.len() == 0 {
            assert(items =~= Seq::<Seq<char>>::empty());
        }
    }
}

/// A sign that neither belongs to words nor opens a token of another kind is a token of its own.
pub proof fn law_signs_are_tokens(sign: char, rest: Seq<char>)
    requires
        !text::is_word(sign),
        !unicode::is_white(sign),
        sign != '<' && sign != '{' && sign != '\\',
        rest != split::BARE_PROVINCE_PATTERN@,
    ensures
        split::split_tokens(seq![sign] + rest) == seq![seq![sign]] + split::split_tokens(rest),
{
    let s = seq![sign] + rest;
    reveal_strlit("ALPHA <!PROV!> POSTALCODE");
    assert(s[0] == sign);
    assert(split::BARE_PROVINCE_PATTERN@[0] == 'A');
    assert(text::is_word('A'));
    lemma_split_is_cut(s);
    lemma_split_is_cut(rest);
    let start = split::split_start();
    let next = split::step(s, start);
    assert(next.tokens =~= seq![seq![sign]]);
    assert(split::split_from(s, start) == split::split_from(s, next));
    lemma_rest_is_cut(seq![sign], rest, seq![seq![sign]]);
}

/// Different modifiers belong to the word before them; one that is there already is a token of its
/// own.
pub proof fn law_modifiers_belong_to_words(word: Seq<char>, first: char, second: char)
    requires
        word.len() > 0,
        forall|i: int| 0 <= i < word.len() ==> is_letter_of_word(#[trigger] word[i]),
        seq!['@', '#', '%', '$', '?', '+', '='].contains(first),
        seq!['@', '#', '%', '$', '?', '+', '='].contains(second),
    ensures
        first != second ==> split::split_tokens(word + seq![first, second]) == seq![
            word + seq![first, second],
        ],
        first == second ==> split::split_tokens(word + seq![first, second]) == seq![
            word + seq![first],
            seq![second],
        ],
{
    reveal_strlit("ALPHA <!PROV!> POSTALCODE");
    let bare = split::BARE_PROVINCE_PATTERN@;
    assert(bare[5] == ' ' && bare[24] == 'E' && bare.len() == 25);
    let mods = seq!['@', '#', '%', '$', '?', '+', '='];
    let a = choose|m: int| 0 <= m < mods.len() && mods[m] == first;
    let b = choose|m: int| 0 <= m < mods.len() && mods[m] == second;
    assert(split::is_modifier(mods[a]) && split::is_modifier(mods[b]));
    let s = word + seq![first, second];
    let n = word.len() as int;
    assert(s[n] == first && s[n + 1] == second);
    assert(s != bare) by {
        if s == bare {
            assert(s[24] == 'E');
            assert(s[5] == ' ');
            assert(word[5] == ' ');
            assert(is_letter_of_word(word[5]));
        }
    }
    lemma_split_is_cut(s);
    let start = split::split_start();
    assert forall|k: int| 0 <= k < n implies is_letter_of_word(#[trigger] s[k]) by {
        assert(s[k] == word[k]);
    }
    lemma_word_grows(s, start, n);
    let at = SplitState { current: start.current + s.subrange(0, n), index: n, ..start };
    assert(at.current =~= word);
    assert(is_letter_of_word(word[n - 1]));
    lemma_no_modifier(word, first);
    lemma_no_modifier(word, second);
    let one = split::step(s, at);
    let marked = word.push(first);
    assert(one.current == marked);
    assert(split::split_from(s, at) == split::split_from(s, one));
    assert(marked.last() == first);
    assert(marked[0] == word[0]);
    assert(is_letter_of_word(word[0]));
    assert(text::is_word(marked[0]));
    assert(marked.contains(second) <==> first == second) by {
        if marked.contains(second) {
            let k = choose|k: int| 0 <= k < marked.len() && marked[k] == second;
            if k < n {
                assert(word[k] == second);
                assert(word.contains(second));
            }
        }
        if first == second {
            assert(marked[n] == second);
        }
    }
    let two = split::step(s, one);
    assert(split::split_from(s, one) == split::split_from(s, two));
    if first == second {
        assert(split::attaches(marked, second) == false);
        assert(marked =~= word + seq![first]);
        assert(split::finished(two) =~= seq![word + seq![first], seq![second]]);
    } else {
        assert(split::attaches(marked, second));
        assert(two.current =~= s);
        assert(split::finished(two) =~= seq![s]);
    }
}

proof fn lemma_no_modifier(word: Seq<char>, modifier: char)
    requires
        forall|i: int| 0 <= i < word.len() ==> is_letter_of_word(#[trigger] word[i]),
        split::is_modifier(modifier),
    ensures
        !word.contains(modifier),
{
    if word.contains(modifier) {
        let k = choose|k: int| 0 <= k < word.len() && word[k] == modifier;
        assert(is_letter_of_word(word[k]));
    }
}

/// In a literal block four braces stand for two.
pub proof fn law_doubled_braces_stand_for_themselves(a: Seq<char>, brace: char, b: Seq<char>)
    requires
        forall|i: int| 0 <= i < a.len() ==> #[trigger] a[i] != '{' && a[i] != '}',
        forall|i: int| 0 <= i < b.len() ==> #[trigger] b[i] != '{' && b[i] != '}',
        b.len() > 0,
        brace == '{' || brace == '}',
    ensures
        split::split_tokens(
            seq!['{', '{'] + a + seq![brace, brace, brace, brace] + b + seq!['}', '}'],
        ) == seq![seq!['{', '{'] + a + seq![brace, brace] + b + seq!['}', '}']],
{
    let s = seq!['{', '{'] + a + seq![brace, brace, brace, brace] + b + seq!['}', '}'];
    reveal_strlit("ALPHA <!PROV!> POSTALCODE");
    assert(s[0] == '{' && s[1] == '{');
    assert(split::BARE_PROVINCE_PATTERN@[0] == 'A');
    lemma_split_is_cut(s);
    let start = split::split_start();
    let opened = split::step(s, start);
    assert(split::split_from(s, start) == split::split_from(s, opened));
    let m = 2 + a.len() as int;
    assert forall|k: int| opened.index <= k < m implies #[trigger] s[k] != '{' && s[k] != '}' by {
        assert(s[k] == a[k - 2]);
    }
    lemma_literal_grows(s, opened, m);
    let before = SplitState {
        literal: opened.literal + s.subrange(opened.index, m),
        index: m,
        ..opened
    };
    assert(before.literal =~= a);
    assert(s[m] == brace && s[m + 1] == brace && s[m + 2] == brace && s[m + 3] == brace);
    let doubled = split::step(s, before);
    assert(split::split_from(s, before) == split::split_from(s, doubled));
    assert(doubled.literal =~= a + seq![brace, brace]);
    let to = m + 4 + b.len();
    assert forall|k: int| doubled.index <= k < to implies #[trigger] s[k] != '{' && s[k]
        != '}' by {
        assert(s[k] == b[k - m - 4]);
    }
    lemma_literal_grows(s, doubled, to);
    let full = SplitState {
        literal: doubled.literal + s.subrange(doubled.index, to),
        index: to,
        ..doubled
    };
    assert(full.literal =~= a + seq![brace, brace] + b);
    assert(s[to] == '}' && s[to + 1] == '}');
    let closed = split::step(s, full);
    assert(split::split_from(s, full) == split::split_from(s, closed));
    let token = seq!['{', '{'] + a + seq![brace, brace] + b + seq!['}', '}'];
    assert(split::literal_token(full.literal) =~= token);
    assert(split::finished(closed) =~= seq![token]);
}

/// Tokens of signs alone, and of white space, are literals, unless they open or close something;
/// others that no kind of token fits are refused, and so is an empty one.
pub proof fn law_signs_and_blanks_are_literals(token: Seq<char>)
    requires
        token.len() > 0,
        token[0] != '<' && token[0] != '{',
        !text::is_word(token[0]),
    ensures
        ({
            let plain = Ok::<TokenInfoView, Seq<char>>(
                TokenInfoView {
                    token,
                    var_name: None,
                    modifier: None,
                    class_type: None,
                    kind: TokenKind::Literal,
                    flags: segment::flags_of(None),
                },
            );
            &&& (forall|i: int|
                0 <= i < token.len() ==> !unicode::is_alnum(#[trigger] token[i])
                    && !unicode::is_white(token[i])) ==> segment::token_word(token) == plain
            &&& (exists|i: int| 0 <= i < token.len() && unicode::is_white(#[trigger] token[i]))
                ==> segment::token_word(token) == plain
            &&& token.len() > 1 && (exists|i: int|
                0 <= i < token.len() && unicode::is_alnum(#[trigger] token[i])) && (forall|i: int|
                0 <= i < token.len() ==> !unicode::is_white(#[trigger] token[i]))
                ==> segment::token_word(token) is Err
            &&& segment::token_word(Seq::empty()) is Err
        }),
{
    reveal_strlit("<<");
    reveal_strlit("{{");
    reveal_strlit("<!");
    reveal_strlit("#");
    reveal_strlit("$");
    reveal_strlit("@");
    reveal_strlit("<<>>");
    assert("<<"@[0] == '<' && "{{"@[0] == '{' && "<!"@[0] == '<' && "<<>>"@[0] == '<');
    if token.len() >= 2 {
        assert(token.subrange(0, 2)[0] == token[0]);
    }
    assert(text::between(token, "<<"@, ">>"@) is None);
    assert(text::between(token, "{{"@, "}}"@) is None);
    assert(segment::vanishing_class(token) is None);
    if token.len() > 1 {
        assert("#"@.len() == 1 && "$"@.len() == 1 && "@"@.len() == 1);
    }
}

/// What is said of a token that is no valid segment ends with the token, and what is said of one
/// that no kind fits too.
pub proof fn law_errors_name_the_token(
    info: TokenInfoView,
    constraint: Option<ClassConstraintView>,
    said: Seq<char>,
)
    requires
        segment::segment_error(info, constraint) == Some(said),
    ensures
        info.token.is_suffix_of(said),
        said.len() > info.token.len(),
{
    reveal_strlit("vanishing groups accept only a bare class name: ");
    reveal_strlit("non-capturing groups do not support ::CLASS syntax: ");
    reveal_strlit("class filters are only supported on capturing groups: ");
    reveal_strlit("class constraint cannot be empty: ");
    let n = said.len() - info.token.len();
    assert(said.subrange(n, said.len() as int) =~= info.token);
}

/// The segments of a pattern are those of its tokens, in order; a space makes none, and the first
/// token that makes none otherwise is the error.
pub proof fn law_tokens_make_segments(tokens: Seq<Seq<char>>, token: Seq<char>)
    ensures
        ({
            let before = compiled::segments_of(tokens);
            let all = compiled::segments_of(tokens.push(token));
            let word = segment::token_word(token);
            let made = segment::segment_of(word->Ok_0);
            &&& compiled::segments_of(Seq::empty()) matches Ok(none) && none.len() == 0
            &&& before is Err ==> all == before
            &&& before is Ok && token == seq![' '] ==> all == before
            &&& before is Ok && token != seq![' '] && word is Err ==> all is Err && all->Err_0
                == word->Err_0
            &&& before is Ok && token != seq![' '] && word is Ok && made is Err ==> all is Err
                && all->Err_0 == made->Err_0
            &&& before is Ok && token != seq![' '] && word is Ok && made is Ok ==> all is Ok
                && all->Ok_0 == before->Ok_0.push(made->Ok_0)
        }),
{
    reveal_strlit(" ");
    assert(" "@ =~= seq![' ']);
    assert(tokens.push(token).drop_last() =~= tokens);
}

/// The text of a pattern in which a token of some kind is opened after a word.
proof fn lemma_word_before(s: Seq<char>, word: Seq<char>)
    requires
        word.len() > 0,
        forall|i: int| 0 <= i < word.len() ==> is_letter_of_word(#[trigger] word[i]),
        word.len() < s.len(),
        s.take(word.len() as int) == word,
    ensures
        split::split_from(s, split::split_start()) == split::split_from(
            s,
            SplitState { current: word, index: word.len() as int, ..split::split_start() },
        ),
{
    let start = split::split_start();
    let n = word.len() as int;
    assert forall|k: int| 0 <= k < n implies is_letter_of_word(#[trigger] s[k]) by {
        assert(s[k] == s.take(n)[k]);
    }
    lemma_word_grows(s, start, n);
    assert(start.current + s.subrange(0, n) =~= word);
}

/// A capture ends the word before it; a literal block takes the place of the word before it.
pub proof fn law_words_end_where_groups_open(word: Seq<char>, inner: Seq<char>)
    requires
        word.len() > 0,
        forall|i: int| 0 <= i < word.len() ==> is_letter_of_word(#[trigger] word[i]),
        forall|i: int|
            0 <= i < inner.len() ==> #[trigger] inner[i] != '<' && inner[i] != '>' && inner[i]
                != '!' && inner[i] != '{' && inner[i] != '}',
    ensures
        split::split_tokens(word + seq!['<', '<'] + inner + seq!['>', '>']) == seq![
            word,
            seq!['<', '<'] + inner + seq!['>', '>'],
        ],
        split::split_tokens(word + seq!['{', '{'] + inner + seq!['}', '}']) == seq![
            seq!['{', '{'] + inner + seq!['}', '}'],
        ],
{
    reveal_strlit("ALPHA <!PROV!> POSTALCODE");
    let bare = split::BARE_PROVINCE_PATTERN@;
    assert(bare[24] == 'E' && bare.len() == 25);
    let n = word.len() as int;
    let to = n + 2 + inner.len();
    let s = word + seq!['<', '<'] + inner + seq!['>', '>'];
    let token = seq!['<', '<'] + inner + seq!['>', '>'];
    assert(s.last() == '>' && bare.last() == 'E');
    lemma_split_is_cut(s);
    assert(s.take(n) =~= word);
    lemma_word_before(s, word);
    let at = SplitState { current: word, index: n, ..split::split_start() };
    assert(s[n] == '<' && s[n + 1] == '<');
    let opened = split::step(s, at);
    assert(opened.tokens =~= seq![word]);
    assert(split::split_from(s, at) == split::split_from(s, opened));
    assert forall|k: int| opened.index <= k < to implies #[trigger] s[k] != '<' && s[k] != '>'
        && s[k] != '!' by {
        assert(s[k] == inner[k - n - 2]);
    }
    lemma_inside_grows(s, opened, to);
    let full = SplitState {
        current: opened.current + s.subrange(opened.index, to),
        index: to,
        ..opened
    };
    assert(s[to] == '>' && s[to + 1] == '>');
    let closed = split::step(s, full);
    assert(full.current + s.subrange(to, to + 2) =~= token);
    assert(split::split_from(s, full) == split::split_from(s, closed));
    assert(split::finished(closed) =~= seq![word, token]);
    lemma_block_after_word(word, inner);
}

proof fn lemma_block_after_word(word: Seq<char>, inner: Seq<char>)
    requires
        word.len() > 0,
        forall|i: int| 0 <= i < word.len() ==> is_letter_of_word(#[trigger] word[i]),
        forall|i: int| 0 <= i < inner.len() ==> #[trigger] inner[i] != '{' && inner[i] != '}',
    ensures
        split::split_tokens(word + seq!['{', '{'] + inner + seq!['}', '}']) == seq![
            seq!['{', '{'] + inner + seq!['}', '}'],
        ],
{
    reveal_strlit("ALPHA <!PROV!> POSTALCODE");
    let bare = split::BARE_PROVINCE_PATTERN@;
    assert(bare[24] == 'E' && bare.len() == 25);
    let n = word.len() as int;
    let to = n + 2 + inner.len();
    let s = word + seq!['{', '{'] + inner + seq!['}', '}'];
    let token = seq!['{', '{'] + inner + seq!['}', '}'];
    assert(s.last() == '}' && bare.last() == 'E');
    lemma_split_is_cut(s);
    assert(s.take(n) =~= word);
    lemma_word_before(s, word);
    let at = SplitState { current: word, index: n, ..split::split_start() };
    assert(s[n] == '{' && s[n + 1] == '{');
    let opened = split::step(s, at);
    assert(split::split_from(s, at) == split::split_from(s, opened));
    assert forall|k: int| opened.index <= k < to implies #[trigger] s[k] != '{' && s[k] != '}' by {
        assert(s[k] == inner[k - n - 2]);
    }
    lemma_literal_grows(s, opened, to);
    let full = SplitState {
        literal: opened.literal + s.subrange(opened.index, to),
        index: to,
        ..opened
    };
    assert(full.literal =~= inner);
    assert(s[to] == '}' && s[to + 1] == '}');
    let closed = split::step(s, full);
    assert(split::split_from(s, full) == split::split_from(s, closed));
    assert(split::finished(closed) =~= seq![token]);
}

/// `<<` inside a capture ends it and opens another; a capture that is never closed is a token as it
/// stands, and a literal block that is never closed is closed at the end.
pub proof fn law_unclosed_groups_end(a: Seq<char>, b: Seq<char>)
    requires
        forall|i: int|
            0 <= i < a.len() ==> #[trigger] a[i] != '<' && a[i] != '>' && a[i] != '!' && a[i] != '{'
                && a[i] != '}',
        forall|i: int|
            0 <= i < b.len() ==> #[trigger] b[i] != '<' && b[i] != '>' && b[i] != '!',
    ensures
        split::split_tokens(seq!['<', '<'] + a) == seq![seq!['<', '<'] + a],
        split::split_tokens(seq!['{', '{'] + a) == seq![seq!['{', '{'] + a + seq!['}', '}']],
        split::split_tokens(seq!['<', '<'] + a + seq!['<', '<'] + b) == seq![
            seq!['<', '<'] + a,
            seq!['<', '<'] + b,
        ],
{
    reveal_strlit("ALPHA <!PROV!> POSTALCODE");
    let bare = split::BARE_PROVINCE_PATTERN@;
    assert(bare[0] == 'A');
    let start = split::split_start();
    let n = 2 + a.len() as int;
    // A literal block.
    let l = seq!['{', '{'] + a;
    assert(l[0] == '{' && l[1] == '{');
    lemma_split_is_cut(l);
    let block = split::step(l, start);
    assert(split::split_from(l, start) == split::split_from(l, block));
    assert forall|k: int| block.index <= k < n implies #[trigger] l[k] != '{' && l[k] != '}' by {
        assert(l[k] == a[k - 2]);
    }
    lemma_literal_grows(l, block, n);
    let held = SplitState { literal: block.literal + l.subrange(block.index, n), index: n, ..block };
    assert(held.literal =~= a);
    assert(split::finished(held) =~= seq![seq!['{', '{'] + a + seq!['}', '}']]);
    // One capture.
    let one = seq!['<', '<'] + a;
    assert(one.take(n) =~= one);
    lemma_capture_grows(one, a);
    lemma_split_is_cut(one);
    let at_end = SplitState { current: one, index: n, mode: SplitMode::Capture, ..start };
    assert(split::finished(at_end) =~= seq![one]);
    // Two captures.
    let s = one + seq!['<', '<'] + b;
    assert(s[0] == '<');
    assert(s.take(n) =~= one);
    lemma_capture_grows(s, a);
    lemma_split_is_cut(s);
    assert(s[n] == '<' && s[n + 1] == '<');
    let again = split::step(s, at_end);
    assert(again.tokens =~= seq![one]);
    assert(split::split_from(s, at_end) == split::split_from(s, again));
    let m = n + 2 + b.len();
    assert forall|k: int| again.index <= k < m implies #[trigger] s[k] != '<' && s[k] != '>'
        && s[k] != '!' by {
        assert(s[k] == b[k - n - 2]);
    }
    lemma_inside_grows(s, again, m);
    let last = SplitState { current: again.current + s.subrange(again.index, m), index: m, ..again };
    assert(last.current =~= seq!['<', '<'] + b);
    assert(split::finished(last) =~= seq![one, seq!['<', '<'] + b]);
}

proof fn lemma_capture_grows(s: Seq<char>, a: Seq<char>)
    requires
        forall|i: int|
            0 <= i < a.len() ==> #[trigger] a[i] != '<' && a[i] != '>' && a[i] != '!',
        s.len() >= 2 + a.len(),
        s.take(2 + a.len() as int) == seq!['<', '<'] + a,
    ensures
        s[0] == '<',
        split::split_from(s, split::split_start()) == split::split_from(
            s,
            SplitState {
                current: seq!['<', '<'] + a,
                index: 2 + a.len() as int,
                mode: SplitMode::Capture,
                ..split::split_start()
            },
        ),
{
    let start = split::split_start();
    let n = 2 + a.len() as int;
    let front = s.take(n);
    assert(front[0] == '<' && front[1] == '<');
    assert(s[0] == '<' && s[1] == '<');
    let opened = split::step(s, start);
    assert(opened.tokens =~= Seq::empty());
    assert(split::split_from(s, start) == split::split_from(s, opened));
    assert forall|k: int| opened.index <= k < n implies #[trigger] s[k] != '<' && s[k] != '>'
        && s[k] != '!' by {
        assert(s[k] == front[k]);
        assert(front[k] == a[k - 2]);
    }
    lemma_inside_grows(s, opened, n);
    assert(opened.current + s.subrange(opened.index, n) =~= front);
}

/// A token that is no capture has no class constraint of its own: it is a segment of its class where
/// it has no list, and none where it has one.
pub proof fn law_only_captures_are_constrained(info: TokenInfoView)
    requires
        info.kind != TokenKind::Capturing,
    ensures
        info.modifier is None && text::find_from(info.token, "::"@, 0) is None
            ==> segment::segment_of(info) is Ok && segment::segment_of(info)->Ok_0
            == (TelSegmentView {
            token_info: info,
            quantity: segment::quantity_of(info.flags),
            type_modifiers: segment::type_modifiers_of(None),
            class_constraint: None,
        }),
        info.modifier matches Some(m) ==> m.contains('[') ==> segment::segment_of(info) is Err,
{
}

/// What is said of a token that is no valid segment is the first of these that holds: a vanishing
/// group is more than a class name, a bare class has `::`, something else than a capture has a
/// list, a list has no items.
pub proof fn law_errors_say_what_is_wrong(
    info: TokenInfoView,
    constraint: Option<ClassConstraintView>,
)
    ensures
        ({
            let said = segment::segment_error(info, constraint);
            let vanishes = info.kind == TokenKind::Vanishing && (info.modifier is Some
                || constraint is Some);
            let names = info.kind == TokenKind::Class && text::find_from(info.token, "::"@, 0)
                is Some;
            let listed = info.kind != TokenKind::Capturing && constraint is Some;
            &&& vanishes ==> said == Some(
                "vanishing groups accept only a bare class name: "@ + info.token,
            )
            &&& names ==> said == Some(
                "non-capturing groups do not support ::CLASS syntax: "@ + info.token,
            )
            &&& listed && !vanishes && !names ==> said == Some(
                "class filters are only supported on capturing groups: "@ + info.token,
            )
            &&& info.kind == TokenKind::Capturing && said is Some ==> said == Some(
                "class constraint cannot be empty: "@ + info.token,
            )
        }),
{
}

} // verus!
