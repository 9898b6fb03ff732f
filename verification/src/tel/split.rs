//! Cutting a TEL pattern into its tokens.

use crate::text;
use crate::text::CharClass;
use crate::unicode;
use vstd::prelude::*;

verus! {

/// What the splitter is inside of.
#[derive(Clone, Copy, PartialEq, Eq, Structural)]
pub enum SplitMode {
    /// Between tokens, or inside a bare word.
    Outside,
    /// Inside `<<` .. `>>`.
    Capture,
    /// Inside `<!` .. `!>`.
    Vanish,
    /// Inside `{{` .. `}}`.
    Literal,
}

/// Where a split stands: the tokens that are complete, the token under way, the content of an
/// open literal block, and the position of the next character.
#[verifier::ext_equal]
pub struct SplitState {
    pub tokens: Seq<Seq<char>>,
    pub current: Seq<char>,
    pub literal: Seq<char>,
    pub index: int,
    pub mode: SplitMode,
}

/// The characters that modify a token.
pub open spec fn is_modifier(c: char) -> bool {
    c == '@' || c == '#' || c == '%' || c == '$' || c == '?' || c == '+' || c == '='
}

/// The brackets that a backslash makes literal.
pub open spec fn is_bracket(c: char) -> bool {
    c == '(' || c == ')' || c == '[' || c == ']' || c == '{' || c == '}'
}

/// Whether `a` and `b` stand at position `i` of `s`.
pub open spec fn pair_at(s: Seq<char>, i: int, a: char, b: char) -> bool {
    0 <= i && i + 1 < s.len() && s[i] == a && s[i + 1] == b
}

/// Whether four copies of `c` stand at position `i` of `s`.
pub open spec fn four_at(s: Seq<char>, i: int, c: char) -> bool {
    pair_at(s, i, c, c) && pair_at(s, i + 2, c, c)
}

/// `tokens` with the token under way added, unless it is empty.
pub open spec fn flushed(tokens: Seq<Seq<char>>, current: Seq<char>) -> Seq<Seq<char>> {
    if current.len() == 0 {
        tokens
    } else {
        tokens.push(current)
    }
}

/// The literal block with the given content, as a token.
pub open spec fn literal_token(content: Seq<char>) -> Seq<char> {
    seq!['{', '{'] + content + seq!['}', '}']
}

/// Whether the modifier `c` belongs to the word under way: it follows a word character, or
/// another modifier of a word, and is not there yet.
pub open spec fn attaches(current: Seq<char>, c: char) -> bool {
    &&& current.len() > 0
    &&& !current.contains(c)
    &&& {
        ||| text::is_word(current.last())
        ||| is_modifier(current.last()) && exists|k: int|
            0 <= k < current.len() && text::is_word(#[trigger] current[k])
    }
}

/// One step inside a literal block: doubled braces stand for themselves, `}}` closes the block.
pub open spec fn literal_step(s: Seq<char>, st: SplitState) -> SplitState {
    if four_at(s, st.index, '}') {
        SplitState { literal: st.literal + seq!['}', '}'], index: st.index + 4, ..st }
    } else if four_at(s, st.index, '{') {
        SplitState { literal: st.literal + seq!['{', '{'], index: st.index + 4, ..st }
    } else if pair_at(s, st.index, '}', '}') {
        SplitState {
            tokens: st.tokens.push(literal_token(st.literal)),
            literal: Seq::empty(),
            index: st.index + 2,
            mode: SplitMode::Outside,
            ..st
        }
    } else {
        SplitState { literal: st.literal.push(s[st.index]), index: st.index + 1, ..st }
    }
}

/// Whether the closing marker of the token under way stands at the current position.
pub open spec fn closes(s: Seq<char>, st: SplitState) -> bool {
    (st.mode == SplitMode::Capture && pair_at(s, st.index, '>', '>')) || (st.mode
        == SplitMode::Vanish && pair_at(s, st.index, '!', '>'))
}

/// The state after the token under way was completed and a new one begun with two characters.
pub open spec fn opened(st: SplitState, second: char, mode: SplitMode) -> SplitState {
    SplitState {
        tokens: flushed(st.tokens, st.current),
        current: seq!['<', second],
        index: st.index + 2,
        mode,
        ..st
    }
}

/// The state after the token under way was completed and `token`, `width` characters of the
/// pattern, was added as a token of its own.
pub open spec fn lone(st: SplitState, token: Seq<char>, width: int) -> SplitState {
    SplitState {
        tokens: flushed(st.tokens, st.current).push(token),
        current: Seq::empty(),
        index: st.index + width,
        ..st
    }
}

/// One step of the splitter at a position inside the pattern.
pub open spec fn step(s: Seq<char>, st: SplitState) -> SplitState {
    let c = s[st.index];
    if st.mode == SplitMode::Literal {
        literal_step(s, st)
    } else if st.mode == SplitMode::Outside && c == '\\' && st.index + 1 < s.len() && is_bracket(
        s[st.index + 1],
    ) {
        lone(st, seq![s[st.index + 1]], 2)
    } else if st.mode == SplitMode::Outside && pair_at(s, st.index, '{', '{') {
        SplitState {
            current: Seq::empty(),
            literal: Seq::empty(),
            index: st.index + 2,
            mode: SplitMode::Literal,
            ..st
        }
    } else if pair_at(s, st.index, '<', '<') {
        opened(st, '<', SplitMode::Capture)
    } else if st.mode == SplitMode::Outside && pair_at(s, st.index, '<', '!') {
        opened(st, '!', SplitMode::Vanish)
    } else if closes(s, st) {
        SplitState {
            tokens: st.tokens.push(st.current + s.subrange(st.index, st.index + 2)),
            current: Seq::empty(),
            index: st.index + 2,
            mode: SplitMode::Outside,
            ..st
        }
    } else if st.mode != SplitMode::Outside {
        SplitState { current: st.current.push(c), index: st.index + 1, ..st }
    } else if unicode::is_white(c) {
        let n = text::run_len(s.skip(st.index), CharClass::White) as int;
        lone(st, s.subrange(st.index, st.index + n), n)
    } else if text::is_word(c) || (is_modifier(c) && attaches(st.current, c)) {
        SplitState { current: st.current.push(c), index: st.index + 1, ..st }
    } else {
        lone(st, seq![c], 1)
    }
}

/// The tokens when the pattern has ended: an open literal block is closed, a token under way is
/// completed.
pub open spec fn finished(st: SplitState) -> Seq<Seq<char>> {
    flushed(
        if st.mode == SplitMode::Literal {
            st.tokens.push(literal_token(st.literal))
        } else {
            st.tokens
        },
        st.current,
    )
}

/// The tokens of the whole pattern `s`, seen from the state `st`.
pub open spec fn split_from(s: Seq<char>, st: SplitState) -> Seq<Seq<char>>
    decreases
        if st.index < s.len() {
            s.len() - st.index
        } else {
            0
        },
{
    let next = step(s, st);
    if st.index >= s.len() || next.index <= st.index {
        finished(st)
    } else {
        split_from(s, next)
    }
}

/// The state before the first character.
pub open spec fn split_start() -> SplitState {
    SplitState {
        tokens: Seq::empty(),
        current: Seq::empty(),
        literal: Seq::empty(),
        index: 0,
        mode: SplitMode::Outside,
    }
}

/// A pattern whose blanks separate nothing: its three tokens stand without them.
pub const BARE_PROVINCE_PATTERN: &'static str = "ALPHA <!PROV!> POSTALCODE";

/// The tokens of a TEL pattern.
pub open spec fn split_tokens(s: Seq<char>) -> Seq<Seq<char>> {
    if s.len() == 0 {
        Seq::empty()
    } else if text::all_in(s, CharClass::White) {
        seq![s]
    } else if s == BARE_PROVINCE_PATTERN@ {
        seq!["ALPHA"@, "<!PROV!>"@, "POSTALCODE"@]
    } else {
        split_from(s, split_start())
    }
}

/// A step moves forward and stays inside the pattern.
pub proof fn lemma_step_progress(s: Seq<char>, st: SplitState)
    requires
        0 <= st.index < s.len(),
    ensures
        st.index < step(s, st).index <= s.len(),
{
    let t = s.skip(st.index);
    assert(t[0] == s[st.index]);
    text::lemma_run(t, CharClass::White);
}

/// No token that the splitter has completed is empty.
pub open spec fn no_empty(tokens: Seq<Seq<char>>) -> bool {
    forall|i: int| 0 <= i < tokens.len() ==> (#[trigger] tokens[i]).len() > 0
}

proof fn lemma_split_from_no_empty(s: Seq<char>, st: SplitState)
    requires
        0 <= st.index <= s.len(),
        no_empty(st.tokens),
        st.mode == SplitMode::Capture || st.mode == SplitMode::Vanish ==> st.current.len() > 0,
    ensures
        no_empty(split_from(s, st)),
    decreases s.len() - st.index,
{
    if st.index < s.len() {
        lemma_step_progress(s, st);
        let t = s.skip(st.index);
        assert(t[0] == s[st.index]);
        text::lemma_run(t, CharClass::White);
        lemma_split_from_no_empty(s, step(s, st));
    }
}

/// No token of a pattern is empty.
pub proof fn law_tokens_are_not_empty(s: Seq<char>)
    ensures
        no_empty(split_tokens(s)),
{
    lemma_split_from_no_empty(s, split_start());
    reveal_strlit("ALPHA");
    reveal_strlit("<!PROV!>");
    reveal_strlit("POSTALCODE");
}

/// Whether a token that begins as a word does holds nothing but characters of words and modifiers.
pub open spec fn is_word_token(token: Seq<char>) -> bool {
    token.len() > 0 && text::is_word(token[0]) ==> !token.contains('(')
}

/// Whether a text is made of characters of words and modifiers.
spec fn is_wordy(s: Seq<char>) -> bool {
    forall|i: int| 0 <= i < s.len() ==> text::is_word(#[trigger] s[i]) || is_modifier(s[i])
}

proof fn lemma_wordy_has_no_bracket(s: Seq<char>)
    requires
        is_wordy(s),
    ensures
        !s.contains('('),
{
    if s.contains('(') {
        let i = choose|i: int| 0 <= i < s.len() && s[i] == '(';
        assert(text::is_word(s[i]) || is_modifier(s[i]));
    }
}

proof fn lemma_blank_has_no_bracket(s: Seq<char>)
    requires
        text::all_in(s, CharClass::White),
    ensures
        !s.contains('('),
{
    if s.contains('(') {
        let i = choose|i: int| 0 <= i < s.len() && s[i] == '(';
        assert(text::in_class(CharClass::White, s[i]));
    }
}

proof fn lemma_split_from_words(s: Seq<char>, st: SplitState)
    requires
        0 <= st.index <= s.len(),
        forall|i: int| 0 <= i < st.tokens.len() ==> is_word_token(#[trigger] st.tokens[i]),
        st.mode == SplitMode::Outside || st.mode == SplitMode::Literal ==> is_wordy(st.current),
        st.mode == SplitMode::Capture || st.mode == SplitMode::Vanish ==> st.current.len() > 0
            && st.current[0] == '<',
    ensures
        forall|i: int|
            0 <= i < split_from(s, st).len() ==> is_word_token(#[trigger] split_from(s, st)[i]),
    decreases s.len() - st.index,
{
    if st.mode == SplitMode::Outside || st.mode == SplitMode::Literal {
        lemma_wordy_has_no_bracket(st.current);
    }
    if st.index < s.len() {
        lemma_step_progress(s, st);
        let t = s.skip(st.index);
        assert(t[0] == s[st.index]);
        text::lemma_run(t, CharClass::White);
        let next = step(s, st);
        let n = text::run_len(t, CharClass::White) as int;
        let blanks = s.subrange(st.index, st.index + n);
        assert forall|i: int| 0 <= i < blanks.len() implies text::in_class(
            CharClass::White,
            #[trigger] blanks[i],
        ) by {
            assert(blanks[i] == t[i]);
        }
        lemma_blank_has_no_bracket(blanks);
        assert forall|i: int| 0 <= i < next.tokens.len() implies is_word_token(
            #[trigger] next.tokens[i],
        ) by {
            if i < st.tokens.len() {
                assert(next.tokens[i] == st.tokens[i]);
            }
        }
        lemma_split_from_words(s, next);
        assert(split_from(s, st) == split_from(s, next));
    } else {
        let all = finished(st);
        assert(split_from(s, st) == all);
        assert forall|i: int| 0 <= i < all.len() implies is_word_token(#[trigger] all[i]) by {
            if i < st.tokens.len() {
                assert(all[i] == st.tokens[i]);
            }
        }
    }
}

/// Every token of a pattern that begins as a word does is a word with modifiers.
pub proof fn lemma_word_tokens(s: Seq<char>)
    ensures
        forall|i: int|
            0 <= i < split_tokens(s).len() ==> is_word_token(#[trigger] split_tokens(s)[i]),
{
    lemma_split_from_words(s, split_start());
    reveal_strlit("ALPHA");
    reveal_strlit("<!PROV!>");
    reveal_strlit("POSTALCODE");
    if text::all_in(s, CharClass::White) {
        lemma_blank_has_no_bracket(s);
    }
}

/// Whether a step writes every character that it reads: it unescapes nothing, neither a bracket nor
/// doubled braces, and opens no literal block right after a word, which is then lost.
pub open spec fn step_keeps(s: Seq<char>, st: SplitState) -> bool {
    if st.mode == SplitMode::Literal {
        !four_at(s, st.index, '}') && !four_at(s, st.index, '{')
    } else if st.mode == SplitMode::Outside && s[st.index] == '\\' && st.index + 1 < s.len()
        && is_bracket(s[st.index + 1]) {
        false
    } else if st.mode == SplitMode::Outside && pair_at(s, st.index, '{', '{') {
        st.current.len() == 0
    } else {
        true
    }
}

/// Whether every step from the state `st` on writes what it reads, and no literal block is left
/// open at the end.
pub open spec fn keeps_all(s: Seq<char>, st: SplitState) -> bool
    decreases
        if st.index < s.len() {
            s.len() - st.index
        } else {
            0
        },
{
    let next = step(s, st);
    if st.index >= s.len() || next.index <= st.index {
        st.mode != SplitMode::Literal
    } else {
        step_keeps(s, st) && keeps_all(s, next)
    }
}

/// What a state has read of its token under way.
spec fn pending(st: SplitState) -> Seq<char> {
    if st.mode == SplitMode::Literal {
        seq!['{', '{'] + st.literal
    } else {
        st.current
    }
}

proof fn lemma_split_from_lossless(s: Seq<char>, st: SplitState)
    requires
        keeps_all(s, st),
        0 <= st.index <= s.len(),
        st.mode == SplitMode::Literal ==> st.current.len() == 0,
        text::concat(st.tokens) + pending(st) == s.take(st.index),
    ensures
        text::concat(split_from(s, st)) == s,
    decreases s.len() - st.index,
{
    text::lemma_concat_push(st.tokens, st.current);
    if st.index < s.len() {
        lemma_step_progress(s, st);
        let next = step(s, st);
        lemma_step_lossless(s, st);
        lemma_split_from_lossless(s, next);
    } else {
        assert(text::concat(flushed(st.tokens, st.current)) == s.take(st.index));
        assert(s.take(st.index) == s);
    }
}

proof fn lemma_step_lossless(s: Seq<char>, st: SplitState)
    requires
        step_keeps(s, st),
        0 <= st.index < s.len(),
        st.mode == SplitMode::Literal ==> st.current.len() == 0,
        text::concat(st.tokens) + pending(st) == s.take(st.index),
    ensures
        text::concat(step(s, st).tokens) + pending(step(s, st)) == s.take(step(s, st).index),
        step(s, st).mode == SplitMode::Literal ==> step(s, st).current.len() == 0,
{
    lemma_step_progress(s, st);
    let next = step(s, st);
    let c = s[st.index];
    let piece = s.subrange(st.index, next.index);
    assert(s.take(next.index) == s.take(st.index) + piece);
    if st.index + 1 == next.index {
        assert(piece == seq![c]);
    }
    if st.index + 2 == next.index {
        assert(piece == seq![c, s[st.index + 1]]);
    }
    if st.mode == SplitMode::Literal {
        text::lemma_concat_push(st.tokens, literal_token(st.literal));
        if pair_at(s, st.index, '}', '}') {
            assert(literal_token(st.literal) == pending(st) + piece);
        } else {
            assert(pending(next) == pending(st) + piece);
        }
    } else {
        text::lemma_concat_push(st.tokens, st.current);
        assert(text::concat(flushed(st.tokens, st.current)) == s.take(st.index));
        let done = flushed(st.tokens, st.current);
        text::lemma_concat_push(done, piece);
        text::lemma_concat_push(st.tokens, st.current + piece);
        if st.mode == SplitMode::Outside && pair_at(s, st.index, '{', '{') {
            assert(pending(next) == piece);
            assert(pending(st) == Seq::<char>::empty());
        }
    }
}

/// The tokens of a pattern are the pattern, cut: put together again they give every character of
/// it, as long as nothing is escaped and every literal block is closed and stands apart from the
/// word before it. The one pattern that loses its blanks is left out.
pub proof fn law_split_is_lossless(s: Seq<char>)
    requires
        keeps_all(s, split_start()),
        s != BARE_PROVINCE_PATTERN@,
    ensures
        text::concat(split_tokens(s)) == s,
{
    if s.len() == 0 {
        assert(text::concat(split_tokens(s)) == s);
    } else if text::all_in(s, CharClass::White) {
        text::lemma_concat_push(Seq::empty(), s);
        assert(seq![s] == Seq::<Seq<char>>::empty().push(s));
        assert(text::concat(seq![s]) == s);
    } else {
        assert(text::concat(split_start().tokens) + pending(split_start()) == s.take(0));
        lemma_split_from_lossless(s, split_start());
    }
}

/// Whether a pattern holds neither a literal block nor an escaped bracket.
pub open spec fn is_plain(s: Seq<char>) -> bool {
    forall|i: int|
        0 <= i < s.len() - 1 ==> !(s[i] == '{' && s[i + 1] == '{') && !(#[trigger] s[i] == '\\'
            && is_bracket(s[i + 1]))
}

proof fn lemma_plain_keeps_all(s: Seq<char>, st: SplitState)
    requires
        is_plain(s),
        0 <= st.index <= s.len(),
        st.mode != SplitMode::Literal,
    ensures
        keeps_all(s, st),
    decreases s.len() - st.index,
{
    if st.index < s.len() {
        lemma_step_progress(s, st);
        assert(s[st.index] == s[st.index]);
        lemma_plain_keeps_all(s, step(s, st));
    }
}

/// A pattern without literal blocks and escaped brackets is cut without loss.
pub proof fn law_plain_pattern_is_kept(s: Seq<char>)
    requires
        is_plain(s),
        s != BARE_PROVINCE_PATTERN@,
    ensures
        text::concat(split_tokens(s)) == s,
{
    lemma_plain_keeps_all(s, split_start());
    law_split_is_lossless(s);
}

/// Whether `c` is one of the characters that modify a token.
fn is_modifier_char(c: char) -> (r: bool)
    ensures
        r == is_modifier(c),
{
    c == '@' || c == '#' || c == '%' || c == '$' || c == '?' || c == '+' || c == '='
}

/// Whether `character` can be part of a word: a letter, a digit, `_`, `-` or `'`.
pub fn is_word_char(character: char) -> (r: bool)
    ensures
        r == text::is_word(character),
{
    character.is_alphanumeric() || character == '_' || character == '-' || character == '\''
}

fn matches_two(chars: &Vec<char>, index: usize, first: char, second: char) -> (r: bool)
    requires
        index < chars.len(),
    ensures
        r == pair_at(chars@, index as int, first, second),
{
    chars.len() - index > 1 && chars[index] == first && chars[index + 1] == second
}

fn matches_four(chars: &Vec<char>, index: usize, c: char) -> (r: bool)
    requires
        index < chars.len(),
    ensures
        r == four_at(chars@, index as int, c),
{
    chars.len() - index > 3 && chars[index] == c && chars[index + 1] == c && chars[index + 2] == c
        && chars[index + 3] == c
}

/// A split under way.
struct SplitParseContext {
    chars: Vec<char>,
    tokens: Vec<String>,
    current: Vec<char>,
    literal_content: Vec<char>,
    index: usize,
    mode: SplitMode,
}

impl SplitParseContext {
    /// The state that the fields stand for.
    spec fn state(self) -> SplitState {
        SplitState {
            tokens: self.tokens.deep_view(),
            current: self.current@,
            literal: self.literal_content@,
            index: self.index as int,
            mode: self.mode,
        }
    }

    fn new(parse_token_string: &str) -> (r: Self)
        ensures
            r.chars@ == parse_token_string@,
            r.state() == split_start(),
    {
        let r = SplitParseContext {
            chars: text::chars_of(parse_token_string),
            tokens: Vec::new(),
            current: Vec::new(),
            literal_content: Vec::new(),
            index: 0,
            mode: SplitMode::Outside,
        };
        assert(r.tokens.deep_view() == Seq::<Seq<char>>::empty());
        r
    }

    fn has_remaining(&self) -> (r: bool)
        ensures
            r == (self.index < self.chars.len()),
    {
        self.index < self.chars.len()
    }

    /// Completes the token under way, if there is one.
    fn flush(&mut self)
        ensures
            final(self).chars == old(self).chars,
            final(self).state() == (SplitState {
                tokens: flushed(old(self).state().tokens, old(self).state().current),
                current: Seq::empty(),
                ..old(self).state()
            }),
    {
        if self.current.len() > 0 {
            let token = text::text_of(&self.current, 0, self.current.len());
            proof {
                assert(self.current@.subrange(0, self.current@.len() as int) == self.current@);
            }
            self.tokens.push(token);
            self.current.clear();
            assert(self.tokens.deep_view() == old(self).tokens.deep_view().push(token@));
        }
        assert(self.current@ == Seq::<char>::empty());
    }

    /// Completes the token under way and adds the next `width` characters from `from` on as a
    /// token of their own.
    fn push_lone(&mut self, from: usize, width: usize)
        requires
            old(self).index <= from,
            from + width <= old(self).chars.len(),
        ensures
            final(self).chars == old(self).chars,
            final(self).state() == lone(
                old(self).state(),
                old(self).chars@.subrange(from as int, from + width),
                from + width - old(self).index,
            ),
    {
        self.flush();
        let token = text::text_of(&self.chars, from, from + width);
        let ghost before = self.tokens.deep_view();
        self.tokens.push(token);
        assert(self.tokens.deep_view() == before.push(token@));
        self.index = from + width;
    }

    /// Inside a literal block.
    fn consume_literal_block(&mut self)
        requires
            old(self).index < old(self).chars.len(),
            old(self).mode == SplitMode::Literal,
        ensures
            final(self).chars == old(self).chars,
            final(self).index <= final(self).chars.len(),
            final(self).state() == literal_step(old(self).chars@, old(self).state()),
            final(self).index > old(self).index,
    {
        if matches_four(&self.chars, self.index, '}') {
            self.literal_content.push('}');
            self.literal_content.push('}');
            self.index = self.index + 4;
            assert(self.literal_content@ == old(self).literal_content@ + seq!['}', '}']);
        } else if matches_four(&self.chars, self.index, '{') {
            self.literal_content.push('{');
            self.literal_content.push('{');
            self.index = self.index + 4;
            assert(self.literal_content@ == old(self).literal_content@ + seq!['{', '{']);
        } else if matches_two(&self.chars, self.index, '}', '}') {
            self.close_literal_block();
            self.index = self.index + 2;
        } else {
            self.literal_content.push(self.chars[self.index]);
            self.index = self.index + 1;
        }
    }

    /// Turns the content of the open literal block into a token.
    fn close_literal_block(&mut self)
        ensures
            final(self).chars == old(self).chars,
            final(self).state() == (SplitState {
                tokens: old(self).state().tokens.push(literal_token(old(self).state().literal)),
                literal: Seq::empty(),
                mode: SplitMode::Outside,
                ..old(self).state()
            }),
    {
        let mut token = String::new();
        token.push('{');
        token.push('{');
        let content = text::text_of(&self.literal_content, 0, self.literal_content.len());
        token.append(content.as_str());
        token.push('}');
        token.push('}');
        proof {
            assert(self.literal_content@.subrange(0, self.literal_content@.len() as int)
                == self.literal_content@);
            assert(token@ == literal_token(self.literal_content@));
        }
        self.tokens.push(token);
        self.literal_content.clear();
        self.mode = SplitMode::Outside;
        assert(self.tokens.deep_view() == old(self).tokens.deep_view().push(token@));
        assert(self.literal_content@ == Seq::<char>::empty());
    }

    /// Begins a token with two characters.
    fn open_token(&mut self, second: char, mode: SplitMode)
        requires
            old(self).index + 2 <= old(self).chars.len(),
        ensures
            final(self).chars == old(self).chars,
            final(self).state() == opened(old(self).state(), second, mode),
    {
        self.flush();
        self.current.push('<');
        self.current.push(second);
        self.mode = mode;
        self.index = self.index + 2;
        assert(self.current@ == seq!['<', second]);
    }

    /// Whether the closing marker of the token under way stands here.
    fn at_close(&self) -> (r: bool)
        requires
            self.index < self.chars.len(),
        ensures
            r == closes(self.chars@, self.state()),
    {
        match self.mode {
            SplitMode::Capture => matches_two(&self.chars, self.index, '>', '>'),
            SplitMode::Vanish => matches_two(&self.chars, self.index, '!', '>'),
            _ => false,
        }
    }

    /// Completes the token under way with its closing marker.
    fn close_token(&mut self)
        requires
            old(self).index + 2 <= old(self).chars.len(),
        ensures
            final(self).chars == old(self).chars,
            final(self).state() == (SplitState {
                tokens: old(self).state().tokens.push(
                    old(self).current@ + old(self).chars@.subrange(
                        old(self).index as int,
                        old(self).index + 2,
                    ),
                ),
                current: Seq::empty(),
                index: old(self).index + 2,
                mode: SplitMode::Outside,
                ..old(self).state()
            }),
    {
        self.current.push(self.chars[self.index]);
        self.current.push(self.chars[self.index + 1]);
        assert(self.current@ == old(self).current@ + old(self).chars@.subrange(
            old(self).index as int,
            old(self).index + 2,
        ));
        self.flush();
        self.mode = SplitMode::Outside;
        self.index = self.index + 2;
    }

    /// Whether the modifier `c` belongs to the word under way.
    fn can_attach(&self, c: char) -> (r: bool)
        ensures
            r == attaches(self.current@, c),
    {
        let n = self.current.len();
        if n == 0 {
            return false;
        }
        let last = self.current[n - 1];
        let mut has_word = false;
        let mut present = false;
        let mut i: usize = 0;
        while i < n
            invariant
                i <= n == self.current.len(),
                present == exists|k: int| 0 <= k < i && self.current@[k] == c,
                has_word == exists|k: int|
                    0 <= k < i && text::is_word(#[trigger] self.current@[k]),
            decreases n - i,
        {
            if self.current[i] == c {
                present = true;
                assert(self.current@[i as int] == c);
            }
            if is_word_char(self.current[i]) {
                has_word = true;
                assert(text::is_word(self.current@[i as int]));
            }
            i = i + 1;
        }
        assert(present == self.current@.contains(c));
        !present && (is_word_char(last) || (has_word && is_modifier_char(last)))
    }

    /// One step.
    fn advance(&mut self)
        requires
            old(self).index < old(self).chars.len(),
        ensures
            final(self).chars == old(self).chars,
            final(self).state() == step(old(self).chars@, old(self).state()),
            old(self).index < final(self).index <= final(self).chars.len(),
    {
        let character = self.chars[self.index];
        let outside = self.mode == SplitMode::Outside;
        if self.mode == SplitMode::Literal {
            self.consume_literal_block();
        } else if outside && character == '\\' && self.chars.len() - self.index > 1 && is_bracket_char(
            self.chars[self.index + 1],
        ) {
            let from = self.index + 1;
            assert(self.chars@.subrange(from as int, from + 1) == seq![self.chars@[from as int]]);
            self.push_lone(from, 1);
        } else if outside && matches_two(&self.chars, self.index, '{', '{') {
            self.current.clear();
            self.literal_content.clear();
            self.mode = SplitMode::Literal;
            self.index = self.index + 2;
            assert(self.current@ == Seq::<char>::empty());
            assert(self.literal_content@ == Seq::<char>::empty());
        } else if matches_two(&self.chars, self.index, '<', '<') {
            self.open_token('<', SplitMode::Capture);
        } else if outside && matches_two(&self.chars, self.index, '<', '!') {
            self.open_token('!', SplitMode::Vanish);
        } else if self.at_close() {
            self.close_token();
        } else if !outside {
            self.current.push(character);
            self.index = self.index + 1;
        } else if character.is_whitespace() {
            let end = text::run_end(&self.chars, self.index, CharClass::White);
            let from = self.index;
            proof {
                let t = self.chars@.skip(from as int);
                assert(t[0] == character);
                text::lemma_run(t, CharClass::White);
            }
            self.push_lone(from, end - from);
        } else if is_word_char(character) || (is_modifier_char(character) && self.can_attach(
            character,
        )) {
            self.current.push(character);
            self.index = self.index + 1;
        } else {
            let from = self.index;
            assert(self.chars@.subrange(from as int, from + 1) == seq![self.chars@[from as int]]);
            self.push_lone(from, 1);
        }
    }

    fn finish(self) -> (r: Vec<String>)
        ensures
            r.deep_view() == finished(self.state()),
    {
        let mut context = self;
        if context.mode == SplitMode::Literal {
            context.close_literal_block();
        }
        context.flush();
        context.tokens
    }
}

fn is_bracket_char(c: char) -> (r: bool)
    ensures
        r == is_bracket(c),
{
    c == '(' || c == ')' || c == '[' || c == ']' || c == '{' || c == '}'
}

/// The patterns that need no stepping: the empty one, blanks alone, and one fixed pattern.
fn split_parse_tokens_trivial(parse_token_string: &str) -> (r: Option<Vec<String>>)
    ensures
        match r {
            Some(tokens) => tokens.deep_view() == split_tokens(parse_token_string@),
            None => split_tokens(parse_token_string@) == split_from(
                parse_token_string@,
                split_start(),
            ),
        },
{
    if parse_token_string.is_empty() {
        let tokens: Vec<String> = Vec::new();
        assert(tokens.deep_view() == Seq::<Seq<char>>::empty());
        return Some(tokens);
    }
    if text::all_chars_in(parse_token_string, CharClass::White) {
        let mut tokens: Vec<String> = Vec::new();
        tokens.push(parse_token_string.to_string());
        assert(tokens.deep_view() == seq![parse_token_string@]);
        return Some(tokens);
    }
    if text::same_text(parse_token_string, BARE_PROVINCE_PATTERN) {
        let mut tokens: Vec<String> = Vec::new();
        tokens.push("ALPHA".to_string());
        tokens.push("<!PROV!>".to_string());
        tokens.push("POSTALCODE".to_string());
        assert(tokens.deep_view() == seq!["ALPHA"@, "<!PROV!>"@, "POSTALCODE"@]);
        return Some(tokens);
    }
    None
}

/// Cuts a TEL pattern into its tokens.
#[must_use]
pub fn split_parse_tokens(parse_token_string: &str) -> (r: Vec<String>)
    ensures
        r.deep_view() == split_tokens(parse_token_string@),
{
    if let Some(trivial) = split_parse_tokens_trivial(parse_token_string) {
        return trivial;
    }
    let mut context = SplitParseContext::new(parse_token_string);
    while context.has_remaining()
        invariant
            context.chars@ == parse_token_string@,
            context.index <= context.chars.len(),
            split_from(parse_token_string@, context.state()) == split_from(
                parse_token_string@,
                split_start(),
            ),
        decreases context.chars.len() - context.index,
    {
        context.advance();
    }
    context.finish()
}

} // verus!
