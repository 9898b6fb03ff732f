//! Regular expressions over texts, run by PCRE2.

use crate::error;
use crate::error::ParseError;
use crate::offsets;
use crate::text;
use crate::unicode;
use vstd::prelude::*;

verus! {

/// `pcre2::bytes::Regex`, a compiled expression, is carried inside a [`TextRegex`].
#[verifier::external_type_specification]
#[verifier::external_body]
pub struct ExPcreRegex(pcre2::bytes::Regex);

/// `pcre2::Error` is carried to where its text becomes part of a message.
#[verifier::external_type_specification]
#[verifier::external_body]
pub struct ExPcreError(pcre2::Error);

/// A compiled expression, with the pattern that it was compiled from.
#[derive(Debug)]
pub struct TextRegex {
    engine: pcre2::bytes::Regex,
    source: String,
}

impl TextRegex {
    /// The pattern that the expression was compiled from.
    pub closed spec fn source(self) -> Seq<char> {
        self.source@
    }

    /// The pattern that the expression was compiled from.
    #[must_use]
    pub fn as_str(&self) -> (r: &str)
        ensures
            r@ == self.source(),
    {
        self.source.as_str()
    }
}

/// The byte offsets of a capture group, where it took part in the match.
pub type GroupSpan = Option<(usize, usize)>;

/// Whether PCRE2 compiles a pattern, in UTF mode with Unicode properties.
pub uninterp spec fn regex_accepts(pattern: Seq<char>) -> bool;

/// The capture groups of the first match of a pattern in a text, the whole match first.
pub uninterp spec fn regex_captures(pattern: Seq<char>, text: Seq<char>) -> Option<Seq<GroupSpan>>;

/// Whether a pattern matches somewhere in a text.
pub uninterp spec fn regex_is_match(pattern: Seq<char>, text: Seq<char>) -> bool;

/// The byte offsets at which the successive matches of a pattern start in a text that is not all
/// ASCII.
pub uninterp spec fn regex_match_starts(pattern: Seq<char>, text: Seq<char>) -> Seq<usize>;

/// Whether a character of a word and something else, or an end of the text, meet at a position.
pub open spec fn is_word_edge(s: Seq<char>, i: int) -> bool {
    (0 < i <= s.len() && text::is_word(s[i - 1])) != (0 <= i < s.len() && text::is_word(s[i]))
}

/// The positions from `i` on at which a word begins or ends.
pub open spec fn word_edges_from(s: Seq<char>, i: int) -> Seq<usize>
    decreases s.len() + 1 - i,
{
    if i > s.len() {
        Seq::empty()
    } else if is_word_edge(s, i) {
        seq![i as usize] + word_edges_from(s, i + 1)
    } else {
        word_edges_from(s, i + 1)
    }
}

/// The byte offsets of the word edges of a text; in an ASCII text they are the positions at which a
/// word begins or ends.
pub open spec fn word_edges(s: Seq<char>) -> Seq<usize> {
    if unicode::is_ascii_text(s) {
        word_edges_from(s, 0)
    } else {
        regex_match_starts(crate::tel::plan::WORD_BOUNDARY_REGEX@, s)
    }
}

/// `pcre2::bytes::RegexBuilder::build` compiles a pattern, or refuses it, by the pattern alone.
/// The options are fixed: UTF mode, Unicode properties, and the JIT compiler where there is one.
/// `stack` bounds the stack of compiled code, which has to hold something; what is accepted does not
/// depend on it.
#[verifier::external_body]
fn build(pattern: &str, stack: Option<usize>) -> (r: Result<TextRegex, pcre2::Error>)
    requires
        stack != Some(0usize),
    ensures
        r is Ok <==> regex_accepts(pattern@),
        r matches Ok(x) ==> x.source() == pattern@,
{
    pcre2::bytes::RegexBuilder::new()
        .utf(true)
        .ucp(true)
        .jit_if_available(true)
        .max_jit_stack_size(stack)
        .build(pattern)
        .map(|engine| TextRegex { engine, source: pattern.to_string() })
}

/// `pcre2::bytes::Regex::captures` gives the groups of the first match, the whole match first, or
/// `None` where there is no match. A match that exceeds a limit of the engine gives an error; of
/// when that happens nothing is said, since the limits are those of the machine.
#[verifier::external_body]
fn captures(regex: &TextRegex, text: &str) -> (r: Result<Option<Vec<GroupSpan>>, pcre2::Error>)
    ensures
        r matches Ok(None) ==> regex_captures(regex.source(), text@) is None,
        r matches Ok(Some(groups)) ==> regex_captures(regex.source(), text@) == Some(groups@),
{
    regex.engine.captures(text.as_bytes()).map(
        |found| found.map(|c| (0..c.len()).map(|i| c.get(i).map(|m| (m.start(), m.end()))).collect()),
    )
}

/// `pcre2::bytes::Regex::is_match` tells whether the expression matches somewhere in the text. An
/// error comes from a limit of the engine, as in [`captures`].
#[verifier::external_body]
fn is_match(regex: &TextRegex, text: &str) -> (r: Result<bool, pcre2::Error>)
    ensures
        r matches Ok(found) ==> found == regex_is_match(regex.source(), text@),
{
    regex.engine.is_match(text.as_bytes())
}

/// `pcre2::bytes::Regex::find_iter` gives the successive matches; their starts are kept. An error
/// comes from a limit of the engine, as in [`captures`]. The expression is the word edge, whose
/// matches are empty, so that the iterator moves on after each of them. In an ASCII text it matches
/// where a letter, a digit, `_`, `-` or `'` stands on one side alone.
#[verifier::external_body]
fn match_starts(regex: &TextRegex, text: &str) -> (r: Result<Vec<usize>, pcre2::Error>)
    requires
        regex.source() == crate::tel::plan::WORD_BOUNDARY_REGEX@,
    ensures
        r matches Ok(starts) ==> if unicode::is_ascii_text(text@) {
            starts@ == word_edges_from(text@, 0)
        } else {
            starts@ == regex_match_starts(regex.source(), text@)
        },
{
    regex.engine.find_iter(text.as_bytes()).map(|found| found.map(|m| m.start())).collect()
}

/// Whether `error` is an `InvalidPattern` whose text begins with `message`.
pub open spec fn is_engine_error(error: ParseError, message: Seq<char>) -> bool {
    error matches ParseError::InvalidPattern(m) && message.is_prefix_of(m@)
}

/// How the message on a refused pattern begins.
pub open spec fn compile_message(label: Seq<char>, pattern: Seq<char>) -> Seq<char> {
    "error compiling "@ + label + " '"@ + pattern + "': "@
}

/// How the message on a failed search begins.
pub open spec fn run_message(label: Seq<char>, pattern: Seq<char>) -> Seq<char> {
    "error running "@ + label + " '"@ + pattern + "': "@
}

/// The size of the stack of compiled comparators.
pub const COMPARATOR_STACK: usize = 5_000_000;

/// `intro`, a label, a quoted pattern, and what the engine says.
fn engine_message(intro: &str, label: &str, pattern: &str, error: &pcre2::Error) -> (r: String)
    ensures
        (intro@ + label@ + " '"@ + pattern@ + "': "@).is_prefix_of(r@),
{
    let mut message = text::glue3(intro, label, " '");
    message.append(pattern);
    message.append("': ");
    let said = error.to_string();
    message.append(said.as_str());
    message
}

/// Compiles a comparator.
///
/// # Errors
///
/// [`ParseError::InvalidPattern`] where PCRE2 refuses the pattern.
pub fn compile_comparator(pattern: &str, label: &str) -> (r: Result<TextRegex, ParseError>)
    ensures
        r is Ok <==> regex_accepts(pattern@),
        r matches Ok(x) ==> x.source() == pattern@,
        r matches Err(e) ==> is_engine_error(e, compile_message(label@, pattern@)),
{
    match build(pattern, Some(COMPARATOR_STACK)) {
        Ok(regex) => Ok(regex),
        Err(error) => Err(
            ParseError::InvalidPattern(engine_message("error compiling ", label, pattern, &error)),
        ),
    }
}

/// Compiles the expression of a token definition.
///
/// # Errors
///
/// [`ParseError::InvalidTokenDefinition`] where PCRE2 refuses the pattern.
pub fn compile_definition(pattern: &str) -> (r: Result<TextRegex, ParseError>)
    ensures
        r is Ok <==> regex_accepts(pattern@),
        r matches Ok(x) ==> x.source() == pattern@,
        r matches Err(e) ==> error::is_invalid_definition(
            e,
            compile_message("token definition"@, pattern@),
        ),
{
    match build(pattern, None) {
        Ok(regex) => Ok(regex),
        Err(error) => Err(
            ParseError::InvalidTokenDefinition(
                engine_message("error compiling ", "token definition", pattern, &error),
            ),
        ),
    }
}

/// The capture groups of the first match in a text.
///
/// # Errors
///
/// [`ParseError::InvalidPattern`] where the engine gives up on the search.
pub fn run_captures(regex: &TextRegex, text: &str, label: &str, pattern: &str) -> (r: Result<
    Option<Vec<GroupSpan>>,
    ParseError,
>)
    ensures
        r matches Ok(None) ==> regex_captures(regex.source(), text@) is None,
        r matches Ok(Some(groups)) ==> regex_captures(regex.source(), text@) == Some(groups@),
        r matches Err(e) ==> is_engine_error(e, run_message(label@, pattern@)),
{
    match captures(regex, text) {
        Ok(found) => Ok(found),
        Err(error) => Err(
            ParseError::InvalidPattern(engine_message("error running ", label, pattern, &error)),
        ),
    }
}

/// Whether the expression matches somewhere in a text; `None` where the engine gives up.
pub fn try_match(regex: &TextRegex, text: &str) -> (r: Option<bool>)
    ensures
        r matches Some(found) ==> found == regex_is_match(regex.source(), text@),
{
    match is_match(regex, text) {
        Ok(found) => Some(found),
        Err(_) => None,
    }
}

/// The word edges of a text; `None` where the engine gives up.
pub fn try_word_edges(text: &str) -> (r: Option<Vec<usize>>)
    ensures
        r matches Some(starts) ==> starts@ == word_edges(text@),
{
    match build(crate::tel::plan::WORD_BOUNDARY_REGEX, None) {
        Ok(regex) => match match_starts(&regex, text) {
            Ok(starts) => Some(starts),
            Err(_) => None,
        },
        Err(_) => None,
    }
}

/// The text of a capture group: nothing where it took no part in the match, or where its offsets
/// do not enclose a part of the text.
pub open spec fn group_text(text: Seq<char>, span: GroupSpan) -> Option<Seq<char>> {
    match span {
        Some((from, to)) => if from == to && to <= offsets::byte_len(text) {
            Some(Seq::empty())
        } else if offsets::is_span(text, from as int, to as int) {
            Some(offsets::slice(text, from as int, to as int))
        } else {
            None
        },
        None => None,
    }
}

/// The text of a capture group.
pub fn group_of(text: &str, span: GroupSpan) -> (r: Option<&str>)
    ensures
        r.deep_view() == group_text(text@, span),
{
    match span {
        Some((from, to)) => if from == to && to <= offsets::len_of(text) {
            assert(""@ == Seq::<char>::empty()) by {
                reveal_strlit("");
            }
            Some("")
        } else if offsets::spans(text, from, to) {
            Some(offsets::slice_of(text, from, to))
        } else {
            None
        },
        None => None,
    }
}

} // verus!
