//! Compiled patterns.

use crate::error;
use crate::error::ParseError;
use crate::regex;
use crate::regex::TextRegex;
use crate::shared;
use crate::tel::plan;
use crate::tel::segment;
use crate::tel::split;
use crate::tel::{
    CompiledClassPlan, CompiledClassSegment, MatchMode, ParsedPattern, TelSegment, TelSegmentView,
    TokenInfo, TokenInfoView,
};
use crate::text;
use std::sync::Arc;
use vstd::prelude::*;
use vstd::rwlock::{RwLock, RwLockPredicate};

verus! {

/// The segments that tokens make; a token that is one space makes none. The first token that makes
/// no valid segment gives the error, by its text.
pub open spec fn segments_of(tokens: Seq<Seq<char>>) -> Result<Seq<TelSegmentView>, Seq<char>>
    decreases tokens.len(),
{
    if tokens.len() == 0 {
        Ok(Seq::empty())
    } else {
        match segments_of(tokens.drop_last()) {
            Err(message) => Err(message),
            Ok(before) => if tokens.last() == " "@ {
                Ok(before)
            } else {
                match segment::token_word(tokens.last()) {
                    Err(message) => Err(message),
                    Ok(info) => match segment::segment_of(info) {
                        Err(message) => Err(message),
                        Ok(segment) => Ok(before.push(segment)),
                    },
                }
            },
        }
    }
}

/// The segments of a pattern, or why it is none.
pub open spec fn pattern_segments(pattern: Seq<char>) -> Result<Seq<TelSegmentView>, Seq<char>> {
    segments_of(split::split_tokens(pattern))
}

/// The tokens of segments.
pub open spec fn infos(segments: Seq<TelSegmentView>) -> Seq<TokenInfoView> {
    Seq::new(segments.len(), |i: int| segments[i].token_info)
}

/// The value of a [`CompiledPattern`].
#[verifier::ext_equal]
pub struct CompiledPatternView {
    pub source: Seq<char>,
    pub segments: Seq<TelSegmentView>,
}

impl CompiledPatternView {
    /// The regular expression over classes for a mode.
    pub open spec fn class_pattern(self, mode: MatchMode) -> Seq<char> {
        plan::anchored(plan::class_plan(self.segments).comparator, mode)
    }

    /// Whether the segments are those of the source.
    pub open spec fn is_compiled(self) -> bool {
        pattern_segments(self.source) == Ok::<Seq<TelSegmentView>, Seq<char>>(self.segments)
    }
}

/// What a memo holds: an expression compiled from this pattern, if any.
struct CompiledFrom {
    pattern: Ghost<Seq<char>>,
}

impl RwLockPredicate<Option<Arc<TextRegex>>> for CompiledFrom {
    closed spec fn inv(self, value: Option<Arc<TextRegex>>) -> bool {
        value matches Some(regex) ==> regex.source() == self.pattern@ && regex::regex_accepts(
            self.pattern@,
        )
    }
}

/// A class regex, compiled when it is first asked for.
struct Memo {
    lock: RwLock<Option<Arc<TextRegex>>, CompiledFrom>,
}

impl Memo {
    spec fn pattern(self) -> Seq<char> {
        self.lock.pred().pattern@
    }

    fn new(Ghost(pattern): Ghost<Seq<char>>) -> (r: Self)
        ensures
            r.pattern() == pattern,
    {
        Memo { lock: RwLock::new(None, Ghost(CompiledFrom { pattern: Ghost(pattern) })) }
    }

    fn get(&self) -> (r: Option<Arc<TextRegex>>)
        ensures
            r matches Some(regex) ==> regex.source() == self.pattern() && regex::regex_accepts(
                self.pattern(),
            ),
    {
        let handle = self.lock.acquire_read();
        let found = match handle.borrow() {
            Some(regex) => Some(shared::share(regex)),
            None => None,
        };
        handle.release_read();
        found
    }

    fn set(&self, regex: Arc<TextRegex>)
        requires
            regex.source() == self.pattern(),
            regex::regex_accepts(self.pattern()),
    {
        let (_, handle) = self.lock.acquire_write();
        handle.release_write(Some(regex));
    }
}

/// The class regexes of a pattern, one for each mode.
struct CompiledPatternRuntime {
    whole: Memo,
    start: Memo,
    end: Memo,
    any: Memo,
}

impl CompiledPatternRuntime {
    spec fn serves(self, view: CompiledPatternView) -> bool {
        &&& self.whole.pattern() == view.class_pattern(MatchMode::Whole)
        &&& self.start.pattern() == view.class_pattern(MatchMode::Start)
        &&& self.end.pattern() == view.class_pattern(MatchMode::End)
        &&& self.any.pattern() == view.class_pattern(MatchMode::Any)
    }
}

/// A TEL pattern with its segments and the regular expressions that it makes over classes.
pub struct CompiledPattern {
    source: String,
    token_info: Vec<TokenInfo>,
    parsed: ParsedPattern,
    class_plan: CompiledClassPlan,
    runtime: Arc<CompiledPatternRuntime>,
}

impl View for CompiledPattern {
    type V = CompiledPatternView;

    closed spec fn view(&self) -> CompiledPatternView {
        CompiledPatternView {
            source: self.source@,
            segments: self.parsed.segments.deep_view(),
        }
    }
}

impl CompiledPattern {
    #[verifier::type_invariant]
    spec fn is_consistent(self) -> bool {
        &&& self@.is_compiled()
        &&& self.parsed.source@ == self.source@
        &&& self.token_info.deep_view() == infos(self@.segments)
        &&& self.class_plan@ == plan::class_plan(self@.segments)
        &&& self.runtime.serves(self@)
    }

    /// Compiles a TEL pattern.
    ///
    /// # Errors
    ///
    /// [`ParseError::InvalidPattern`] where a token of the pattern is not valid TEL.
    pub fn compile(pattern: &str) -> (r: Result<Self, ParseError>)
        ensures
            match (r, pattern_segments(pattern@)) {
                (Ok(x), Ok(segments)) => x@.source == pattern@ && x@.segments == segments,
                (Err(e), Err(m)) => error::is_invalid_pattern(e, m),
                _ => false,
            },
    {
        let tokens = split::split_parse_tokens(pattern);
        let ghost all = tokens.deep_view();
        let mut token_info: Vec<TokenInfo> = Vec::new();
        let mut segments: Vec<TelSegment> = Vec::new();
        let mut i: usize = 0;
        assert(segments.deep_view() == Seq::<TelSegmentView>::empty());
        while i < tokens.len()
            invariant
                all == tokens.deep_view(),
                all == split::split_tokens(pattern@),
                i <= tokens.len(),
                segments_of(all.take(i as int)) == Ok::<Seq<TelSegmentView>, Seq<char>>(
                    segments.deep_view(),
                ),
                token_info.len() == segments.len(),
                forall|j: int|
                    0 <= j < token_info.len() ==> (#[trigger] token_info@[j])@
                        == segments@[j]@.token_info,
            decreases tokens.len() - i,
        {
            let ghost before = segments.deep_view();
            proof {
                let next = all.take(i + 1);
                assert(next.drop_last() == all.take(i as int));
                assert(next.last() == tokens@[i as int]@);
            }
            let token = tokens[i].as_str();
            if !text::same_text(token, " ") {
                let info = match segment::parse_token_word(token) {
                    Ok(info) => info,
                    Err(error) => {
                        proof {
                            lemma_segments_fail(all, i + 1);
                        }
                        return Err(error);
                    },
                };
                let segment = match TelSegment::from_token_info(&info) {
                    Ok(segment) => segment,
                    Err(error) => {
                        proof {
                            lemma_segments_fail(all, i + 1);
                        }
                        return Err(error);
                    },
                };
                proof {
                    lemma_segment_keeps_info(info@);
                }
                token_info.push(info);
                segments.push(segment);
                assert(segments.deep_view() == before.push(segment@));
            }
            i = i + 1;
        }
        assert(all.take(i as int) == all);
        let class_plan = plan::create_class_plan(&segments);
        let ghost view = CompiledPatternView {
            source: pattern@,
            segments: segments.deep_view(),
        };
        let runtime = Arc::new(
            CompiledPatternRuntime {
                whole: Memo::new(Ghost(view.class_pattern(MatchMode::Whole))),
                start: Memo::new(Ghost(view.class_pattern(MatchMode::Start))),
                end: Memo::new(Ghost(view.class_pattern(MatchMode::End))),
                any: Memo::new(Ghost(view.class_pattern(MatchMode::Any))),
            },
        );
        assert(token_info.deep_view() =~= infos(segments.deep_view()));
        Ok(
            CompiledPattern {
                source: pattern.to_string(),
                token_info,
                parsed: ParsedPattern { source: pattern.to_string(), segments },
                class_plan,
                runtime,
            },
        )
    }

    /// The pattern.
    #[must_use]
    pub fn source(&self) -> (r: &str)
        ensures
            r@ == self@.source,
            self@.is_compiled(),
    {
        proof {
            use_type_invariant(self);
        }
        self.source.as_str()
    }

    /// The tokens of the pattern.
    #[must_use]
    pub fn token_info(&self) -> (r: &[TokenInfo])
        ensures
            r.deep_view() == infos(self@.segments),
    {
        proof {
            use_type_invariant(self);
        }
        let r = self.token_info.as_slice();
        assert(r.deep_view() =~= self.token_info.deep_view());
        r
    }

    /// The pattern and its segments.
    #[must_use]
    pub fn parsed(&self) -> (r: &ParsedPattern)
        ensures
            r.source@ == self@.source,
            r.segments.deep_view() == self@.segments,
    {
        proof {
            use_type_invariant(self);
        }
        &self.parsed
    }

    /// The segments of the pattern.
    #[must_use]
    pub fn segments(&self) -> (r: &[TelSegment])
        ensures
            r.deep_view() == self@.segments,
    {
        let r = self.parsed.segments.as_slice();
        assert(r.deep_view() =~= self.parsed.segments.deep_view());
        r
    }

    /// The class plan of the pattern.
    #[must_use]
    pub fn class_plan(&self) -> (r: &CompiledClassPlan)
        ensures
            r@ == plan::class_plan(self@.segments),
    {
        proof {
            use_type_invariant(self);
        }
        &self.class_plan
    }

    /// The segments of the pattern with the parts of the class comparator that they make.
    #[must_use]
    pub fn class_segments(&self) -> (r: &[CompiledClassSegment])
        ensures
            r.deep_view() == plan::class_plan(self@.segments).segments,
    {
        proof {
            use_type_invariant(self);
        }
        self.class_plan.segments()
    }

    /// The regular expression over classes for a mode.
    #[must_use]
    pub fn class_pattern(&self, mode: MatchMode) -> (r: &str)
        ensures
            r@ == self@.class_pattern(mode),
    {
        proof {
            use_type_invariant(self);
        }
        self.class_plan.pattern(mode)
    }

    /// The compiled regular expression over classes for a mode; it is compiled when it is first
    /// asked for.
    ///
    /// # Errors
    ///
    /// [`ParseError::InvalidPattern`] where the engine refuses the expression.
    pub fn class_regex(&self, mode: MatchMode) -> (r: Result<Arc<TextRegex>, ParseError>)
        ensures
            r is Ok <==> regex::regex_accepts(self@.class_pattern(mode)),
            r matches Ok(x) ==> x.source() == self@.class_pattern(mode),
            r matches Err(e) ==> regex::is_engine_error(
                e,
                regex::compile_message("class comparator"@, self@.class_pattern(mode)),
            ),
    {
        proof {
            use_type_invariant(self);
        }
        let memo = match mode {
            MatchMode::Whole => &self.runtime.whole,
            MatchMode::Start => &self.runtime.start,
            MatchMode::End => &self.runtime.end,
            MatchMode::Any => &self.runtime.any,
        };
        if let Some(regex) = memo.get() {
            return Ok(regex);
        }
        match regex::compile_comparator(self.class_pattern(mode), "class comparator") {
            Ok(regex) => {
                let regex = Arc::new(regex);
                memo.set(shared::share(&regex));
                Ok(regex)
            },
            Err(error) => Err(error),
        }
    }
}

impl Clone for CompiledPattern {
    fn clone(&self) -> (r: Self)
        ensures
            r@ == self@,
    {
        proof {
            use_type_invariant(self);
        }
        let token_info = self.token_info.clone();
        assert(token_info.deep_view() =~= self.token_info.deep_view());
        CompiledPattern {
            source: self.source.clone(),
            token_info,
            parsed: self.parsed.clone(),
            class_plan: self.class_plan.clone(),
            runtime: shared::share(&self.runtime),
        }
    }
}

/// A segment keeps its token.
proof fn lemma_segment_keeps_info(info: TokenInfoView)
    ensures
        segment::segment_of(info) matches Ok(segment) ==> segment.token_info == info,
{
}

/// Where some of the first tokens make no segment, the pattern does not, for the same reason.
proof fn lemma_segments_fail(tokens: Seq<Seq<char>>, n: int)
    requires
        0 <= n <= tokens.len(),
        segments_of(tokens.take(n)) is Err,
    ensures
        segments_of(tokens) == segments_of(tokens.take(n)),
    decreases tokens.len() - n,
{
    if n == tokens.len() {
        assert(tokens.take(n) == tokens);
    } else {
        assert(tokens.take(n + 1).drop_last() == tokens.take(n));
        lemma_segments_fail(tokens, n + 1);
    }
}

} // verus!
