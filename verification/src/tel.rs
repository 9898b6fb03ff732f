//! The Token Extraction Language (TEL): a pattern is a sequence of segments that capture, require
//! or name tokens of a classified text.

pub mod compiled;
pub mod laws;
pub mod plan;
pub mod segment;
pub mod split;
pub mod token_laws;

pub use crate::tel::compiled::CompiledPattern;
pub use crate::tel::segment::parse_token_word;
pub use crate::tel::split::is_word_char;
pub use crate::tel::split::split_parse_tokens;

use vstd::prelude::*;

verus! {

/// What the modifiers of a token ask for.
#[derive(Debug, Clone, Copy, PartialEq, Eq, Structural)]
pub struct ModifierFlags {
    pub optional: bool,
    pub multi_group: bool,
    pub extended: bool,
    pub strict_class: bool,
    pub greedy_matching: bool,
    pub has_class_group_modifier: bool,
}

/// No modifier at all.
pub open spec fn no_flags() -> ModifierFlags {
    ModifierFlags {
        optional: false,
        multi_group: false,
        extended: false,
        strict_class: false,
        greedy_matching: false,
        has_class_group_modifier: false,
    }
}

impl Default for ModifierFlags {
    fn default() -> (r: Self)
        ensures
            r == no_flags(),
    {
        ModifierFlags {
            optional: false,
            multi_group: false,
            extended: false,
            strict_class: false,
            greedy_matching: false,
            has_class_group_modifier: false,
        }
    }
}

/// The kinds of TEL tokens.
#[derive(Debug, Clone, Copy, PartialEq, Eq, Structural)]
pub enum TokenKind {
    Literal,
    Capturing,
    Class,
    Vanishing,
}

/// How many tokens of the text a segment takes.
#[derive(Debug, Clone, Copy, PartialEq, Eq, Structural)]
pub enum Quantity {
    Required,
    Optional,
    OneOrMore,
}

/// Which part of the text a pattern has to cover.
#[derive(Debug, Clone, Copy, PartialEq, Eq, Hash, Structural)]
pub enum MatchMode {
    Whole,
    Start,
    End,
    Any,
}

impl Default for MatchMode {
    fn default() -> (r: Self)
        ensures
            r == MatchMode::Whole,
    {
        MatchMode::Whole
    }
}

/// The token shapes that the modifiers of a token name.
#[derive(Debug, Clone, Copy, PartialEq, Eq, Structural)]
pub struct TypeModifierSet {
    pub alpha: bool,
    pub numeric: bool,
    pub extended: bool,
    pub strict: bool,
    pub greedy: bool,
}

/// No token shape at all.
pub open spec fn no_type_modifiers() -> TypeModifierSet {
    TypeModifierSet { alpha: false, numeric: false, extended: false, strict: false, greedy: false }
}

impl Default for TypeModifierSet {
    fn default() -> (r: Self)
        ensures
            r == no_type_modifiers(),
    {
        TypeModifierSet {
            alpha: false,
            numeric: false,
            extended: false,
            strict: false,
            greedy: false,
        }
    }
}

/// Which classes a capturing segment accepts.
#[derive(Debug, PartialEq, Eq)]
pub enum ClassConstraint {
    Explicit(String),
    Included(Vec<String>),
    Excluded(Vec<String>),
}

/// The value of a [`ClassConstraint`].
#[verifier::ext_equal]
pub enum ClassConstraintView {
    Explicit(Seq<char>),
    Included(Seq<Seq<char>>),
    Excluded(Seq<Seq<char>>),
}

impl View for ClassConstraint {
    type V = ClassConstraintView;

    open spec fn view(&self) -> ClassConstraintView {
        match self {
            ClassConstraint::Explicit(name) => ClassConstraintView::Explicit(name@),
            ClassConstraint::Included(items) => ClassConstraintView::Included(items.deep_view()),
            ClassConstraint::Excluded(items) => ClassConstraintView::Excluded(items.deep_view()),
        }
    }
}

impl Clone for ClassConstraint {
    fn clone(&self) -> (r: Self)
        ensures
            r@ == self@,
    {
        match self {
            ClassConstraint::Explicit(name) => ClassConstraint::Explicit(name.clone()),
            ClassConstraint::Included(items) => {
                let copy = crate::text::clone_texts(items);
                ClassConstraint::Included(copy)
            },
            ClassConstraint::Excluded(items) => {
                let copy = crate::text::clone_texts(items);
                ClassConstraint::Excluded(copy)
            },
        }
    }
}

/// A TEL token taken apart.
#[derive(Debug, PartialEq, Eq)]
pub struct TokenInfo {
    pub token: String,
    pub var_name: Option<String>,
    pub modifier: Option<String>,
    pub class_type: Option<String>,
    pub kind: TokenKind,
    pub flags: ModifierFlags,
}

/// The value of a [`TokenInfo`].
#[verifier::ext_equal]
pub struct TokenInfoView {
    pub token: Seq<char>,
    pub var_name: Option<Seq<char>>,
    pub modifier: Option<Seq<char>>,
    pub class_type: Option<Seq<char>>,
    pub kind: TokenKind,
    pub flags: ModifierFlags,
}

impl View for TokenInfo {
    type V = TokenInfoView;

    open spec fn view(&self) -> TokenInfoView {
        TokenInfoView {
            token: self.token@,
            var_name: self.var_name.deep_view(),
            modifier: self.modifier.deep_view(),
            class_type: self.class_type.deep_view(),
            kind: self.kind,
            flags: self.flags,
        }
    }
}

impl DeepView for TokenInfo {
    type V = TokenInfoView;

    open spec fn deep_view(&self) -> TokenInfoView {
        self.view()
    }
}

impl Clone for TokenInfo {
    fn clone(&self) -> (r: Self)
        ensures
            r@ == self@,
    {
        TokenInfo {
            token: self.token.clone(),
            var_name: crate::text::clone_text(&self.var_name),
            modifier: crate::text::clone_text(&self.modifier),
            class_type: crate::text::clone_text(&self.class_type),
            kind: self.kind,
            flags: self.flags,
        }
    }
}

impl TokenInfo {
    /// Whether the token captures a field.
    #[must_use]
    pub fn is_capturing_group(&self) -> (r: bool)
        ensures
            r == (self.kind == TokenKind::Capturing),
    {
        matches!(self.kind, TokenKind::Capturing)
    }

    /// Whether the token is required but not captured.
    #[must_use]
    pub fn is_vanishing_group(&self) -> (r: bool)
        ensures
            r == (self.kind == TokenKind::Vanishing),
    {
        matches!(self.kind, TokenKind::Vanishing)
    }
}

/// A segment of a pattern: a token and what its parts mean.
#[derive(Debug, PartialEq, Eq)]
pub struct TelSegment {
    pub token_info: TokenInfo,
    pub quantity: Quantity,
    pub type_modifiers: TypeModifierSet,
    pub class_constraint: Option<ClassConstraint>,
}

/// The value of a [`TelSegment`].
#[verifier::ext_equal]
pub struct TelSegmentView {
    pub token_info: TokenInfoView,
    pub quantity: Quantity,
    pub type_modifiers: TypeModifierSet,
    pub class_constraint: Option<ClassConstraintView>,
}

/// The value of an optional [`ClassConstraint`].
pub open spec fn constraint_view(c: Option<ClassConstraint>) -> Option<ClassConstraintView> {
    match c {
        Some(c) => Some(c@),
        None => None,
    }
}

impl View for TelSegment {
    type V = TelSegmentView;

    open spec fn view(&self) -> TelSegmentView {
        TelSegmentView {
            token_info: self.token_info@,
            quantity: self.quantity,
            type_modifiers: self.type_modifiers,
            class_constraint: constraint_view(self.class_constraint),
        }
    }
}

impl DeepView for TelSegment {
    type V = TelSegmentView;

    open spec fn deep_view(&self) -> TelSegmentView {
        self.view()
    }
}

impl Clone for TelSegment {
    fn clone(&self) -> (r: Self)
        ensures
            r@ == self@,
    {
        let class_constraint = match &self.class_constraint {
            Some(c) => Some(c.clone()),
            None => None,
        };
        TelSegment {
            token_info: self.token_info.clone(),
            quantity: self.quantity,
            type_modifiers: self.type_modifiers,
            class_constraint,
        }
    }
}

/// A pattern and its segments.
#[derive(Debug, PartialEq, Eq)]
pub struct ParsedPattern {
    pub source: String,
    pub segments: Vec<TelSegment>,
}

/// A segment with the part of the class comparator that it makes.
#[derive(Debug, PartialEq, Eq)]
pub struct CompiledClassSegment {
    pub segment: TelSegment,
    pub class_comparator_substring: String,
    pub capturing_group_count: usize,
}

/// The value of a [`CompiledClassSegment`].
#[verifier::ext_equal]
pub struct CompiledClassSegmentView {
    pub segment: TelSegmentView,
    pub class_comparator_substring: Seq<char>,
    pub capturing_group_count: nat,
}

impl View for CompiledClassSegment {
    type V = CompiledClassSegmentView;

    open spec fn view(&self) -> CompiledClassSegmentView {
        CompiledClassSegmentView {
            segment: self.segment@,
            class_comparator_substring: self.class_comparator_substring@,
            capturing_group_count: self.capturing_group_count as nat,
        }
    }
}

impl DeepView for CompiledClassSegment {
    type V = CompiledClassSegmentView;

    open spec fn deep_view(&self) -> CompiledClassSegmentView {
        self.view()
    }
}

/// The regular expressions that a pattern makes over the classes of a text, one for each mode.
#[derive(Debug, PartialEq, Eq)]
pub struct CompiledClassPlan {
    comparator: String,
    whole_pattern: String,
    start_pattern: String,
    end_pattern: String,
    any_pattern: String,
    segments: Vec<CompiledClassSegment>,
}

/// The value of a [`CompiledClassPlan`].
#[verifier::ext_equal]
pub struct CompiledClassPlanView {
    pub comparator: Seq<char>,
    pub segments: Seq<CompiledClassSegmentView>,
}

impl View for CompiledClassPlan {
    type V = CompiledClassPlanView;

    closed spec fn view(&self) -> CompiledClassPlanView {
        CompiledClassPlanView {
            comparator: self.comparator@,
            segments: self.segments.deep_view(),
        }
    }
}

impl CompiledClassPlan {
    #[verifier::type_invariant]
    spec fn patterns_are_anchored(self) -> bool {
        &&& self.whole_pattern@ == plan::anchored(self.comparator@, MatchMode::Whole)
        &&& self.start_pattern@ == plan::anchored(self.comparator@, MatchMode::Start)
        &&& self.end_pattern@ == plan::anchored(self.comparator@, MatchMode::End)
        &&& self.any_pattern@ == plan::anchored(self.comparator@, MatchMode::Any)
    }

    fn new(comparator: String, segments: Vec<CompiledClassSegment>) -> (r: Self)
        ensures
            r@.comparator == comparator@,
            r@.segments == segments.deep_view(),
    {
        CompiledClassPlan {
            whole_pattern: plan::apply_match_mode(comparator.as_str(), MatchMode::Whole),
            start_pattern: plan::apply_match_mode(comparator.as_str(), MatchMode::Start),
            end_pattern: plan::apply_match_mode(comparator.as_str(), MatchMode::End),
            any_pattern: plan::apply_match_mode(comparator.as_str(), MatchMode::Any),
            comparator,
            segments,
        }
    }

    fn segments(&self) -> (r: &[CompiledClassSegment])
        ensures
            r.deep_view() == self@.segments,
    {
        let r = self.segments.as_slice();
        assert(r.deep_view() =~= self.segments.deep_view());
        r
    }

    fn pattern(&self, mode: MatchMode) -> (r: &str)
        ensures
            r@ == plan::anchored(self@.comparator, mode),
    {
        proof {
            use_type_invariant(self);
        }
        match mode {
            MatchMode::Whole => self.whole_pattern.as_str(),
            MatchMode::Start => self.start_pattern.as_str(),
            MatchMode::End => self.end_pattern.as_str(),
            MatchMode::Any => self.any_pattern.as_str(),
        }
    }
}

impl Clone for CompiledClassSegment {
    fn clone(&self) -> (r: Self)
        ensures
            r@ == self@,
    {
        CompiledClassSegment {
            segment: self.segment.clone(),
            class_comparator_substring: self.class_comparator_substring.clone(),
            capturing_group_count: self.capturing_group_count,
        }
    }
}

impl Clone for CompiledClassPlan {
    fn clone(&self) -> (r: Self)
        ensures
            r@ == self@,
    {
        proof {
            use_type_invariant(self);
        }
        let segments = self.segments.clone();
        assert(segments.deep_view() == self.segments.deep_view());
        CompiledClassPlan {
            comparator: self.comparator.clone(),
            whole_pattern: self.whole_pattern.clone(),
            start_pattern: self.start_pattern.clone(),
            end_pattern: self.end_pattern.clone(),
            any_pattern: self.any_pattern.clone(),
            segments,
        }
    }
}

impl Clone for ParsedPattern {
    fn clone(&self) -> (r: Self)
        ensures
            r.source@ == self.source@,
            r.segments.deep_view() == self.segments.deep_view(),
    {
        let segments = self.segments.clone();
        assert(segments.deep_view() =~= self.segments.deep_view());
        ParsedPattern { source: self.source.clone(), segments }
    }
}

} // verus!
