//! Taking a TEL token apart.

use crate::error;
use crate::error::ParseError;
use crate::tel;
use crate::tel::{
    ClassConstraint, ClassConstraintView, ModifierFlags, Quantity, TelSegment, TelSegmentView,
    TokenInfo, TokenInfoView, TokenKind, TypeModifierSet,
};
use crate::text;
use crate::text::CharClass;
use vstd::prelude::*;

verus! {

/// The parts of a token: the name of a field, a class, and modifiers.
pub struct StructureView {
    pub var_name: Option<Seq<char>>,
    pub class_type: Option<Seq<char>>,
    pub modifier: Option<Seq<char>>,
}

/// `s`, unless it is empty.
pub open spec fn non_empty(s: Seq<char>) -> Option<Seq<char>> {
    if s.len() == 0 {
        None
    } else {
        Some(s)
    }
}

/// The parts of a token. Between `<<` and `>>` stand a field name, modifiers, and possibly `::`
/// and a class; elsewhere a class name and modifiers. An error is given by its text.
pub open spec fn structure(segment: Seq<char>) -> Result<StructureView, Seq<char>> {
    let captured = text::between(segment, "<<"@, ">>"@);
    let inner = match captured {
        Some(inner) => inner,
        None => segment,
    };
    let (base, class_type) = match text::find_from(inner, "::"@, 0) {
        Some(at) => (inner.take(at), Some(inner.skip(at + 2))),
        None => (inner, None),
    };
    let n = text::run_len(base, CharClass::Ident) as int;
    if n == 0 {
        Err("unknown format used for pattern: "@ + segment)
    } else if captured is Some {
        Ok(
            StructureView {
                var_name: Some(base.take(n)),
                class_type,
                modifier: non_empty(base.skip(n)),
            },
        )
    } else {
        Ok(
            StructureView {
                var_name: None,
                class_type: Some(base.take(n)),
                modifier: non_empty(base.skip(n)),
            },
        )
    }
}

/// Whether `c` is one of the modifiers, where there are any.
pub open spec fn marks(modifier: Option<Seq<char>>, c: char) -> bool {
    modifier matches Some(m) && m.contains(c)
}

/// What modifiers ask for.
pub open spec fn flags_of(modifier: Option<Seq<char>>) -> ModifierFlags {
    ModifierFlags {
        optional: marks(modifier, '?'),
        multi_group: marks(modifier, '+'),
        extended: marks(modifier, '%'),
        strict_class: marks(modifier, '='),
        greedy_matching: marks(modifier, '$'),
        has_class_group_modifier: marks(modifier, '[') && marks(modifier, ']'),
    }
}

/// The token shapes that modifiers name.
pub open spec fn type_modifiers_of(modifier: Option<Seq<char>>) -> TypeModifierSet {
    TypeModifierSet {
        alpha: marks(modifier, '@'),
        numeric: marks(modifier, '#'),
        extended: marks(modifier, '%'),
        strict: marks(modifier, '='),
        greedy: marks(modifier, '$'),
    }
}

/// A token and its parts.
pub open spec fn info(
    token: Seq<char>,
    var_name: Option<Seq<char>>,
    modifier: Option<Seq<char>>,
    class_type: Option<Seq<char>>,
    kind: TokenKind,
) -> TokenInfoView {
    TokenInfoView { token, var_name, modifier, class_type, kind, flags: flags_of(modifier) }
}

/// A literal.
pub open spec fn literal_info(token: Seq<char>) -> TokenInfoView {
    info(token, None, None, None, TokenKind::Literal)
}

/// The class name of a vanishing group `<!NAME!>`.
pub open spec fn vanishing_class(token: Seq<char>) -> Option<Seq<char>> {
    match text::between(token, "<!"@, "!>"@) {
        Some(inner) => if inner.len() > 0 && text::all_in(inner, CharClass::Ident) {
            Some(inner)
        } else {
            None
        },
        None => None,
    }
}

/// Whether a token consists of signs alone: nothing alphanumeric and no white space.
pub open spec fn is_signs(token: Seq<char>) -> bool {
    forall|i: int|
        0 <= i < token.len() ==> !crate::unicode::is_alnum(#[trigger] token[i])
            && !crate::unicode::is_white(token[i])
}

/// Whether a token holds white space.
pub open spec fn has_white(token: Seq<char>) -> bool {
    exists|i: int| 0 <= i < token.len() && crate::unicode::is_white(#[trigger] token[i])
}

/// A TEL token taken apart; an error is given by its text.
pub open spec fn token_word(token: Seq<char>) -> Result<TokenInfoView, Seq<char>> {
    if token.len() == 0 {
        Err("token cannot be empty"@)
    } else if token == "#"@ || token == "$"@ || token == "@"@ || token == "<<>>"@ {
        Ok(literal_info(token))
    } else if text::between(token, "{{"@, "}}"@) is Some {
        Ok(literal_info(text::between(token, "{{"@, "}}"@)->0))
    } else if vanishing_class(token) is Some {
        Ok(info(token, None, None, vanishing_class(token), TokenKind::Vanishing))
    } else if text::between(token, "<<"@, ">>"@) is Some {
        match structure(token) {
            Ok(parts) => Ok(
                info(
                    token,
                    parts.var_name,
                    parts.modifier,
                    parts.class_type,
                    TokenKind::Capturing,
                ),
            ),
            Err(message) => Err(message),
        }
    } else if text::is_word(token[0]) {
        match structure(token) {
            Ok(parts) => Ok(info(token, None, parts.modifier, parts.class_type, TokenKind::Class)),
            Err(message) => Err(message),
        }
    } else if is_signs(token) || has_white(token) {
        Ok(literal_info(token))
    } else {
        Err("unknown format used for pattern: "@ + token)
    }
}

/// How many tokens of the text a token with these modifiers takes.
pub open spec fn quantity_of(flags: ModifierFlags) -> Quantity {
    if flags.multi_group {
        Quantity::OneOrMore
    } else if flags.optional {
        Quantity::Optional
    } else {
        Quantity::Required
    }
}

/// The class constraint of a token: the class after `::`, or a list in square brackets among the
/// modifiers, which excludes where it begins with `!`. An error is given by its text.
pub open spec fn constraint_of(
    modifier: Option<Seq<char>>,
    explicit_class: Option<Seq<char>>,
) -> Result<Option<ClassConstraintView>, Seq<char>> {
    if explicit_class is Some {
        Ok(Some(ClassConstraintView::Explicit(explicit_class->0)))
    } else if !marks(modifier, '[') {
        Ok(None)
    } else {
        let m = modifier->0;
        let start = m.index_of_first('[')->0;
        let end = m.index_of_last(']');
        if end is None || end->0 < start {
            Err("unterminated class constraint in modifier '"@ + m + "'"@)
        } else {
            let inner = m.subrange(start + 1, end->0);
            let items = text::nonblank(text::split_on(inner, '|'));
            if inner.len() == 0 {
                Err("class constraint cannot be empty"@)
            } else if inner[0] == '!' {
                Ok(Some(ClassConstraintView::Excluded(items)))
            } else {
                Ok(Some(ClassConstraintView::Included(items)))
            }
        }
    }
}

/// Why a token with this class constraint is no valid segment, if it is none.
pub open spec fn segment_error(
    token_info: TokenInfoView,
    class_constraint: Option<ClassConstraintView>,
) -> Option<Seq<char>> {
    if token_info.kind == TokenKind::Vanishing && (token_info.modifier is Some
        || class_constraint is Some) {
        Some("vanishing groups accept only a bare class name: "@ + token_info.token)
    } else if token_info.kind == TokenKind::Class && text::find_from(token_info.token, "::"@, 0)
        is Some {
        Some("non-capturing groups do not support ::CLASS syntax: "@ + token_info.token)
    } else if token_info.kind != TokenKind::Capturing && class_constraint is Some {
        Some("class filters are only supported on capturing groups: "@ + token_info.token)
    } else if class_constraint == Some(ClassConstraintView::Included(Seq::empty()))
        || class_constraint == Some(ClassConstraintView::Excluded(Seq::empty())) {
        Some("class constraint cannot be empty: "@ + token_info.token)
    } else {
        None
    }
}

/// The segment that a token makes; an error is given by its text.
pub open spec fn segment_of(token_info: TokenInfoView) -> Result<TelSegmentView, Seq<char>> {
    let explicit_class = if token_info.kind == TokenKind::Capturing {
        token_info.class_type
    } else {
        None
    };
    match constraint_of(token_info.modifier, explicit_class) {
        Err(message) => Err(message),
        Ok(class_constraint) => match segment_error(token_info, class_constraint) {
            Some(message) => Err(message),
            None => Ok(
                TelSegmentView {
                    token_info,
                    quantity: quantity_of(token_info.flags),
                    type_modifiers: type_modifiers_of(token_info.modifier),
                    class_constraint,
                },
            ),
        },
    }
}

/// What [`structure`] gives, as values.
struct Structure {
    var_name: Option<String>,
    class_type: Option<String>,
    modifier: Option<String>,
}

/// Whether a result is the one that a spec function gives.
pub open spec fn is_info(r: Result<TokenInfo, ParseError>, s: Result<TokenInfoView, Seq<char>>) -> bool {
    match (r, s) {
        (Ok(x), Ok(v)) => x@ == v,
        (Err(e), Err(m)) => error::is_invalid_pattern(e, m),
        _ => false,
    }
}

/// Whether a result is the one that a spec function gives.
pub open spec fn is_segment(
    r: Result<TelSegment, ParseError>,
    s: Result<TelSegmentView, Seq<char>>,
) -> bool {
    match (r, s) {
        (Ok(x), Ok(v)) => x@ == v,
        (Err(e), Err(m)) => error::is_invalid_pattern(e, m),
        _ => false,
    }
}

fn parse_token_structure(segment: &str) -> (r: Result<Structure, ParseError>)
    ensures
        match (r, structure(segment@)) {
            (Ok(x), Ok(v)) => x.var_name.deep_view() == v.var_name && x.class_type.deep_view()
                == v.class_type && x.modifier.deep_view() == v.modifier,
            (Err(e), Err(m)) => error::is_invalid_pattern(e, m),
            _ => false,
        },
{
    let captured = text::strip_both(segment, "<<", ">>");
    let inner = match captured {
        Some(inner) => inner,
        None => segment,
    };
    let chars = text::chars_of(inner);
    let sep = text::chars_of("::");
    let cut = text::find_sub(&chars, 0, &sep);
    let (base, class_type) = match cut {
        Some(at) => {
            proof {
                reveal_strlit("::");
            }
            (inner.substring_char(0, at), Some(inner.substring_char(at + 2, inner.unicode_len())))
        },
        None => (inner, None),
    };
    let base_chars = text::chars_of(base);
    let n = text::run_end(&base_chars, 0, CharClass::Ident);
    proof {
        assert(base_chars@.skip(0) == base@);
    }
    if n == 0 {
        return Err(
            ParseError::InvalidPattern(text::glue("unknown format used for pattern: ", segment)),
        );
    }
    let identifier = base.substring_char(0, n).to_string();
    let modifier = if n == base_chars.len() {
        None
    } else {
        Some(base.substring_char(n, base_chars.len()).to_string())
    };
    match captured {
        Some(_) => Ok(
            Structure { var_name: Some(identifier), class_type: text::owned(class_type), modifier },
        ),
        None => Ok(Structure { var_name: None, class_type: Some(identifier), modifier }),
    }
}

/// Whether `c` is one of the modifiers, where there are any.
pub fn modifier_has(modifier: Option<&str>, c: char) -> (r: bool)
    ensures
        r == marks(modifier.deep_view(), c),
{
    match modifier {
        Some(m) => text::contains_char(m, c),
        None => false,
    }
}

fn modifier_flags(modifier: Option<&str>) -> (r: ModifierFlags)
    ensures
        r == flags_of(modifier.deep_view()),
{
    ModifierFlags {
        optional: modifier_has(modifier, '?'),
        multi_group: modifier_has(modifier, '+'),
        extended: modifier_has(modifier, '%'),
        strict_class: modifier_has(modifier, '='),
        greedy_matching: modifier_has(modifier, '$'),
        has_class_group_modifier: modifier_has(modifier, '[') && modifier_has(modifier, ']'),
    }
}

fn parse_type_modifiers(modifier: Option<&str>) -> (r: TypeModifierSet)
    ensures
        r == type_modifiers_of(modifier.deep_view()),
{
    TypeModifierSet {
        alpha: modifier_has(modifier, '@'),
        numeric: modifier_has(modifier, '#'),
        extended: modifier_has(modifier, '%'),
        strict: modifier_has(modifier, '='),
        greedy: modifier_has(modifier, '$'),
    }
}

fn parse_quantity(flags: ModifierFlags) -> (r: Quantity)
    ensures
        r == quantity_of(flags),
{
    if flags.multi_group {
        Quantity::OneOrMore
    } else if flags.optional {
        Quantity::Optional
    } else {
        Quantity::Required
    }
}

fn create_token_info(
    token: &str,
    var_name: Option<String>,
    modifier: Option<String>,
    class_type: Option<String>,
    kind: TokenKind,
) -> (r: TokenInfo)
    ensures
        r@ == info(
            token@,
            var_name.deep_view(),
            modifier.deep_view(),
            class_type.deep_view(),
            kind,
        ),
{
    let flags = modifier_flags(text::borrowed(&modifier));
    TokenInfo { token: token.to_string(), var_name, modifier, class_type, kind, flags }
}

fn token_info_literal(token: &str) -> (r: TokenInfo)
    ensures
        r@ == literal_info(token@),
{
    create_token_info(token, None, None, None, TokenKind::Literal)
}

fn parse_vanishing_group(token: &str) -> (r: Option<String>)
    ensures
        r.deep_view() == vanishing_class(token@),
{
    match text::strip_both(token, "<!", "!>") {
        Some(inner) => if !inner.is_empty() && text::all_chars_in(inner, CharClass::Ident) {
            Some(inner.to_string())
        } else {
            None
        },
        None => None,
    }
}

/// Whether a token consists of signs alone, and whether it holds white space.
fn scan_signs(token: &str) -> (r: (bool, bool))
    ensures
        r.0 == is_signs(token@),
        r.1 == has_white(token@),
{
    let chars = text::chars_of(token);
    let mut signs = true;
    let mut white = false;
    let mut i: usize = 0;
    while i < chars.len()
        invariant
            chars@ == token@,
            i <= chars.len(),
            signs == is_signs(token@.take(i as int)),
            white == has_white(token@.take(i as int)),
        decreases chars.len() - i,
    {
        let c = chars[i];
        proof {
            let before = token@.take(i as int);
            let after = token@.take(i + 1);
            assert(after == before.push(c));
            assert(after[i as int] == c);
            assert forall|j: int| 0 <= j < i implies after[j] == before[j] by {}
            if has_white(before) {
                let j = choose|j: int| 0 <= j < before.len() && crate::unicode::is_white(#[trigger] before[j]);
                assert(crate::unicode::is_white(after[j]));
            }
            if is_signs(after) {
                assert forall|j: int| 0 <= j < before.len() implies !crate::unicode::is_alnum(
                    #[trigger] before[j],
                ) && !crate::unicode::is_white(before[j]) by {
                    assert(before[j] == after[j]);
                }
            }
        }
        if c.is_alphanumeric() {
            signs = false;
        }
        if c.is_whitespace() {
            signs = false;
            white = true;
        }
        i = i + 1;
    }
    assert(token@.take(i as int) == token@);
    (signs, white)
}

/// Takes a TEL token apart.
///
/// # Errors
///
/// [`ParseError::InvalidPattern`] where the token is not valid TEL.
pub fn parse_token_word(token: &str) -> (r: Result<TokenInfo, ParseError>)
    ensures
        is_info(r, token_word(token@)),
{
    if token.is_empty() {
        return Err(ParseError::InvalidPattern("token cannot be empty".to_string()));
    }
    if text::same_text(token, "#") || text::same_text(token, "$") || text::same_text(token, "@")
        || text::same_text(token, "<<>>") {
        return Ok(token_info_literal(token));
    }
    if let Some(inner) = text::strip_both(token, "{{", "}}") {
        return Ok(token_info_literal(inner));
    }
    if let Some(class_type) = parse_vanishing_group(token) {
        return Ok(create_token_info(token, None, None, Some(class_type), TokenKind::Vanishing));
    }
    if text::strip_both(token, "<<", ">>").is_some() {
        return match parse_token_structure(token) {
            Ok(parts) => Ok(
                create_token_info(
                    token,
                    parts.var_name,
                    parts.modifier,
                    parts.class_type,
                    TokenKind::Capturing,
                ),
            ),
            Err(error) => Err(error),
        };
    }
    if crate::tel::split::is_word_char(token.get_char(0)) {
        return match parse_token_structure(token) {
            Ok(parts) => Ok(
                create_token_info(token, None, parts.modifier, parts.class_type, TokenKind::Class),
            ),
            Err(error) => Err(error),
        };
    }
    let (signs, white) = scan_signs(token);
    if signs || white {
        return Ok(token_info_literal(token));
    }
    Err(ParseError::InvalidPattern(text::glue("unknown format used for pattern: ", token)))
}

fn parse_class_constraint(modifier: Option<&str>, explicit_class: Option<&str>) -> (r: Result<
    Option<ClassConstraint>,
    ParseError,
>)
    ensures
        match (r, constraint_of(modifier.deep_view(), explicit_class.deep_view())) {
            (Ok(x), Ok(v)) => tel::constraint_view(x) == v,
            (Err(e), Err(m)) => error::is_invalid_pattern(e, m),
            _ => false,
        },
{
    if let Some(class_name) = explicit_class {
        return Ok(Some(ClassConstraint::Explicit(class_name.to_string())));
    }
    let modifier = match modifier {
        Some(modifier) => modifier,
        None => {
            return Ok(None);
        },
    };
    let chars = text::chars_of(modifier);
    let start = match text::first_of(&chars, '[') {
        Some(start) => start,
        None => {
            return Ok(None);
        },
    };
    let end = match text::last_of(&chars, ']') {
        Some(end) if start < end => end,
        _ => {
            return Err(
                ParseError::InvalidPattern(
                    text::glue3("unterminated class constraint in modifier '", modifier, "'"),
                ),
            );
        },
    };
    let inner = modifier.substring_char(start + 1, end);
    if inner.is_empty() {
        return Err(ParseError::InvalidPattern("class constraint cannot be empty".to_string()));
    }
    let items = text::split_nonblank(inner, '|');
    if inner.get_char(0) == '!' {
        Ok(Some(ClassConstraint::Excluded(items)))
    } else {
        Ok(Some(ClassConstraint::Included(items)))
    }
}

fn lists_nothing(class_constraint: &Option<ClassConstraint>) -> (r: bool)
    ensures
        r == (tel::constraint_view(*class_constraint) == Some(
            ClassConstraintView::Included(Seq::empty()),
        ) || tel::constraint_view(*class_constraint) == Some(
            ClassConstraintView::Excluded(Seq::empty()),
        )),
{
    match class_constraint {
        Some(ClassConstraint::Included(items)) => {
            proof {
                assert(items.deep_view().len() == items.len());
                assert(items.len() == 0 ==> items.deep_view() == Seq::<Seq<char>>::empty());
            }
            items.len() == 0
        },
        Some(ClassConstraint::Excluded(items)) => {
            proof {
                assert(items.deep_view().len() == items.len());
                assert(items.len() == 0 ==> items.deep_view() == Seq::<Seq<char>>::empty());
            }
            items.len() == 0
        },
        _ => false,
    }
}

fn validate_segment(token_info: &TokenInfo, class_constraint: &Option<ClassConstraint>) -> (r:
    Result<(), ParseError>)
    ensures
        match (r, segment_error(token_info@, tel::constraint_view(*class_constraint))) {
            (Ok(_), None) => true,
            (Err(e), Some(m)) => error::is_invalid_pattern(e, m),
            _ => false,
        },
{
    let token = token_info.token.as_str();
    if token_info.is_vanishing_group() && (token_info.modifier.is_some()
        || class_constraint.is_some()) {
        return Err(
            ParseError::InvalidPattern(
                text::glue("vanishing groups accept only a bare class name: ", token),
            ),
        );
    }
    let chars = text::chars_of(token);
    let sep = text::chars_of("::");
    if token_info.kind == TokenKind::Class && text::find_sub(&chars, 0, &sep).is_some() {
        return Err(
            ParseError::InvalidPattern(
                text::glue("non-capturing groups do not support ::CLASS syntax: ", token),
            ),
        );
    }
    if !token_info.is_capturing_group() && class_constraint.is_some() {
        return Err(
            ParseError::InvalidPattern(
                text::glue("class filters are only supported on capturing groups: ", token),
            ),
        );
    }
    if lists_nothing(class_constraint) {
        return Err(
            ParseError::InvalidPattern(text::glue("class constraint cannot be empty: ", token)),
        );
    }
    Ok(())
}

impl TelSegment {
    /// The segment that a token makes.
    ///
    /// # Errors
    ///
    /// [`ParseError::InvalidPattern`] where the modifiers and the class filter of the token do not
    /// fit each other or its kind.
    pub fn from_token_info(token_info: &TokenInfo) -> (r: Result<Self, ParseError>)
        ensures
            is_segment(r, segment_of(token_info@)),
    {
        let modifier = text::borrowed(&token_info.modifier);
        let explicit_class = if token_info.is_capturing_group() {
            text::borrowed(&token_info.class_type)
        } else {
            None
        };
        let class_constraint = match parse_class_constraint(modifier, explicit_class) {
            Ok(class_constraint) => class_constraint,
            Err(error) => {
                return Err(error);
            },
        };
        match validate_segment(token_info, &class_constraint) {
            Ok(_) => {},
            Err(error) => {
                return Err(error);
            },
        }
        Ok(
            TelSegment {
                token_info: token_info.clone(),
                quantity: parse_quantity(token_info.flags),
                type_modifiers: parse_type_modifiers(modifier),
                class_constraint,
            },
        )
    }
}

} // verus!
