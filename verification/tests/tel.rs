use tokmat::error::ParseError;
use tokmat::tel::plan::{apply_match_mode, count_capturing_groups, escape_regex_literal};
use tokmat::tel::{
    is_word_char, parse_token_word, split_parse_tokens, ClassConstraint, CompiledPattern,
    MatchMode, Quantity, TelSegment, TokenInfo, TokenKind,
};

fn refused_segment(info: &TokenInfo) -> String {
    match TelSegment::from_token_info(info) {
        Err(ParseError::InvalidPattern(message)) => message,
        other => panic!("{other:?}"),
    }
}

fn invalid(token: &str) -> String {
    refused_segment(&parse_token_word(token).expect("valid token"))
}

#[test]
fn tel_test_split_parse_tokens_preserves_literal_blocks_and_modifiers() {
    assert_eq!(
        split_parse_tokens("{{Unit}} <<UNIT#?>>"),
        vec!["{{Unit}}", " ", "<<UNIT#?>>"]
    );
    assert_eq!(
        split_parse_tokens(r"ALPHA \(<<TITLE>>\) ALPHA"),
        vec!["ALPHA", " ", "(", "<<TITLE>>", ")", " ", "ALPHA"]
    );
}

#[test]
fn test_compile_pattern_preserves_segment_semantics() {
    let compiled = CompiledPattern::compile("<<CIVIC#>> <<STREET@+>> <<TYPE::STREETTYPE>>")
        .expect("pattern compiles");

    assert_eq!(compiled.token_info().len(), 3);
    assert_eq!(compiled.parsed().segments.len(), 3);
    assert_eq!(
        compiled.parsed().segments[0].token_info.var_name.as_deref(),
        Some("CIVIC")
    );
    assert!(compiled.parsed().segments[1].type_modifiers.alpha);
    assert_eq!(compiled.parsed().segments[1].quantity, Quantity::OneOrMore);
    assert_eq!(
        compiled.parsed().segments[2].class_constraint,
        Some(ClassConstraint::Explicit("STREETTYPE".to_string()))
    );
}

#[test]
fn test_compile_pattern_tracks_class_filters_in_ast() {
    let compiled = CompiledPattern::compile("<<CIVIC@#%[!@]>> <<STREET[ALPHA|ALPHA_EXTENDED]>>")
        .expect("pattern compiles");

    assert_eq!(
        compiled.parsed().segments[0].class_constraint,
        Some(ClassConstraint::Excluded(vec!["!@".to_string()]))
    );
    assert_eq!(
        compiled.parsed().segments[1].class_constraint,
        Some(ClassConstraint::Included(vec![
            "ALPHA".to_string(),
            "ALPHA_EXTENDED".to_string(),
        ]))
    );
}

#[test]
fn test_compile_pattern_allows_legacy_greedy_without_multi_group() {
    let compiled = CompiledPattern::compile("CITY$").expect("legacy pattern should compile");
    assert!(compiled.parsed().segments[0].type_modifiers.greedy);
    assert_eq!(compiled.parsed().segments[0].quantity, Quantity::Required);
}

#[test]
fn splitting_loses_nothing_of_a_plain_pattern() {
    for pattern in ["<<A>> <<B#?>>, ALPHA+ <!PROV!>", "x", "A  B", "#-<<Q::R>>!"] {
        assert_eq!(split_parse_tokens(pattern).concat(), pattern);
    }
}

#[test]
fn split_tokens_are_not_empty() {
    for pattern in ["", "{{}}", "<<>>", r"\(\)", "  ", "<!X!><<Y>>"] {
        assert!(split_parse_tokens(pattern).iter().all(|t| !t.is_empty()));
    }
    assert!(split_parse_tokens("").is_empty());
}

#[test]
fn the_bare_province_pattern_has_no_spaces() {
    assert_eq!(
        split_parse_tokens("ALPHA <!PROV!> POSTALCODE"),
        vec!["ALPHA", "<!PROV!>", "POSTALCODE"]
    );
}

#[test]
fn word_characters_are_told() {
    for c in ['a', 'É', '7', '_', '-', '\''] {
        assert!(is_word_char(c));
    }
    for c in [' ', '.', '<', '@'] {
        assert!(!is_word_char(c));
    }
}

#[test]
fn tokens_are_taken_apart() {
    let info = parse_token_word("<<NAME@+?%=$[ALPHA|NUM]>>").expect("valid token");
    assert_eq!(info.kind, TokenKind::Capturing);
    assert_eq!(info.var_name.as_deref(), Some("NAME"));
    assert_eq!(info.modifier.as_deref(), Some("@+?%=$[ALPHA|NUM]"));
    assert_eq!(info.class_type, None);
    assert!(info.flags.optional && info.flags.multi_group && info.flags.extended);
    assert!(info.flags.strict_class && info.flags.greedy_matching);
    assert!(info.flags.has_class_group_modifier);
    assert!(info.is_capturing_group() && !info.is_vanishing_group());

    let info = parse_token_word("<!PROV!>").expect("valid token");
    assert_eq!(info.kind, TokenKind::Vanishing);
    assert_eq!(info.class_type.as_deref(), Some("PROV"));
    assert!(info.is_vanishing_group());

    let info = parse_token_word("NUM#").expect("valid token");
    assert_eq!(info.kind, TokenKind::Class);
    assert_eq!(info.class_type.as_deref(), Some("NUM"));
    assert_eq!(info.modifier.as_deref(), Some("#"));

    let info = parse_token_word("{{Unit}}").expect("valid token");
    assert_eq!(info.kind, TokenKind::Literal);
    assert_eq!(info.token, "Unit");

    for literal in ["#", "$", "@", "<<>>", "(", "...", " x"] {
        let info = parse_token_word(literal).expect("valid token");
        assert_eq!(info.kind, TokenKind::Literal);
        assert_eq!(info.token, literal);
    }
}

#[test]
fn bad_tokens_are_refused() {
    let refused = |token: &str| match parse_token_word(token) {
        Err(ParseError::InvalidPattern(message)) => message,
        _ => panic!("{token} should be refused"),
    };
    assert_eq!(refused(""), "token cannot be empty");
    assert_eq!(refused("<<#>>"), "unknown format used for pattern: <<#>>");
    assert_eq!(refused("-"), "unknown format used for pattern: -");
    assert_eq!(refused("(a)"), "unknown format used for pattern: (a)");
}

#[test]
fn bad_segments_are_refused() {
    assert_eq!(
        invalid("NUM::ALPHA"),
        "non-capturing groups do not support ::CLASS syntax: NUM::ALPHA"
    );
    assert_eq!(
        invalid("NUM[ALPHA]"),
        "class filters are only supported on capturing groups: NUM[ALPHA]"
    );
    assert_eq!(invalid("<<N[]>>"), "class constraint cannot be empty");
    assert_eq!(
        invalid("<<N[ | ]>>"),
        "class constraint cannot be empty: <<N[ | ]>>"
    );
    assert_eq!(
        invalid("<<N[ALPHA>>"),
        "unterminated class constraint in modifier '[ALPHA'"
    );
    assert_eq!(
        invalid("<<N]ALPHA[>>"),
        "unterminated class constraint in modifier ']ALPHA['"
    );
    let mut info = parse_token_word("<!PROV!>").expect("valid token");
    info.modifier = Some("?".to_string());
    assert_eq!(
        refused_segment(&info),
        "vanishing groups accept only a bare class name: <!PROV!>"
    );
    match CompiledPattern::compile("<<A>> <<N[]>> <<B[]>>") {
        Err(ParseError::InvalidPattern(message)) => {
            assert_eq!(message, "class constraint cannot be empty");
        }
        _ => panic!("an empty class list should be refused"),
    }
}

#[test]
fn class_patterns_have_exact_forms() {
    let edge = r"(?:(?=[\w\-'])(?<![\w\-'])|(?<=[\w\-'])(?![\w\-']))";
    let compiled = CompiledPattern::compile("<<CIVIC#>>").expect("valid pattern");
    assert_eq!(
        compiled.class_pattern(MatchMode::Whole),
        format!("^{edge}((?:NUM)){edge}$")
    );
    assert_eq!(
        compiled.class_pattern(MatchMode::Start),
        format!("^{edge}((?:NUM)){edge}")
    );
    assert_eq!(
        compiled.class_pattern(MatchMode::End),
        format!("{edge}((?:NUM)){edge}$")
    );
    assert_eq!(
        compiled.class_pattern(MatchMode::Any),
        format!("{edge}((?:NUM)){edge}")
    );

    let any = |pattern: &str| {
        CompiledPattern::compile(pattern)
            .expect("valid pattern")
            .class_pattern(MatchMode::Any)
            .replace(edge, "|")
    };
    assert_eq!(any("<<A>>"), r"|((?:[\w\-']+))|");
    assert_eq!(any("<<A::ALPHA_NUM>>"), "|((?:ALPHA_NUM|ALPHA|NUM))|");
    assert_eq!(any("<<A@+>>"), r"|((?:(?:ALPHA)|\s)+?)|");
    assert_eq!(any("<<A@+$>>"), r"|((?:(?:ALPHA)|\s)+)|");
    assert_eq!(any("<<A@?>>"), "|((?:ALPHA))?|");
    assert_eq!(any("<<A@=>>"), "|ALPHA|");
    assert_eq!(any("<<A@=?>>"), "|(ALPHA)?|");
    assert_eq!(any("<<A@#%[!@]>>"), "|((?:ALPHA_NUM_EXTENDED|ALPHA_NUM|NUM_EXTENDED|NUM))|");
    assert_eq!(any("<<A@%[ALPHA]>>"), "|((?:ALPHA))|");
    assert_eq!(any("<<A@[NUM]>>"), "|()|");
    assert_eq!(any("<<A@[!!@]>>"), "");
    assert_eq!(any("NUM, ALPHA"), r"|((?:NUM))|\s*,\s*|((?:ALPHA))|");
    assert_eq!(any("{{a.b}}"), r"a\.b");
    assert_eq!(any("<!PROV!>"), "|((?:PROV))|");
    assert_eq!(any("<!PROV!>"), any("<<P::PROV>>"));
    assert_eq!(any("<!ALPHA_NUM!>"), any("<<A::ALPHA_NUM>>"));
    assert_eq!(any("<!WORD!>"), r"|((?:[\w]+))|");
    assert_eq!(any("<!WORDX!>"), r"|((?:[\w\-']+))|");
}

#[test]
fn groups_are_counted() {
    assert_eq!(count_capturing_groups(r"((?:A|B))\((x)"), 2);
    assert_eq!(count_capturing_groups(r"\\("), 1);
    assert_eq!(count_capturing_groups("("), 1);
    assert_eq!(count_capturing_groups(r"\"), 0);
}

#[test]
fn escaped_text_captures_nothing() {
    let escaped = escape_regex_literal(r"(a)[b]{c}.+*?^$|\");
    assert_eq!(escaped, r"\(a\)\[b\]\{c\}\.\+\*\?\^\$\|\\");
    assert_eq!(count_capturing_groups(&escaped), 0);
}

#[test]
fn modes_anchor_patterns() {
    assert_eq!(apply_match_mode("x", MatchMode::Whole), "^x$");
    assert_eq!(apply_match_mode("x", MatchMode::Start), "^x");
    assert_eq!(apply_match_mode("x", MatchMode::End), "x$");
    assert_eq!(apply_match_mode("x", MatchMode::Any), "x");
    assert_eq!(MatchMode::default(), MatchMode::Whole);
}

#[test]
fn class_regexes_are_compiled_once_and_shared() {
    let compiled = CompiledPattern::compile("<<CIVIC#>>").expect("valid pattern");
    let first = compiled.class_regex(MatchMode::Whole).expect("compiles");
    let second = compiled.clone().class_regex(MatchMode::Whole).expect("compiles");
    assert!(std::sync::Arc::ptr_eq(&first, &second));
    assert_eq!(first.as_str(), compiled.class_pattern(MatchMode::Whole));
}

#[test]
fn class_regexes_may_be_refused() {
    let compiled = CompiledPattern::compile("<<A::*>>").expect("valid pattern");
    match compiled.class_regex(MatchMode::Any) {
        Err(ParseError::InvalidPattern(message)) => {
            assert!(message.starts_with("error compiling class comparator '"));
        }
        _ => panic!("a lone star should be refused"),
    }
}
