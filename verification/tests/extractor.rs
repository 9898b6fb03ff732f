use tokmat::error::ParseError;
use tokmat::extractor::complement::{get_complement_of_captured_groups, get_complement_of_spans};
use tokmat::extractor::groups::{capture_groups, filter_class_groups};
use tokmat::extractor::object::make_non_capturing;
use tokmat::extractor::object_plan::build_object_pattern;
use tokmat::extractor::reading::{read_class_match, read_fields};
use tokmat::extractor::{Extractor, ExtractorConfig, FieldMap, MatchMode};
use tokmat::regex::run_captures;
use tokmat::tel::plan::count_capturing_groups;
use tokmat::tel::{split_parse_tokens, CompiledPattern, TokenKind};
use tokmat::tokenizer::{TokenClassList, TokenDefinition};

fn definitions() -> TokenDefinition {
    vec![
        ("NUM".to_string(), r"^\d+$".to_string()),
        ("ALPHA".to_string(), r"^[A-Z]+$".to_string()),
        ("STREETTYPE".to_string(), r"^(?:ST|AVE)$".to_string()),
        ("PROV".to_string(), r"^(?:NS|ON)$".to_string()),
    ]
}

fn classes() -> TokenClassList {
    vec![(
        "STREETTYPE".to_string(),
        vec!["ST".to_string(), "AVE".to_string()],
    )]
}

fn mock_extractor() -> Extractor {
    Extractor::new(definitions(), classes())
}

fn load_extractor() -> Extractor {
    mock_extractor()
}

fn field<'a>(fields: &'a FieldMap, name: &str) -> Option<&'a str> {
    fields.get(name).map(String::as_str)
}

#[test]
fn extractor_test_split_parse_tokens_preserves_literal_blocks_and_modifiers() {
    assert_eq!(
        split_parse_tokens("{{Unit}} <<UNIT#?>>"),
        vec!["{{Unit}}", " ", "<<UNIT#?>>"]
    );
    assert_eq!(
        split_parse_tokens(r"ALPHA \(<<TITLE>>\) ALPHA"),
        vec!["ALPHA", " ", "(", "<<TITLE>>", ")", " ", "ALPHA"]
    );
}

#[test]
fn test_extract_token_info_handles_capturing_and_literals() {
    let extractor = mock_extractor();
    let infos = extractor
        .extract_token_info("<<CIVIC#>> \"<<TITLE>>\" <<LAST>>")
        .expect("pattern should parse");
    assert_eq!(infos.len(), 5);
    assert_eq!(infos[0].var_name.as_deref(), Some("CIVIC"));
    assert!(infos[0].is_capturing_group());
    assert_eq!(infos[1].kind, TokenKind::Literal);
    assert_eq!(infos[2].var_name.as_deref(), Some("TITLE"));
}

#[test]
fn test_parse_tokens_matches_python_like_simple_address() {
    let mut extractor = mock_extractor();
    let tokens = vec![
        "123".to_string(),
        " ".to_string(),
        "MAIN".to_string(),
        " ".to_string(),
        "ST".to_string(),
    ];
    let classes = vec![
        "NUM".to_string(),
        " ".to_string(),
        "ALPHA".to_string(),
        " ".to_string(),
        "STREETTYPE".to_string(),
    ];
    let output = extractor
        .parse_tokens(
            "123 MAIN ST",
            &tokens,
            &classes,
            "<<CIVIC#>> <<STREET@>> <<TYPE::STREETTYPE>>",
            MatchMode::Whole,
        )
        .expect("pattern should parse");
    assert_eq!(output.fields.get("CIVIC").map(String::as_str), Some("123"));
    assert_eq!(
        output.fields.get("STREET").map(String::as_str),
        Some("MAIN")
    );
    assert_eq!(output.fields.get("TYPE").map(String::as_str), Some("ST"));
    assert_eq!(output.complement, "");
}

#[test]
fn test_class_comparator_filters_expected_groups() {
    let extractor = mock_extractor();
    let compiled = extractor
        .compile_pattern("<<CIVIC#>> <<STREET@>> <<TYPE>>")
        .expect("pattern should parse");
    let class_pattern = compiled.class_pattern(MatchMode::Whole).to_string();
    let class_regex = compiled
        .class_regex(MatchMode::Whole)
        .expect("class regex compiles");
    let captures = run_captures(
        &class_regex,
        "NUM ALPHA STREETTYPE",
        "class comparator",
        &class_pattern,
    )
    .expect("class regex runs")
    .unwrap_or_else(|| panic!("class comparator should match: {class_pattern}"));
    let groups = capture_groups("NUM ALPHA STREETTYPE", &captures);
    let filtered = filter_class_groups(&groups, compiled.class_segments());

    assert_eq!(
        groups,
        vec![
            Some("NUM".to_string()),
            Some("ALPHA".to_string()),
            Some("STREETTYPE".to_string()),
        ]
    );
    assert_eq!(
        filtered,
        Some(vec![
            Some("NUM".to_string()),
            Some("ALPHA".to_string()),
            Some("STREETTYPE".to_string()),
        ])
    );
}

#[test]
fn test_parse_tokens_matches_python_like_class_filter_case() {
    let mut extractor = mock_extractor();
    let tokens = vec!["TEST".to_string()];
    let classes = vec!["ALPHA".to_string()];
    let output = extractor
        .parse_tokens(
            "TEST",
            &tokens,
            &classes,
            "<<VAR[ALPHA|NUM]>>",
            MatchMode::Whole,
        )
        .expect("pattern should parse");

    assert_eq!(output.fields.get("VAR").map(String::as_str), Some("TEST"));
    assert_eq!(output.complement, "");
}

#[test]
fn test_parse_tokens_matches_python_like_optional_prefix_case() {
    let mut extractor = mock_extractor();
    let tokens = vec!["NS".to_string()];
    let classes = vec!["PROV".to_string()];
    let output = extractor
        .parse_tokens(
            "NS",
            &tokens,
            &classes,
            "<<MUN@+?#>> <<PROV::PROV>>",
            MatchMode::Whole,
        )
        .expect("pattern should parse");

    assert_eq!(output.fields.get("PROV").map(String::as_str), Some("NS"));
    assert_eq!(output.fields.get("MUN"), None);
    assert_eq!(output.complement, "");
}

#[test]
fn test_parse_tokens_matches_python_like_start_mode_prefix_case() {
    let mut extractor = mock_extractor();
    let tokens = vec![
        "123".to_string(),
        " ".to_string(),
        "MAIN".to_string(),
        " ".to_string(),
        "ST".to_string(),
        " ".to_string(),
        "EXTRA".to_string(),
    ];
    let classes = vec![
        "NUM".to_string(),
        " ".to_string(),
        "ALPHA".to_string(),
        " ".to_string(),
        "ALPHA".to_string(),
        " ".to_string(),
        "ALPHA".to_string(),
    ];
    let output = extractor
        .parse_tokens(
            "123 MAIN ST EXTRA",
            &tokens,
            &classes,
            "<<CIVIC#>> <<STREET@>>",
            MatchMode::Start,
        )
        .expect("pattern should parse");

    assert_eq!(output.fields.get("CIVIC").map(String::as_str), Some("123"));
    assert_eq!(
        output.fields.get("STREET").map(String::as_str),
        Some("MAIN")
    );
    assert_eq!(output.complement, "ST EXTRA");
}

#[test]
fn test_extractor_requires_percent_for_extended_alpha() {
    let mut extractor = load_extractor();
    let tokens = vec!["Jean-Paul".to_string()];
    let classes = vec!["ALPHA_EXTENDED".to_string()];

    let without_percent = extractor
        .parse_tokens("1", &tokens, &classes, "<<NAME@>>", MatchMode::Whole)
        .expect("pattern should parse");
    assert!(without_percent.fields.is_empty());

    let with_percent = extractor
        .parse_tokens("1", &tokens, &classes, "<<NAME@%>>", MatchMode::Whole)
        .expect("pattern should parse");
    assert_eq!(
        with_percent.fields.get("NAME").map(String::as_str),
        Some("Jean-Paul")
    );
}

#[test]
fn test_extractor_preserves_leading_space_in_complement() {
    let mut extractor = load_extractor();
    let output = extractor
        .parse_tokens(
            "1",
            &[" ".to_string(), "NS".to_string()],
            &[" ".to_string(), "PROV".to_string()],
            "<<PROV::PROV>>",
            MatchMode::Whole,
        )
        .expect("pattern should parse");

    assert_eq!(output.fields.get("PROV").map(String::as_str), Some("NS"));
    assert_eq!(output.complement, " ");
}

#[test]
fn test_extractor_handles_literal_quotes() {
    let mut extractor = load_extractor();
    let output = extractor
        .parse_tokens(
            "1",
            &[
                "NOAH".to_string(),
                " ".to_string(),
                "\"".to_string(),
                "AWESOME".to_string(),
                "\"".to_string(),
                " ".to_string(),
                "STEVENS".to_string(),
            ],
            &[
                "ALPHA".to_string(),
                " ".to_string(),
                "\"".to_string(),
                "ALPHA".to_string(),
                "\"".to_string(),
                " ".to_string(),
                "ALPHA".to_string(),
            ],
            "<<FIRST>> \"<<TITLE>>\" <<LAST>>",
            MatchMode::Whole,
        )
        .expect("pattern should parse");

    assert_eq!(output.fields.get("FIRST").map(String::as_str), Some("NOAH"));
    assert_eq!(
        output.fields.get("TITLE").map(String::as_str),
        Some("AWESOME")
    );
    assert_eq!(
        output.fields.get("LAST").map(String::as_str),
        Some("STEVENS")
    );
}

#[test]
fn texts_that_do_not_match_are_left_whole() {
    let mut extractor = mock_extractor();
    let output = extractor
        .parse_tokens_with_views("7", &["MAIN", " ", "ST"], &["ALPHA", " ", "ALPHA"], "<<N#>>", MatchMode::Whole)
        .expect("valid pattern");
    assert_eq!(output.uid, "7");
    assert!(output.fields.is_empty());
    assert_eq!(output.complement, "MAIN ST");
}

#[test]
fn a_pattern_gives_the_same_compiled_or_not() {
    let tokens = ["12", " ", "MAIN", " ", "X"];
    let classes = ["NUM", " ", "ALPHA", " ", "ALPHA"];
    let pattern = "<<CIVIC#>> <<STREET@+>>";
    for mode in [MatchMode::Whole, MatchMode::Start, MatchMode::End, MatchMode::Any] {
        let mut extractor = mock_extractor();
        let compiled = extractor.compile_pattern(pattern).expect("valid pattern");
        let direct = extractor
            .parse_tokens_with_views("1", &tokens, &classes, pattern, mode)
            .expect("extracts");
        let again = extractor
            .parse_compiled_tokens_with_views("1", &tokens, &classes, &compiled, mode)
            .expect("extracts");
        assert_eq!(direct.fields.entries(), again.fields.entries());
        assert_eq!(direct.complement, again.complement);
    }
}

#[test]
fn caches_do_not_change_what_is_extracted() {
    let small = ExtractorConfig {
        compiled_pattern_cache_capacity: 0,
        object_plan_cache_capacity: 1,
        fallback_regex_cache_capacity: 0,
    };
    let mut cached = mock_extractor();
    let mut uncached = Extractor::new_with_config(definitions(), classes(), small);
    for (text, pattern) in [
        ("12 MAIN ST", "<<CIVIC#>> <<STREET@+>> <<TYPE::STREETTYPE>>"),
        ("12 OLD MILL", "<<CIVIC#>> <<REST@+?>>"),
        (" MAIN", "<<NAME@>>"),
        ("12 MAIN ST", "<<CIVIC#>> <<STREET@+>> <<TYPE::STREETTYPE>>"),
    ] {
        let (uid, fields, rest) = cached.parse_string(text, pattern).expect("extracts");
        let (other_uid, other_fields, other_rest) =
            uncached.parse_string(text, pattern).expect("extracts");
        assert_eq!(uid, other_uid);
        assert_eq!(fields.entries(), other_fields.entries());
        assert_eq!(rest, other_rest);
    }
    let stats = uncached.stats().expect("stats");
    assert_eq!(stats.compiled_pattern_cache.len, 0);
    assert_eq!(stats.compiled_pattern_cache.misses, 4);
    assert_eq!(stats.compiled_pattern_cache.inserts, 0);
    assert_eq!(stats.object_plan_cache.len, 1);
    assert!(stats.object_plan_cache.evictions > 0);
    let stats = cached.stats().expect("stats");
    assert_eq!(stats.compiled_pattern_cache.hits, 1);
    assert_eq!(stats.compiled_pattern_cache.misses, 3);
    assert_eq!(stats.compiled_pattern_cache.len, 3);
    assert_eq!(stats.compiled_pattern_cache.capacity, 512);
}

#[test]
fn strings_are_tokenized_and_extracted() {
    let mut extractor = mock_extractor();
    let (uid, fields, rest) = extractor
        .parse_string("123 MAIN ST", "<<CIVIC#>> <<STREET@>> <<TYPE::STREETTYPE>>")
        .expect("extracts");
    assert_eq!(uid, "123 MAIN ST");
    assert_eq!(
        fields.entries(),
        &[
            ("CIVIC".to_string(), "123".to_string()),
            ("STREET".to_string(), "MAIN".to_string()),
            ("TYPE".to_string(), "ST".to_string()),
        ]
    );
    assert_eq!(rest, "");
}

#[test]
fn several_tokens_go_into_one_field() {
    let mut extractor = mock_extractor();
    let (_, fields, rest) = extractor
        .parse_string("12 OLD MILL ST", "<<CIVIC#>> <<STREET@+>> <<TYPE::STREETTYPE>>")
        .expect("extracts");
    assert_eq!(field(&fields, "CIVIC"), Some("12"));
    assert_eq!(field(&fields, "STREET"), Some("OLD MILL"));
    assert_eq!(field(&fields, "TYPE"), Some("ST"));
    assert_eq!(rest, "");
}

#[test]
fn a_field_named_twice_takes_both_values() {
    let mut extractor = mock_extractor();
    let (_, fields, _) = extractor
        .parse_string("12 MAIN", "<<A#>> <<A@>>")
        .expect("extracts");
    assert_eq!(field(&fields, "A"), Some("12 MAIN"));
    assert_eq!(fields.len(), 1);
}

#[test]
fn a_match_anywhere_leaves_both_sides() {
    let mut extractor = mock_extractor();
    let output = extractor
        .parse_tokens_with_views(
            "1",
            &["UNIT", " ", "5", " ", "MAIN"],
            &["ALPHA", " ", "NUM", " ", "ALPHA"],
            "<<N#>>",
            MatchMode::Any,
        )
        .expect("extracts");
    assert_eq!(field(&output.fields, "N"), Some("5"));
    assert_eq!(output.complement, "UNIT  MAIN");

    let output = extractor
        .parse_tokens_with_views(
            "1",
            &["UNIT", " ", "5", " ", "6"],
            &["ALPHA", " ", "NUM", " ", "NUM"],
            "<<N#+$>>",
            MatchMode::Any,
        )
        .expect("extracts");
    assert_eq!(field(&output.fields, "N"), Some("5 6"));
    assert_eq!(output.complement, "UNIT ");
}

#[test]
fn a_match_of_one_space_is_none() {
    let mut extractor = mock_extractor();
    let output = extractor
        .parse_tokens_with_views(
            "1",
            &["UNIT", " ", "5", " ", "6"],
            &["ALPHA", " ", "NUM", " ", "NUM"],
            "<<N#+>>",
            MatchMode::Any,
        )
        .expect("extracts");
    assert!(output.fields.is_empty());
    assert_eq!(output.complement, "UNIT 5 6");
}

#[test]
fn vanishing_groups_fill_no_field() {
    let mut extractor = mock_extractor();
    let output = extractor
        .parse_tokens_with_views(
            "1",
            &["HALIFAX", " ", "NS"],
            &["ALPHA", " ", "PROV"],
            "<<CITY@>> <!PROV!>",
            MatchMode::Whole,
        )
        .expect("extracts");
    assert_eq!(
        output.fields.entries(),
        &[("CITY".to_string(), "HALIFAX".to_string())]
    );
    assert_eq!(output.complement, "NS");
}

#[test]
fn vanishing_groups_require_their_class() {
    let mut extractor = Extractor::new(vec![], vec![]);
    let tokens: Vec<String> = ["OTTAWA", " ", "MAIN"].iter().map(|t| t.to_string()).collect();
    let classes: Vec<String> = ["ALPHA", " ", "ALPHA"].iter().map(|c| c.to_string()).collect();
    let output = extractor
        .parse_tokens("1", &tokens, &classes, "<<CITY@>> <!PROV!>", MatchMode::Whole)
        .expect("extracts");
    assert!(output.fields.is_empty());
    assert_eq!(output.complement, "OTTAWA MAIN");

    let classes: Vec<String> = ["ALPHA", " ", "PROV"].iter().map(|c| c.to_string()).collect();
    let output = extractor
        .parse_tokens("1", &tokens, &classes, "<<CITY@>> <!PROV!>", MatchMode::Whole)
        .expect("extracts");
    assert_eq!(field(&output.fields, "CITY"), Some("OTTAWA"));
    assert_eq!(output.complement, "MAIN");
}

#[test]
fn invalid_patterns_are_told() {
    let mut extractor = mock_extractor();
    match extractor.parse_string("12", "<<N[]>>") {
        Err(ParseError::InvalidPattern(message)) => {
            assert_eq!(message, "class constraint cannot be empty");
        }
        _ => panic!("the pattern should be refused"),
    }
    match extractor.parse_string("12", "<<A::*>>") {
        Err(ParseError::InvalidPattern(message)) => {
            assert!(message.starts_with("error compiling class comparator '^"));
        }
        _ => panic!("the expression should be refused"),
    }
    let mut bad = Extractor::new(vec![("N".to_string(), "*".to_string())], Vec::new());
    assert!(matches!(
        bad.parse_string("12", "<<N#>>"),
        Err(ParseError::InvalidTokenDefinition(_))
    ));
    match bad.parse_tokens_with_views("1", &[" ", "5"], &[" ", "N"], "<<A::N>>", MatchMode::Whole) {
        Err(ParseError::InvalidPattern(message)) => {
            assert!(message.starts_with("error compiling object comparator '^"));
        }
        other => panic!("{other:?}"),
    }
}

#[test]
fn steps_and_expressions_are_counted() {
    let mut extractor = mock_extractor();
    extractor
        .parse_tokens_with_views("1", &["5"], &["NUM"], "<<A#>>", MatchMode::Whole)
        .expect("extracts");
    extractor
        .parse_tokens_with_views("1", &["5", " ", "6"], &["NUM", " ", "NUM"], "<<A#+>>", MatchMode::Whole)
        .expect("extracts");
    extractor
        .parse_tokens_with_views("1", &["X"], &["ALPHA"], "<<A#>>", MatchMode::Whole)
        .expect("extracts");
    let stats = extractor.stats().expect("stats");
    assert_eq!(stats.direct_execution_attempts, 2);
    assert_eq!(stats.direct_execution_hits, 1);
    assert_eq!(stats.fallback_execution_count, 1);
    assert_eq!(stats.fallback_regex_realizations, 1);
    assert_eq!(stats.unique_plan_signature_count, 2);
    assert_eq!(stats.direct_only_plan_count, 1);
    assert_eq!(stats.with_fallback_plan_count, 1);
    assert_eq!(stats.total_plan_steps, 2);
    assert_eq!(stats.single_token_step_count, 1);
    assert_eq!(stats.captured_span_step_count, 1);
    assert_eq!(stats.literal_step_count, 0);
    assert_eq!(stats.profiled_rows, 0);
    assert_eq!(stats.profile_total_ns, 0);
}

#[test]
fn profiling_measures_rows() {
    let mut extractor = mock_extractor();
    extractor.set_profiling(true);
    extractor
        .parse_tokens_with_views("1", &["5"], &["NUM"], "<<A#>>", MatchMode::Whole)
        .expect("extracts");
    assert!(extractor.parse_string("5", "<<A::*>>").is_err());
    extractor.set_profiling(false);
    extractor
        .parse_tokens_with_views("1", &["5"], &["NUM"], "<<A#>>", MatchMode::Whole)
        .expect("extracts");
    let stats = extractor.stats().expect("stats");
    assert_eq!(stats.profiled_rows, 1);
    assert!(stats.profile_total_ns > 0);
}

#[test]
fn defaults_are_known() {
    let config = ExtractorConfig::default();
    assert_eq!(config.compiled_pattern_cache_capacity, 512);
    assert_eq!(config.object_plan_cache_capacity, 2048);
    assert_eq!(config.fallback_regex_cache_capacity, 2048);
    assert_eq!(mock_extractor().config(), config);
}

#[test]
fn groups_are_made_non_capturing() {
    assert_eq!(make_non_capturing(r"(a)(?:b)\((?P<n>c)(?=d)"), r"(?:a)(?:b)\((?:c)(?=d)");
    assert_eq!(make_non_capturing(r"(?P<open"), "(?:");
    for pattern in ["((x)(?P<y>z))", r"\\(a", "(", r"(\)"] {
        assert_eq!(count_capturing_groups(&make_non_capturing(pattern)), 0);
    }
}

#[test]
fn object_patterns_have_exact_forms() {
    assert_eq!(build_object_pattern("x", MatchMode::Whole, Some(3)), "^x$");
    assert_eq!(build_object_pattern("x", MatchMode::Any, None), "x");
    assert_eq!(build_object_pattern("x", MatchMode::Any, Some(0)), "(?s)^x(?:.*)$");
    assert_eq!(
        build_object_pattern("x", MatchMode::Any, Some(120)),
        "(?s)^(?:.{120})x(?:.*)$"
    );
}

#[test]
fn spans_leave_over_what_they_do_not_cover() {
    assert_eq!(get_complement_of_spans("abcdef", &vec![]), "abcdef");
    assert_eq!(get_complement_of_spans("abcdef", &vec![(4, 5), (0, 2), (1, 3)]), "df");
    assert_eq!(get_complement_of_spans("abcdef", &vec![(0, 6)]), "");
    assert_eq!(get_complement_of_spans("Éab", &vec![(0, 2)]), "ab");
}

#[test]
fn groups_leave_over_what_stands_outside() {
    let whole = Some((0, 6));
    assert_eq!(
        get_complement_of_captured_groups("abcdef", &vec![whole, Some((4, 5)), None, Some((0, 2))]),
        Some("cdf".to_string())
    );
    assert_eq!(
        get_complement_of_captured_groups("abcdef", &vec![whole, Some((0, 4)), Some((1, 2))]),
        Some("cdef".to_string())
    );
    assert_eq!(
        get_complement_of_captured_groups("Éa", &vec![whole, Some((0, 1))]),
        None
    );
    assert_eq!(
        get_complement_of_captured_groups("ab", &vec![]),
        Some("ab".to_string())
    );
}

#[test]
fn class_matches_are_read() {
    let compiled = CompiledPattern::compile("<<A#>> <<B@>>").expect("valid pattern");
    let found = vec![Some((0, 9)), Some((0, 3)), Some((4, 9))];
    let told = read_class_match(
        &[" ", "12", " ", "X"],
        &[" ", "NUM", " ", "ALPHA"],
        compiled.class_segments(),
        MatchMode::Any,
        &found,
    )
    .expect("no group is a space");
    assert_eq!(
        told.captured,
        vec![Some("NUM".to_string()), Some("ALPHA".to_string())]
    );
    assert_eq!(told.prefix, Some(1));
    assert_eq!(told.range, Some((1, 4)));
    assert!(told.has_whole_match);

    assert!(read_class_match(
        &["1", " "],
        &["NUM", " "],
        compiled.class_segments(),
        MatchMode::Whole,
        &vec![Some((0, 3)), Some((0, 3)), None],
    )
    .is_some());
    assert!(read_class_match(
        &["1", " ", "2"],
        &["NUM", " ", "NUM"],
        compiled.class_segments(),
        MatchMode::Whole,
        &vec![Some((0, 7)), Some((3, 4))],
    )
    .is_none());
}

#[test]
fn object_groups_fill_fields() {
    let names = vec!["A".to_string(), "B".to_string(), "A".to_string(), "C".to_string()];
    let fields = read_fields(
        "12 X 34",
        &names,
        &vec![Some((0, 7)), Some((0, 3)), None, Some((5, 7))],
    );
    assert_eq!(fields.entries(), &[("A".to_string(), "12 34".to_string())]);
}

#[test]
fn fields_keep_their_order() {
    let mut fields = FieldMap::new();
    assert!(fields.is_empty());
    fields.append("b", "1");
    fields.append("a", "2");
    fields.append("b", "3");
    fields.append("c", "");
    assert_eq!(fields.len(), 2);
    assert_eq!(fields.get("b").map(String::as_str), Some("1 3"));
    assert_eq!(fields.get("c"), None);
    assert_eq!(fields.clone().entries()[1], ("a".to_string(), "2".to_string()));
}

#[test]
fn the_street_address_is_taken_apart() {
    let definitions = vec![
        ("NUM".to_string(), r"\d+".to_string()),
        ("ALPHA".to_string(), r"[A-Z]+".to_string()),
        ("ALPHA_EXTENDED".to_string(), r"[A-Z][A-Z'\\-]*".to_string()),
    ];
    let mut extractor = Extractor::new(definitions, classes());
    let (_, fields, complement) = extractor
        .parse_string("123 MAIN ST", "<<CIVIC#>> <<NAME@+>> <<TYPE::STREETTYPE>>")
        .expect("extracts");
    assert_eq!(field(&fields, "CIVIC"), Some("123"));
    assert_eq!(field(&fields, "NAME"), Some("MAIN"));
    assert_eq!(field(&fields, "TYPE"), Some("ST"));
    assert_eq!(complement, "");
}

#[test]
fn literal_blocks_match_as_a_unit() {
    let definitions = vec![("NUM".to_string(), r"\d+".to_string())];
    let mut extractor = Extractor::new(definitions, Vec::new());
    let (_, fields, _) = extractor
        .parse_string("PO BOX 99", "{{PO BOX}} <<BOXNUM#>>")
        .expect("extracts");
    assert_eq!(
        fields.entries(),
        &[("BOXNUM".to_string(), "99".to_string())]
    );
    let stats = extractor.stats().expect("stats");
    assert_eq!(stats.literal_step_count, 1);
}

#[test]
fn city_province_and_postal_code_are_taken_apart() {
    let definitions = vec![
        ("ALPHA".to_string(), r"[A-Z]+".to_string()),
        ("PCODE".to_string(), r"[A-Z]\d[A-Z]\d[A-Z]\d".to_string()),
    ];
    let classes = vec![(
        "PROV".to_string(),
        vec!["ON".to_string(), "NS".to_string()],
    )];
    let mut extractor = Extractor::new(definitions, classes);
    let (_, fields, complement) = extractor
        .parse_string("OTTAWA ON K1A0B1", "<<CITY@+$>> <<PROV::PROV>> <<PC::PCODE>>")
        .expect("extracts");
    assert_eq!(field(&fields, "CITY"), Some("OTTAWA"));
    assert_eq!(field(&fields, "PROV"), Some("ON"));
    assert_eq!(field(&fields, "PC"), Some("K1A0B1"));
    assert_eq!(complement, "");
}

#[test]
fn fields_are_trimmed_captures() {
    let mut extractor = mock_extractor();
    let output = extractor
        .parse_tokens_with_views(
            "1",
            &["12", "  ", "OLD", " ", "MILL", " ", "ST", " "],
            &["NUM", "  ", "ALPHA", " ", "ALPHA", " ", "STREETTYPE", " "],
            "<<CIVIC#>> <<STREET@+>> <!STREETTYPE!>",
            MatchMode::Whole,
        )
        .expect("extracts");
    let names: Vec<&str> = output.fields.entries().iter().map(|(name, _)| name.as_str()).collect();
    assert_eq!(names, vec!["CIVIC", "STREET"]);
    for (_, value) in output.fields.entries() {
        assert!(!value.is_empty());
        assert_eq!(value.trim(), value);
    }
}

#[test]
fn spans_and_what_they_leave_make_up_the_length() {
    let text = "héllo wörld";
    let spans = vec![(0, 3), (7, 10)];
    let covered: usize = spans.iter().map(|(from, to)| to - from).sum();
    assert_eq!(get_complement_of_spans(text, &spans).len() + covered, text.len());
}

#[test]
fn outputs_compare_by_value() {
    let mut a = FieldMap::new();
    a.append("x", "1");
    a.append("y", "2");
    let mut b = FieldMap::new();
    b.append("y", "2");
    assert!(a != b);
    b.append("x", "1");
    assert!(a == b);
    b.append("x", "3");
    assert!(a != b);
}

#[test]
fn every_entry_point_gives_the_same() {
    let tokens: Vec<String> = ["42", " ", "MAIN", " ", "ST"]
        .iter()
        .map(|token| token.to_string())
        .collect();
    let views: Vec<&str> = tokens.iter().map(String::as_str).collect();
    let class_views = ["NUM", " ", "ALPHA", " ", "STREETTYPE"];
    let class_list: Vec<String> = class_views.iter().map(|class| class.to_string()).collect();
    let pattern = "<<CIVIC#>> <<NAME@>> <<TYPE::STREETTYPE>>";
    let compiled = mock_extractor().compile_pattern(pattern).expect("valid pattern");

    let mut extractor = mock_extractor();
    let expected = extractor
        .parse_tokens("9", &tokens, &class_list, pattern, MatchMode::Whole)
        .expect("extraction should succeed");
    assert_eq!(field(&expected.fields, "CIVIC"), Some("42"));
    assert_eq!(field(&expected.fields, "NAME"), Some("MAIN"));
    assert_eq!(field(&expected.fields, "TYPE"), Some("ST"));

    let outputs = [
        extractor.parse_tokens_with_classes("9", &tokens, &class_views, pattern, MatchMode::Whole),
        extractor.parse_tokens_with_views("9", &views, &class_views, pattern, MatchMode::Whole),
        extractor.parse_compiled_tokens("9", &tokens, &class_list, &compiled, MatchMode::Whole),
        extractor.parse_compiled_tokens_with_classes(
            "9",
            &tokens,
            &class_views,
            &compiled,
            MatchMode::Whole,
        ),
        extractor.parse_compiled_tokens_with_views(
            "9",
            &views,
            &class_views,
            &compiled,
            MatchMode::Whole,
        ),
    ];
    for output in outputs {
        assert!(output.expect("extraction should succeed") == expected);
    }
}

#[test]
fn literal_blocks_are_cut_without_loss() {
    for pattern in ["{{Unit}} <<UNIT#?>>", "{{a b}}{{<<}}<<A>>", "A {{}} <!B!>", "<<A\\(>>"] {
        assert_eq!(split_parse_tokens(pattern).concat(), pattern);
    }
    assert_eq!(split_parse_tokens("A{{b}}"), vec!["{{b}}"]);
}

#[test]
fn groups_of_closed_patterns_add_up() {
    let parts = ["(ALPHA)", r"\(", "(?:NUM)", "(A(B))", r"\\(C)"];
    let mut total = 0;
    let mut whole = String::new();
    for part in parts {
        total += count_capturing_groups(part);
        whole.push_str(part);
    }
    assert_eq!(total, 4);
    assert_eq!(count_capturing_groups(&whole), total);
}

#[test]
fn stages_that_are_not_reached_take_no_time() {
    let mut extractor = mock_extractor();
    extractor.set_profiling(true);
    extractor
        .parse_tokens_with_views("1", &["MAIN"], &["ALPHA"], "<<A#>>", MatchMode::Whole)
        .expect("extracts");
    let unmatched = extractor.stats().expect("stats");
    assert_eq!(unmatched.profiled_rows, 1);
    assert_eq!(unmatched.profile_offset_work_ns, 0);
    assert_eq!(unmatched.profile_object_join_ns, 0);
    assert_eq!(unmatched.profile_direct_execution_ns, 0);
    assert_eq!(unmatched.profile_fallback_regex_ns, 0);

    extractor
        .parse_tokens_with_views("2", &["5"], &["NUM"], "<<A#>>", MatchMode::Whole)
        .expect("extracts");
    let matched = extractor.stats().expect("stats");
    assert_eq!(matched.direct_execution_hits, 1);
    assert_eq!(matched.profiled_rows, 2);
    assert_eq!(matched.profile_fallback_regex_ns, 0);
    assert!(matched.profile_total_ns >= unmatched.profile_total_ns);

    extractor.set_profiling(false);
    let after = extractor.stats().expect("stats");
    assert_eq!(after.profile_total_ns, matched.profile_total_ns);
}

#[test]
fn statistics_add_up() {
    let mut extractor = Extractor::new_with_config(
        definitions(),
        classes(),
        ExtractorConfig {
            compiled_pattern_cache_capacity: 2,
            object_plan_cache_capacity: 3,
            fallback_regex_cache_capacity: 0,
        },
    );
    for (text, pattern) in [
        ("12 MAIN ST", "<<C#>> <<N@>> <<T::STREETTYPE>>"),
        ("12 OLD MILL", "<<C#>> <<N@+>>"),
        (" 12 X", "<<C#>> <<N@>>"),
        ("UNIT 5", "{{UNIT}} <<N#>>"),
        ("12", "<<C#>> <<N@?>>"),
        ("MAIN", "<<C#>>"),
    ] {
        extractor.parse_string(text, pattern).expect("extracts");
        let stats = extractor.stats().expect("stats");
        assert_eq!(
            stats.direct_only_plan_count + stats.with_fallback_plan_count,
            stats.unique_plan_signature_count
        );
        assert_eq!(stats.unique_plan_signature_count, stats.object_plan_cache.len);
        assert_eq!(
            stats.total_plan_steps,
            stats.single_token_step_count
                + stats.captured_span_step_count
                + stats.literal_step_count
        );
        assert!(stats.direct_execution_hits <= stats.direct_execution_attempts);
        assert_eq!(stats.compiled_pattern_cache.capacity, 2);
        assert!(stats.compiled_pattern_cache.len <= 2);
        assert_eq!(stats.object_plan_cache.capacity, 3);
        assert!(stats.object_plan_cache.len <= 3);
        assert_eq!(stats.fallback_regex_cache.capacity, 0);
        assert_eq!(stats.fallback_regex_cache.len, 0);
    }
}

#[test]
fn entry_points_fail_together() {
    let mut extractor = mock_extractor();
    let pattern = "<<A::*>>";
    let compiled = extractor.compile_pattern(pattern).expect("valid pattern");
    let by_text =
        extractor.parse_tokens_with_views("1", &["5"], &["NUM"], pattern, MatchMode::Whole);
    let by_compiled = extractor.parse_compiled_tokens_with_views(
        "1",
        &["5"],
        &["NUM"],
        &compiled,
        MatchMode::Whole,
    );
    match (by_text, by_compiled) {
        (Err(a), Err(b)) => assert_eq!(a.message(), b.message()),
        _ => panic!("both should fail"),
    }
}

#[test]
fn complements_are_what_no_span_covers() {
    let text = "héllo wörld";
    for spans in [
        vec![],
        vec![(7, 10), (0, 3)],
        vec![(0, 7), (3, 5), (4, 10)],
        vec![(5, 5), (0, 13)],
        vec![(4, 6), (4, 6), (1, 4)],
    ] {
        let expected: Vec<u8> = text
            .bytes()
            .enumerate()
            .filter(|(at, _)| !spans.iter().any(|&(from, to)| from <= *at && *at < to))
            .map(|(_, byte)| byte)
            .collect();
        assert_eq!(get_complement_of_spans(text, &spans).into_bytes(), expected);
    }
}
