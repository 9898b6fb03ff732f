use tokmat::error::ParseError;
use tokmat::token_model::{
    anchor_definition, parse_class_values, parse_token_definitions, StringHashSet, TokenModel,
};
use tokmat::tokenizer::{
    check_and_tokenize, get_token_fast_classifier, split_at_boundaries, split_input_tokens, tokenize_and_classify,
    tokenize_with_model, try_split_input_tokens, try_tokenize_and_classify, type_from_verdicts,
    TokenClassList, TokenDefinition,
};

fn names(list: &[&str]) -> StringHashSet {
    let mut set = StringHashSet::new();
    for name in list {
        set.insert((*name).to_string());
    }
    set
}

fn definitions() -> TokenDefinition {
    vec![
        ("NUM".to_string(), r"^\d+$".to_string()),
        ("ALPHA".to_string(), "[A-Z]+".to_string()),
        ("DASHES".to_string(), "^-+".to_string()),
        ("ACCENTED".to_string(), r"^\w+$".to_string()),
    ]
}

fn classes() -> TokenClassList {
    vec![
        (
            "STREETTYPE".to_string(),
            vec!["ST".to_string(), "AVE".to_string(), "ST".to_string()],
        ),
        ("SAINT".to_string(), vec!["ST".to_string()]),
        ("BLANK".to_string(), vec![" ".to_string()]),
    ]
}

#[test]
fn test_split_input_tokens_preserves_extended_boundaries() {
    assert_eq!(
        split_input_tokens("123 MAIN ST"),
        vec!["123", " ", "MAIN", " ", "ST"]
    );
    assert_eq!(
        split_input_tokens("APT-210 O'CONNOR"),
        vec!["APT-210", " ", "O'CONNOR"]
    );
    assert_eq!(
        split_input_tokens("WORD--ANOTHER...END"),
        vec!["WORD--ANOTHER", "...", "END"]
    );
}

#[test]
fn test_tokenizer_keeps_extended_word_boundaries() {
    assert_eq!(
        split_input_tokens("APT-210 O'CONNOR"),
        vec!["APT-210", " ", "O'CONNOR"]
    );
}

#[test]
fn test_get_token_fast_classifier_handles_common_shapes() {
    let names = names(&[
        "NUM",
        "ALPHA",
        "POSTALCODE",
        "ALPHA_EXTENDED",
        "ALPHA_NUM_EXTENDED",
    ]);
    assert_eq!(
        get_token_fast_classifier("123", &names),
        Some("NUM".to_string())
    );
    assert_eq!(
        get_token_fast_classifier("MAIN", &names),
        Some("ALPHA".to_string())
    );
    assert_eq!(
        get_token_fast_classifier("K1A0B1", &names),
        Some("POSTALCODE".to_string())
    );
    assert_eq!(
        get_token_fast_classifier("O'CONNOR", &names),
        Some("ALPHA_EXTENDED".to_string())
    );
    assert_eq!(
        get_token_fast_classifier("APT-210", &names),
        Some("ALPHA_NUM_EXTENDED".to_string())
    );
}

#[test]
fn shapes_without_a_name_are_not_told() {
    let none = names(&[]);
    for token in ["123", "MAIN", "K1A0B1", "1-2", "A-B", "A1", ""] {
        assert_eq!(get_token_fast_classifier(token, &none), None);
    }
    let some = names(&["NUM_EXTENDED", "ALPHA_NUM", "POSTALCODE"]);
    assert_eq!(
        get_token_fast_classifier("12-3", &some),
        Some("NUM_EXTENDED".to_string())
    );
    assert_eq!(get_token_fast_classifier("--", &some), None);
    assert_eq!(
        get_token_fast_classifier("A1", &some),
        Some("ALPHA_NUM".to_string())
    );
    assert_eq!(get_token_fast_classifier("A-1", &some), None);
    assert_eq!(
        get_token_fast_classifier("K1A_0-B1", &some),
        Some("POSTALCODE".to_string())
    );
    assert_eq!(get_token_fast_classifier("É1", &some), None);
}

#[test]
fn tokens_make_the_text() {
    for text in ["", " ", "12 Élan, St.\u{a0}Jean", "--'", "日本 x"] {
        let tokens = split_input_tokens(text);
        assert_eq!(tokens.concat(), text);
        assert!(tokens.iter().all(|token| !token.is_empty()));
    }
    assert_eq!(
        split_input_tokens("Élan, x"),
        vec!["Élan", ", ", "x"]
    );
}

#[test]
fn cuts_inside_characters_or_backwards_are_passed_over() {
    assert_eq!(split_at_boundaries("Éa b", &[0, 1, 3, 2, 9]), vec!["Éa", " b"]);
    assert_eq!(split_at_boundaries("", &[0]), Vec::<String>::new());
}

#[test]
fn definitions_are_anchored() {
    assert_eq!(anchor_definition("^a$"), "^a$");
    assert_eq!(anchor_definition("a"), "^a$");
    assert_eq!(anchor_definition("^^a"), "^a$");
    assert_eq!(anchor_definition("a$$"), "^a$");
    assert_eq!(anchor_definition("^"), "^$");
}

#[test]
fn types_and_classes_are_told() {
    let classes = classes();
    let result = tokenize_and_classify("12 ST AVE -- été X", &definitions(), Some(&classes));
    assert_eq!(result.raw_value, "12 ST AVE -- été X");
    assert_eq!(
        result.tokens,
        vec!["12", " ", "ST", " ", "AVE", " ", "--", " ", "été", " ", "X"]
    );
    assert_eq!(
        result.types,
        vec!["NUM", " ", "ALPHA", " ", "ALPHA", " ", "DASHES", " ", "ACCENTED", " ", "ALPHA"]
    );
    assert_eq!(
        result.classes,
        vec![
            "NUM",
            " ",
            "STREETTYPE|SAINT",
            " ",
            "STREETTYPE",
            " ",
            "DASHES",
            " ",
            "ACCENTED",
            " ",
            "ALPHA"
        ]
    );
    assert!(tokenize_and_classify("12", &definitions(), None)
        .classes
        .is_empty());

    let model = TokenModel::try_from_parts(definitions(), classes.clone()).expect("valid model");
    assert_eq!(
        tokenize_with_model("12 ST AVE -- été X", &model),
        result
    );
    assert_eq!(model.token_definitions(), &definitions());
    assert_eq!(model.token_class_list(), &classes);
    assert_eq!(model.compiled_patterns().len(), 4);
    assert_eq!(model.compiled_patterns()[2].1.as_str(), "^-+$");
    assert!(model.available_names().contains("DASHES"));
    assert!(!model.available_names().contains("ST"));
    assert_eq!(
        model.token_class_lookup().get("ST").map(String::as_str),
        Some("STREETTYPE|SAINT")
    );
    assert!(model.token_class_lookup().get("X").is_none());
}

#[test]
fn refused_definitions_are_told() {
    let bad = vec![
        ("NUM".to_string(), r"^\d+$".to_string()),
        ("BAD".to_string(), "(".to_string()),
    ];
    match try_tokenize_and_classify("12", &bad, None) {
        Err(ParseError::InvalidTokenDefinition(message)) => {
            assert!(message.starts_with("error compiling token definition '^($': "));
        }
        _ => panic!("an unbalanced bracket should be refused"),
    }
    assert!(check_and_tokenize("12", &bad, None).is_err());
    assert!(TokenModel::try_from_parts(bad, Vec::new()).is_err());
    let model = TokenModel::from_parts(definitions(), Vec::new());
    assert_eq!(tokenize_with_model("7", &model).types, vec!["NUM"]);
}

#[test]
fn verdicts_decide_where_the_shape_does_not() {
    let definitions = definitions();
    let names = names(&["NUM", "ALPHA", "DASHES", "ACCENTED"]);
    let verdict = |token: &str, verdicts: [Option<bool>; 4]| {
        type_from_verdicts(token, &definitions, &names, &verdicts)
    };
    assert_eq!(verdict("!", [None, None, Some(true), Some(true)]), "DASHES");
    assert_eq!(verdict("!", [None, Some(false), None, Some(true)]), "ACCENTED");
    assert_eq!(verdict("!", [None; 4]), "!");
    assert_eq!(verdict("A", [Some(true); 4]), "ALPHA");
}

#[test]
fn model_files_are_read() {
    let definitions = parse_token_definitions(
        "# comment\r\n<NAME>NUM</NAME><VALUE>^\\d+$</VALUE>\r\n\n  <VALUE>x</VALUE> <NAME>B</NAME>\n<NAME>C</NAME>\n<NAME>D<VALUE>y</VALUE></NAME>",
    );
    assert_eq!(
        definitions,
        vec![
            ("NUM".to_string(), "^\\d+$".to_string()),
            ("B".to_string(), "x".to_string()),
            ("D<VALUE>y</VALUE>".to_string(), "y".to_string()),
        ]
    );
    assert_eq!(
        parse_class_values("ST\n# no\n  AVE \r\n\nST\n"),
        vec!["ST", "AVE", "ST"]
    );
}

#[test]
fn fallible_forms_agree_with_the_others() {
    let model = TokenModel::try_from_parts(definitions(), classes()).expect("valid model");
    for text in ["", " ", "12 ST", "O'CONNOR--x, été 7", "\u{2003}AVE"] {
        let tokens = try_split_input_tokens(text).expect("the word edges are found");
        assert_eq!(tokens, split_input_tokens(text));
        let result = try_tokenize_and_classify(text, &definitions(), Some(&classes()))
            .expect("the definitions are valid");
        assert_eq!(result.tokens, tokens);
        assert_eq!(result, tokenize_and_classify(text, &definitions(), Some(&classes())));
        assert_eq!(result, tokenize_with_model(text, &model));
        let checked = check_and_tokenize(text, &definitions(), Some(&classes()))
            .expect("the definitions are valid");
        assert_eq!(result, checked);
    }
}

#[test]
fn tokens_of_ascii_texts_are_words_and_gaps() {
    let is_word = |c: char| c.is_ascii_alphanumeric() || c == '_' || c == '-' || c == '\'';
    let every: String = (0u8..128).map(char::from).collect();
    for text in [
        "",
        "a",
        " ",
        "a b",
        "--x_1'..,\t\nA",
        "12 MAIN ST.",
        "\0a\0",
        "a\r\nb\x7f",
        every.as_str(),
    ] {
        let mut expected: Vec<String> = Vec::new();
        for c in text.chars() {
            match expected.last_mut() {
                Some(last) if last.chars().next().map(is_word) == Some(is_word(c)) => last.push(c),
                _ => expected.push(c.to_string()),
            }
        }
        assert_eq!(split_input_tokens(text), expected);
    }
}
