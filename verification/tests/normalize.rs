use tokmat::normalize::{
    collapse_spaces, is_combining, keep_capitals_and_digits, normalize_loose, normalize_value,
    remove_marks, strip_accents, to_upper, tokenize_loose, Category,
};

#[test]
fn test_normalize_value() {
    assert_eq!(normalize_value("  Main   St  "), "MAIN ST");
    assert_eq!(normalize_value("ottawa"), "OTTAWA");
}

#[test]
fn test_strip_accents() {
    assert_eq!(strip_accents("Sainte-Thérèse"), "Sainte-Therese");
    assert_eq!(strip_accents("Riviere-du-Loup"), "Riviere-du-Loup");
    assert_eq!(strip_accents("L'Ile-Bizard"), "L'Ile-Bizard");
}

#[test]
fn test_normalize_loose() {
    assert_eq!(normalize_loose("Sainte-Thérèse"), "SAINTE THERESE");
    assert_eq!(normalize_loose("RUE DE L'EGLISE"), "RUE DE L EGLISE");
}

#[test]
fn test_tokenize_loose() {
    assert_eq!(tokenize_loose("Sainte-Thérèse"), vec!["SAINTE", "THERESE"]);
    assert_eq!(tokenize_loose("123 Main St."), vec!["123", "MAIN", "ST"]);
}

#[test]
fn loose_tokens_joined_are_the_loose_form() {
    for value in ["", "   ", "Île-des-Sœurs", "\u{a0}No. 5\tBlvd  St-Jean"] {
        assert_eq!(tokenize_loose(value).join(" "), normalize_loose(value));
    }
}

#[test]
fn loose_form_is_plain() {
    let loose = normalize_loose("Ça coûte 3½ €, n'est-ce pas?");
    assert!(loose
        .chars()
        .all(|c| c.is_ascii_uppercase() || c.is_ascii_digit() || c == ' '));
    assert_eq!(loose, "CA COUTE 31 2 N EST CE PAS");
}

#[test]
fn spacing_twice_is_spacing_once() {
    let once = collapse_spaces(" a \t b\u{2003}c ");
    assert_eq!(once, "a b c");
    assert_eq!(collapse_spaces(&once), once);
}

#[test]
fn marks_of_every_kind_are_removed() {
    assert_eq!(remove_marks("e\u{301}a\u{20dd}\u{93e}x"), "eax");
    assert!(is_combining(Category::NonspacingMark));
    assert!(is_combining(Category::SpacingMark));
    assert!(is_combining(Category::EnclosingMark));
    assert!(!is_combining(Category::Other));
}

#[test]
fn capitals_and_digits_stay() {
    assert_eq!(keep_capitals_and_digits("A-1 b.C"), "A 1 C");
}

#[test]
fn uppercase_may_lengthen() {
    assert_eq!(to_upper("straße"), "STRASSE");
}

fn is_evenly_spaced(text: &str) -> bool {
    text.split(' ').all(|word| !word.is_empty() && !word.contains(char::is_whitespace))
        || text.is_empty()
}

#[test]
fn normal_forms_are_evenly_spaced_and_stay() {
    for value in ["", " \t ", "a", "  Main \t  St\u{2003}", "straße 7", "Île-des-Sœurs  ŉ"] {
        let normal = normalize_value(value);
        assert!(is_evenly_spaced(&normal));
        assert_eq!(normalize_value(&normal), normal);
        let loose = normalize_loose(value);
        assert!(is_evenly_spaced(&loose));
        assert_eq!(normalize_loose(&loose), loose);
    }
    assert_eq!(normalize_value(" \t\u{2003}"), "");
}

#[test]
fn words_of_ascii_values_come_in_capitals() {
    let value = " no.5 O'Hara\tst-jean  [x]";
    let words: Vec<String> = value.split_whitespace().map(str::to_ascii_uppercase).collect();
    assert_eq!(normalize_value(value), words.join(" "));
    let runs: Vec<String> = value
        .split(|c: char| !c.is_ascii_alphanumeric())
        .filter(|run| !run.is_empty())
        .map(str::to_ascii_uppercase)
        .collect();
    assert_eq!(tokenize_loose(value), runs);
    assert_eq!(normalize_loose(value), "NO 5 O HARA ST JEAN X");
}

#[test]
fn every_ascii_character_is_left_by_the_decomposition() {
    let ascii: String = (0u8..128).map(char::from).collect();
    assert_eq!(strip_accents(&ascii), ascii);
    assert_eq!(to_upper(&ascii), ascii.to_ascii_uppercase());
}

#[test]
fn words_come_in_uppercase_one_by_one() {
    for value in ["straße  der\u{a0}Einheit", "ŉ ǰ ΐ", "ὀδυσσεύς ﬁn", "Ǆ ǅ ǆ"] {
        let words: Vec<String> = value.split_whitespace().map(to_upper).collect();
        assert_eq!(normalize_value(value), words.join(" "));
        let by_character: String = value.chars().flat_map(char::to_uppercase).collect();
        assert_eq!(to_upper(value), by_character);
    }
    assert_eq!(normalize_value("straße ŉ"), "STRASSE ʼN");
}
