use doc_scanner_core::taxonomy::{normalize_merchant, title_case, Taxonomy, TaxonomyRule};
use doc_scanner_core::schema::Decimal;
use doc_scanner_core::text::chars_of;

fn taxonomy() -> Taxonomy {
    Taxonomy::new(vec![
        TaxonomyRule { category: "Groceries".to_string(), patterns: vec!["Grocery".to_string(), "milk".to_string()] },
        TaxonomyRule { category: "Transport".to_string(), patterns: vec!["TfL".to_string(), "grocery mart".to_string()] },
    ])
}

#[test]
fn normalize_strips_reference_numbers_and_title_cases() {
    assert_eq!(normalize_merchant("TESCO STORES 2211 LONDON GB").as_deref(), Some("Tesco Stores"));
    assert_eq!(normalize_merchant("0042 TESCO STORES 2211").as_deref(), Some("Tesco Stores"));
    assert_eq!(normalize_merchant("  GROCERY   MART #204 ").as_deref(), Some("Grocery Mart #204"));
}

#[test]
fn normalize_of_blank_or_digits_is_none() {
    assert_eq!(normalize_merchant(""), None);
    assert_eq!(normalize_merchant(" \t\n"), None);
    assert_eq!(normalize_merchant("2211 0042"), None);
}

#[test]
fn normalize_uses_full_unicode_case_mapping() {
    assert_eq!(normalize_merchant("ßTRASSE").as_deref(), Some("SStrasse"));
    assert_eq!(normalize_merchant("ÉCOLE CAFÉ").as_deref(), Some("École Café"));
}

#[test]
fn title_case_of_words() {
    let got: String = title_case(&chars_of("hELLO   wORLD")).iter().collect();
    assert_eq!(got, "Hello World");
    let got: String = title_case(&chars_of("   ")).iter().collect();
    assert_eq!(got, "");
}

#[test]
fn exact_match_beats_earlier_substring_match() {
    let s = taxonomy().suggest("GROCERY MART").unwrap();
    assert_eq!(s.name, "Transport");
    assert_eq!(s.matched_pattern, "grocery mart");
    assert_eq!(s.match_confidence, Decimal { units: 9, scale: 1 });
}

#[test]
fn substring_match_takes_first_rule() {
    let s = taxonomy().suggest("Big Grocery Mart Ltd").unwrap();
    assert_eq!(s.name, "Groceries");
    assert_eq!(s.matched_pattern, "Grocery");
    assert_eq!(s.match_confidence, Decimal { units: 6, scale: 1 });
}

#[test]
fn exact_match_ignores_case() {
    let s = taxonomy().suggest("MILK").unwrap();
    assert_eq!(s.name, "Groceries");
    assert_eq!(s.matched_pattern, "milk");
    assert_eq!(s.match_confidence, Decimal { units: 9, scale: 1 });
}

#[test]
fn no_match_no_suggestion() {
    assert!(taxonomy().suggest("Petrol Station").is_none());
}

#[test]
fn empty_taxonomy_suggests_nothing() {
    assert!(Taxonomy::empty().suggest("milk").is_none());
    assert!(Taxonomy::empty().suggest("").is_none());
}

#[test]
fn suggest_lowered_compares_given_forms() {
    let t = taxonomy();
    let lowered = vec![
        vec!["grocery".to_string(), "milk".to_string()],
        vec!["tfl".to_string(), "grocery mart".to_string()],
    ];
    let s = t.suggest_lowered(&"tfl".to_string(), &lowered).unwrap();
    assert_eq!(s.name, "Transport");
    assert_eq!(s.matched_pattern, "TfL");
    assert!(t.suggest_lowered(&"TFL".to_string(), &lowered).is_none());
}

#[test]
fn a_failed_or_missing_config_gives_an_empty_taxonomy() {
    let none: Option<Result<Taxonomy, String>> = None;
    assert!(Taxonomy::loaded_or_empty(none).suggest("milk").is_none());
    assert!(Taxonomy::loaded_or_empty(Some(Err("bad json".to_string()))).suggest("milk").is_none());
    let s = Taxonomy::loaded_or_empty(Some(Ok::<Taxonomy, String>(taxonomy()))).suggest("MILK").unwrap();
    assert_eq!(s.name, "Groceries");
    assert_eq!(s.matched_pattern, "milk");
}

#[test]
fn upper_case_ascii_pattern_matches_exactly() {
    let s = taxonomy().suggest("tfl").unwrap();
    assert_eq!(s.name, "Transport");
    assert_eq!(s.matched_pattern, "TfL");
    assert_eq!(s.match_confidence, Decimal { units: 9, scale: 1 });
}
