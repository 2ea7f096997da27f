use doc_scanner_core::error::EngineError;
use doc_scanner_core::input::sniff_type;
use doc_scanner_core::input::validate_contents;
use doc_scanner_core::observability::conversion_log_record;
use doc_scanner_core::schema::{
    Envelope, GroceryBillData, GroceryMerchant, Meta, Receipt, Totals, DocumentData,
};
use doc_scanner_core::seed_report::MerchantTally;
use doc_scanner_core::taxonomy::{normalize_merchant, Taxonomy, TaxonomyRule};
use doc_scanner_core::{conversion_log_attributes, envelope_from_outcome, run_pipeline, Telemetry};

fn meta() -> Meta {
    Meta {
        input_file: "r.pdf".to_string(),
        input_type: None,
        document_type: None,
        extraction_method: None,
        processing_time_ms: 5,
        engine_version: "test",
    }
}

#[test]
fn normalization_ignores_spacing_and_reference_numbers() {
    let base = normalize_merchant("grocery mart");
    assert_eq!(base.as_deref(), Some("Grocery Mart"));
    assert_eq!(normalize_merchant(" \t grocery mart \n"), base);
    assert_eq!(normalize_merchant("grocery \u{3000}\t mart"), base);
    assert_eq!(normalize_merchant("grocery mart 2211"), base);
    assert_eq!(normalize_merchant("grocery mart 2211 london gb"), base);
}

#[test]
fn an_exact_match_wins_over_every_substring_match() {
    let t = Taxonomy::new(vec![
        TaxonomyRule { category: "A".to_string(), patterns: vec!["co".to_string()] },
        TaxonomyRule { category: "B".to_string(), patterns: vec!["Coop".to_string()] },
    ]);
    let s = t.suggest("COOP").unwrap();
    assert_eq!(s.name, "B");
    assert_eq!(s.match_confidence.units, 9);
}

#[test]
fn sniffing_reads_only_the_first_eight_bytes() {
    let head = [0x89, 0x50, 0x4E, 0x47, 0x0D, 0x0A, 0x1A, 0x0A];
    let mut longer = head.to_vec();
    longer.extend_from_slice(b"%PDF-");
    assert_eq!(sniff_type(&longer), sniff_type(&head));
}

#[test]
fn the_log_record_agrees_with_the_envelope() {
    let t = Telemetry::new();
    let failed: Result<DocumentData, EngineError> =
        Err(EngineError::Validation { code: "TOTALS_MISMATCH", message: "m".to_string() });
    let attrs = conversion_log_attributes("r.pdf", &meta(), &t, &failed);
    let record = conversion_log_record(&attrs);
    let (env, code) = envelope_from_outcome(meta(), failed);
    assert_ne!(code, 0);
    match env {
        Envelope::Error { error, .. } => {
            assert_eq!(record.error_code, Some(error.code.as_str()));
            assert_eq!(record.error_stage, Some(error.stage.name()));
        }
        _ => panic!("expected an error envelope"),
    }

    let ok: Result<DocumentData, EngineError> = Ok(DocumentData::GroceryBill(GroceryBillData {
        merchant: GroceryMerchant { name: None, address: None, phone: None },
        receipt: Receipt { date: None, receipt_number: None, payment_method: None },
        items: vec![],
        totals: Totals { subtotal: None, tax: None, discount: None, total: None },
        currency: None,
    }));
    let attrs = conversion_log_attributes("r.pdf", &meta(), &t, &ok);
    let record = conversion_log_record(&attrs);
    assert!(attrs.success);
    assert_eq!(record.status, "success");
    assert_eq!(record.error_code, None);
    let (env, code) = envelope_from_outcome(meta(), ok);
    assert_eq!(code, 0);
    assert!(matches!(env, Envelope::Success { .. }));
}

#[test]
fn a_tally_counts_every_sighting_once_per_merchant() {
    let mut t = MerchantTally::new();
    let sightings = [("X", "x1"), ("Y", "y1"), ("X", "x2"), ("X", "x3"), ("X", "x4")];
    for (m, raw) in sightings {
        t.record(m, raw, &None);
    }
    let ranked = t.into_ranked();
    let x = ranked.iter().find(|e| e.merchant == "X").unwrap();
    assert_eq!(x.occurrences, 4);
    assert_eq!(x.example_raw_text, vec!["x1", "x2", "x3"]);
    assert_eq!(ranked.iter().filter(|e| e.merchant == "X").count(), 1);
    assert_eq!(ranked.len(), 2);
}

#[test]
fn suggestions_ignore_ascii_case() {
    let t = Taxonomy::new(vec![TaxonomyRule { category: "Groceries".to_string(), patterns: vec!["Grocery".to_string()] }]);
    let a = t.suggest("big GROCERY mart").unwrap();
    let b = t.suggest("Big Grocery Mart").unwrap();
    assert_eq!((a.name, a.matched_pattern, a.match_confidence), (b.name, b.matched_pattern, b.match_confidence));
}

#[test]
fn normalizing_a_normalized_name_gives_it_back() {
    for raw in ["TESCO STORES 2211 LONDON GB", "  o'NEILL's   bar 12 ", "#204 GROCERY mart", "a1 22 b"] {
        let once = normalize_merchant(raw).unwrap();
        assert_eq!(normalize_merchant(&once).as_deref(), Some(once.as_str()));
        assert!(!once.starts_with(' ') && !once.ends_with(' ') && !once.contains("  "));
    }
}

#[test]
fn tally_entries_keep_min_of_count_and_three_examples() {
    let mut t = MerchantTally::new();
    for (i, m) in ["A", "B", "A", "A", "A", "B"].iter().enumerate() {
        t.record(m, &format!("{m}{i}"), &None);
    }
    for e in t.into_ranked() {
        assert!(e.occurrences >= 1);
        assert_eq!(e.example_raw_text.len(), std::cmp::min(e.occurrences as usize, 3));
    }
}

#[test]
fn converting_the_same_input_twice_gives_the_same_error() {
    let run = || {
        let mut m = meta();
        let mut t = Telemetry::new();
        let v = validate_contents("x.pdf", b"%PDF-1.4 not really".to_vec()).ok().unwrap();
        let layer = pdf_extract::extract_text_from_mem(&v.bytes).map_err(|e| e.to_string());
        let r = run_pipeline(Ok(v), Some(layer), None, &Taxonomy::empty(), &mut m, &mut t);
        let e = r.err().unwrap();
        (e.code(), e.message(), e.exit_code(), m.input_type, m.extraction_method)
    };
    assert_eq!(run(), run());
}
