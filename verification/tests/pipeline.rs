use doc_scanner_core::error::{EngineError, Stage};
use doc_scanner_core::input::{validate_contents, ValidatedInput};
use doc_scanner_core::observability::{
    conversion_log_record, document_type_str, extraction_method_str, LogLevel,
};
use doc_scanner_core::schema::{DocumentType, Envelope, ExtractionMethod, InputType, Meta};
use doc_scanner_core::structure::structure;
use doc_scanner_core::taxonomy::Taxonomy;
use doc_scanner_core::{conversion_log_attributes, envelope_from_outcome, run_pipeline, Telemetry};

fn meta() -> Meta {
    Meta {
        input_file: "doc.pdf".to_string(),
        input_type: None,
        document_type: None,
        extraction_method: None,
        processing_time_ms: 0,
        engine_version: "test",
    }
}

#[test]
fn failed_input_keeps_fallback_size() {
    let mut m = meta();
    let mut t = Telemetry::new();
    let err = EngineError::InvalidInput { code: "INPUT_TOO_LARGE", message: "too big".to_string() };
    let r = run_pipeline(Err(err), None, Some(99), &Taxonomy::empty(), &mut m, &mut t);
    assert_eq!(r.err().unwrap().code(), "INPUT_TOO_LARGE");
    assert_eq!(t.bytes, Some(99));
    assert_eq!(t.content_hash, None);
    assert_eq!(m.input_type, None);
}

#[test]
fn image_stops_at_extraction() {
    let mut m = meta();
    let mut t = Telemetry::new();
    let v = validate_contents("img.jpg", vec![0xFF, 0xD8, 0xFF, 0x00]).ok().unwrap();
    let hash = v.content_hash.clone();
    let r = run_pipeline(Ok(v), None, None, &Taxonomy::empty(), &mut m, &mut t);
    assert_eq!(r.err().unwrap().code(), "OCR_NOT_IMPLEMENTED");
    assert_eq!(t.bytes, Some(4));
    assert_eq!(t.content_hash, Some(hash));
    assert_eq!(m.input_type, Some(InputType::Image));
    assert_eq!(m.extraction_method, None);
    assert_eq!(m.document_type, None);
}

#[test]
fn broken_pdf_stops_at_extraction() {
    let mut m = meta();
    let mut t = Telemetry::new();
    let v = ValidatedInput { bytes: b"%PDF-garbage".to_vec(), input_type: InputType::Pdf, content_hash: "h".to_string() };
    let layer = pdf_extract::extract_text_from_mem(&v.bytes).map_err(|e| e.to_string());
    let r = run_pipeline(Ok(v), Some(layer), None, &Taxonomy::empty(), &mut m, &mut t);
    assert_eq!(r.err().unwrap().code(), "PDF_PARSE_FAILED");
    assert_eq!(m.input_type, Some(InputType::Pdf));
}

#[test]
fn structuring_has_no_parser_yet() {
    let e = structure("statement period", DocumentType::BankStatement, &Taxonomy::empty()).err().unwrap();
    assert_eq!(e.code(), "UNRECOGNIZED_FORMAT");
    assert_eq!(e.message(), "no bank statement parser is registered for this document's layout");
    assert_eq!(e.stage(), Stage::Structuring);
    let e = structure("receipt", DocumentType::GroceryBill, &Taxonomy::empty()).err().unwrap();
    assert_eq!(e.code(), "UNRECOGNIZED_FORMAT");
    assert_eq!(e.message(), "no grocery bill parser is registered for this document's layout");
}

#[test]
fn error_envelope_and_exit_code() {
    let err = EngineError::Extraction { code: "OCR_NOT_IMPLEMENTED", message: "m".to_string() };
    let (env, code) = envelope_from_outcome(meta(), Err(err));
    assert_eq!(code, 4);
    match env {
        Envelope::Error { meta, error } => {
            assert_eq!(meta.input_file, "doc.pdf");
            assert_eq!(error.stage, Stage::Extraction);
            assert_eq!(error.code, "OCR_NOT_IMPLEMENTED");
            assert_eq!(error.message, "m");
        }
        _ => panic!("expected an error envelope"),
    }
}

#[test]
fn envelope_error_copies_the_error() {
    let err = EngineError::Classification { code: "CLASSIFICATION_INCONCLUSIVE", message: "x".to_string() };
    match Envelope::error(meta(), &err) {
        Envelope::Error { error, .. } => {
            assert_eq!(error.stage, Stage::Classification);
            assert_eq!(error.code, "CLASSIFICATION_INCONCLUSIVE");
            assert_eq!(error.message, "x");
        }
        _ => panic!("expected an error envelope"),
    }
}

#[test]
fn failure_log_record() {
    let mut m = meta();
    m.input_type = Some(InputType::Pdf);
    m.extraction_method = Some(ExtractionMethod::PdfTextLayer);
    m.document_type = Some(DocumentType::GroceryBill);
    m.processing_time_ms = 842;
    let t = Telemetry { bytes: Some(184320), content_hash: Some("abc".to_string()) };
    let outcome = Err(EngineError::Structuring { code: "UNRECOGNIZED_FORMAT", message: "no".to_string() });
    let attrs = conversion_log_attributes("statement.pdf", &m, &t, &outcome);
    assert!(!attrs.success);
    assert_eq!(attrs.error_stage, Some("structuring"));
    assert_eq!(attrs.error_code, Some("UNRECOGNIZED_FORMAT"));
    assert_eq!(attrs.content_hash, Some("abc"));
    let r = conversion_log_record(&attrs);
    assert_eq!(r.level, LogLevel::Error);
    assert_eq!(r.message, "conversion failed");
    assert_eq!(r.status, "failed");
    assert_eq!(r.file_name, "statement.pdf");
    assert_eq!(r.bytes, Some(184320));
    assert_eq!(r.processing_time_ms, 842);
    assert_eq!(r.document_type, Some("grocery_bill"));
    assert_eq!(r.extraction_method, Some("pdf_text_layer"));
    assert_eq!(r.error_stage, Some("structuring"));
    assert_eq!(r.error_code, Some("UNRECOGNIZED_FORMAT"));
}

#[test]
fn names_for_logs() {
    assert_eq!(document_type_str(DocumentType::BankStatement), "bank_statement");
    assert_eq!(document_type_str(DocumentType::GroceryBill), "grocery_bill");
    assert_eq!(extraction_method_str(ExtractionMethod::PdfTextLayer), "pdf_text_layer");
    assert_eq!(extraction_method_str(ExtractionMethod::Ocr), "ocr");
}
