use doc_scanner_core::error::{EngineError, Stage};
use doc_scanner_core::extract::image::extract_via_ocr;
use doc_scanner_core::extract::pdf::extract_text_layer;
use doc_scanner_core::extract::extract;
use doc_scanner_core::input::ValidatedInput;
use doc_scanner_core::schema::{ExtractionMethod, InputType};

#[test]
fn ocr_is_not_implemented() {
    let e = extract_via_ocr(&[0xFF, 0xD8, 0xFF]).err().unwrap();
    assert_eq!(e.code(), "OCR_NOT_IMPLEMENTED");
    assert_eq!(e.message(), "image input requires OCR, which is not yet implemented");
    assert_eq!(e.stage(), Stage::Extraction);
    assert_eq!(e.exit_code(), 4);
}

#[test]
fn images_go_to_ocr() {
    let input = ValidatedInput { bytes: vec![0xFF, 0xD8, 0xFF], input_type: InputType::Image, content_hash: String::new() };
    assert_eq!(extract(&input, None).err().unwrap().code(), "OCR_NOT_IMPLEMENTED");
}

#[test]
fn failed_pdf_parse_is_reported() {
    let e = extract_text_layer(Err("PDF error: invalid file header".to_string())).err().unwrap();
    assert!(matches!(e, EngineError::Extraction { .. }));
    assert_eq!(e.code(), "PDF_PARSE_FAILED");
    assert_eq!(e.message(), "failed to parse PDF: PDF error: invalid file header");
}

#[test]
fn sparse_text_layer_is_refused() {
    let e = extract_text_layer(Ok("   nineteen chars..   \n\n".to_string())).err().unwrap();
    assert_eq!(e.code(), "PDF_TEXT_LAYER_SPARSE");
    assert_eq!(
        e.message(),
        "PDF has no usable text layer; this looks like a scanned PDF, which requires OCR (not yet supported)"
    );
}

#[test]
fn spaced_out_letters_are_sparse() {
    // 21 characters, 11 of them letters
    let e = extract_text_layer(Ok("a b c d e f g h i j k".to_string())).err().unwrap();
    assert_eq!(e.code(), "PDF_TEXT_LAYER_SPARSE");
}

#[test]
fn twenty_chars_are_enough() {
    let text = "  twenty letters xx in all  ".to_string();
    let x = extract_text_layer(Ok(text.clone())).ok().unwrap();
    assert_eq!(x.text, text);
    assert_eq!(x.method, ExtractionMethod::PdfTextLayer);
}

#[test]
fn garbage_pdf_bytes_fail_to_parse() {
    let layer = pdf_extract::extract_text_from_mem(b"%PDF-1.4 this is not really a pdf").map_err(|e| e.to_string());
    let e = extract_text_layer(layer).err().unwrap();
    assert_eq!(e.code(), "PDF_PARSE_FAILED");
    assert!(e.message().starts_with("failed to parse PDF: "));
    assert!(e.message().len() > "failed to parse PDF: ".len());
}

#[test]
fn pdfs_go_through_their_text_layer() {
    let input = ValidatedInput { bytes: b"%PDF-1.4".to_vec(), input_type: InputType::Pdf, content_hash: String::new() };
    let text = "Statement of account: opening balance, closing balance".to_string();
    let x = extract(&input, Some(Ok(text.clone()))).ok().unwrap();
    assert_eq!(x.text, text);
    assert_eq!(x.method, ExtractionMethod::PdfTextLayer);
    let e = extract(&input, Some(Err("bad xref".to_string()))).err().unwrap();
    assert_eq!(e.code(), "PDF_PARSE_FAILED");
    assert_eq!(e.message(), "failed to parse PDF: bad xref");
}
