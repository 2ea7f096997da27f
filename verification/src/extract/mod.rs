//! Extraction: getting raw text out of a validated input.
pub mod image;
pub mod pdf;

use vstd::prelude::*;

use crate::error::EngineError;
use crate::input::ValidatedInput;
use crate::schema::{ExtractionMethod, InputType};

use self::image::{extract_via_ocr, is_ocr_unavailable};
use self::pdf::{accepts_text_layer, extract_text_layer, text_layer_view};

verus! {

pub struct ExtractedText {
    pub text: String,
    pub method: ExtractionMethod,
}

/// A PDF comes with what the parser gave for it; other inputs need none.
pub open spec fn text_layer_supplied(input_type: InputType, text_layer: Option<Result<String, String>>) -> bool {
    input_type == InputType::Pdf ==> text_layer is Some
}

/// What extracting text from an input of the given type gives, `text_layer`
/// being what the PDF parser gave for it.
pub open spec fn extraction_result(
    input_type: InputType,
    text_layer: Option<Result<String, String>>,
    r: Result<ExtractedText, EngineError>,
) -> bool {
    match input_type {
        InputType::Pdf => text_layer matches Some(l) && accepts_text_layer(text_layer_view(l), r),
        InputType::Image => r matches Err(e) && is_ocr_unavailable(e),
    }
}

/// PDFs go through their text layer, `text_layer` being what the PDF parser
/// gave for the input's bytes; images would need OCR.
pub fn extract(input: &ValidatedInput, text_layer: Option<Result<String, String>>) -> (r: Result<
    ExtractedText,
    EngineError,
>)
    requires
        text_layer_supplied(input.input_type, text_layer),
    ensures
        extraction_result(input.input_type, text_layer, r),
{
    match input.input_type {
        InputType::Pdf => extract_text_layer(text_layer.unwrap()),
        InputType::Image => extract_via_ocr(input.bytes.as_slice()),
    }
}

} // verus!
