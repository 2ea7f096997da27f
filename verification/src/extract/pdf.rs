//! The PDF text-layer path: what the PDF parser's outcome for a document
//! becomes. The parser itself panics on some documents, so it is run by the
//! caller, which can catch that and hand over the outcome.
use vstd::prelude::*;

use super::ExtractedText;
use crate::error::EngineError;
use crate::schema::ExtractionMethod;
use crate::text::{chars_of, count_non_white, non_white_count};

verus! {

/// A text layer with fewer characters that are not white space than this
/// counts as sparse or absent: a scanned PDF, which would need OCR.
pub const MIN_TEXT_LAYER_CHARS: usize = 20;

pub open spec fn sparse_text_message() -> Seq<char> {
    "PDF has no usable text layer; this looks like a scanned PDF, which requires OCR (not yet supported)"@
}

/// The outcome of a text-layer extraction as plain text: the document's
/// text, or the text of the parser's error.
pub open spec fn text_layer_view(extraction: Result<String, String>) -> Result<Seq<char>, Seq<char>> {
    match extraction {
        Ok(t) => Ok(t@),
        Err(m) => Err(m@),
    }
}

/// What the text layer path gives for the outcome of extraction: the text,
/// unless the extraction failed or the text has fewer than
/// `MIN_TEXT_LAYER_CHARS` characters that are not white space.
pub open spec fn accepts_text_layer(
    extraction: Result<Seq<char>, Seq<char>>,
    r: Result<ExtractedText, EngineError>,
) -> bool {
    match extraction {
        Err(m) => r matches Err(EngineError::Extraction { code, message }) && code@
            == "PDF_PARSE_FAILED"@ && message@ == "failed to parse PDF: "@ + m,
        Ok(t) => if non_white_count(t) < MIN_TEXT_LAYER_CHARS {
            r matches Err(EngineError::Extraction { code, message }) && code@
                == "PDF_TEXT_LAYER_SPARSE"@ && message@ == sparse_text_message()
        } else {
            r matches Ok(x) && x.text@ == t && x.method == ExtractionMethod::PdfTextLayer
        },
    }
}

/// Decides on what the PDF parser gave for a document, `extraction`: its
/// text, or the text of the parser's error (a parse that panicked included,
/// which the caller reports in the same way).
pub fn extract_text_layer(extraction: Result<String, String>) -> (r: Result<ExtractedText, EngineError>)
    ensures
        accepts_text_layer(text_layer_view(extraction), r),
{
    match extraction {
        Err(m) => {
            let mut message = String::new();
            message.push_str("failed to parse PDF: ");
            message.push_str(m.as_str());
            Err(EngineError::Extraction { code: "PDF_PARSE_FAILED", message })
        },
        Ok(text) => {
            let chars = chars_of(text.as_str());
            if count_non_white(chars.as_slice()) < MIN_TEXT_LAYER_CHARS {
                Err(
                    EngineError::Extraction {
                        code: "PDF_TEXT_LAYER_SPARSE",
                        message: "PDF has no usable text layer; this looks like a scanned PDF, which requires OCR (not yet supported)".to_string(),
                    },
                )
            } else {
                Ok(ExtractedText { text, method: ExtractionMethod::PdfTextLayer })
            }
        },
    }
}

} // verus!
