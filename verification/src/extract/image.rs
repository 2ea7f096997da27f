//! The OCR path for images, a later phase: for now it refuses cleanly.
use vstd::prelude::*;

use super::ExtractedText;
use crate::error::EngineError;

verus! {

pub open spec fn is_ocr_unavailable(e: EngineError) -> bool {
    e matches EngineError::Extraction { code, message } && code@ == "OCR_NOT_IMPLEMENTED"@ && message@
        == "image input requires OCR, which is not yet implemented"@
}

/// Local OCR is not implemented yet: every image is refused with
/// `OCR_NOT_IMPLEMENTED`.
pub fn extract_via_ocr(_bytes: &[u8]) -> (r: Result<ExtractedText, EngineError>)
    ensures
        r matches Err(e) && is_ocr_unavailable(e),
{
    Err(
        EngineError::Extraction {
            code: "OCR_NOT_IMPLEMENTED",
            message: "image input requires OCR, which is not yet implemented".to_string(),
        },
    )
}

} // verus!
