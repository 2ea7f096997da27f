//! The one structured log record that each conversion emits. The library
//! decides what the record says; the binary's logger decides where it goes.
use vstd::prelude::*;

use crate::schema::{DocumentType, ExtractionMethod};

verus! {

/// Attributes of the log record for one conversion.
pub struct ConversionLogAttributes<'a> {
    pub file_name: &'a str,
    pub success: bool,
    pub bytes: Option<u64>,
    pub processing_time_ms: u128,
    pub document_type: Option<DocumentType>,
    pub extraction_method: Option<ExtractionMethod>,
    pub content_hash: Option<&'a str>,
    pub error_stage: Option<&'a str>,
    pub error_code: Option<&'a str>,
}

#[derive(Clone, Copy, Debug, PartialEq, Eq, Structural)]
pub enum LogLevel {
    Info,
    Error,
}

/// The record as emitted: its level, message and fields.
pub struct ConversionLogRecord<'a> {
    pub level: LogLevel,
    pub message: &'static str,
    pub file_name: &'a str,
    pub status: &'static str,
    pub bytes: Option<u64>,
    pub processing_time_ms: u64,
    pub document_type: Option<&'static str>,
    pub extraction_method: Option<&'static str>,
    pub content_hash: Option<&'a str>,
    pub error_stage: Option<&'a str>,
    pub error_code: Option<&'a str>,
}

pub open spec fn document_type_name(d: DocumentType) -> Seq<char> {
    match d {
        DocumentType::BankStatement => "bank_statement"@,
        DocumentType::GroceryBill => "grocery_bill"@,
    }
}

pub open spec fn extraction_method_name(m: ExtractionMethod) -> Seq<char> {
    match m {
        ExtractionMethod::PdfTextLayer => "pdf_text_layer"@,
        ExtractionMethod::Ocr => "ocr"@,
    }
}

pub fn document_type_str(document_type: DocumentType) -> (r: &'static str)
    ensures
        r@ == document_type_name(document_type),
{
    match document_type {
        DocumentType::BankStatement => "bank_statement",
        DocumentType::GroceryBill => "grocery_bill",
    }
}

pub fn extraction_method_str(method: ExtractionMethod) -> (r: &'static str)
    ensures
        r@ == extraction_method_name(method),
{
    match method {
        ExtractionMethod::PdfTextLayer => "pdf_text_layer",
        ExtractionMethod::Ocr => "ocr",
    }
}

/// The record for the attributes: INFO "conversion completed" with status
/// `success` on success, ERROR "conversion failed" with status `failed` and
/// the error's stage and code otherwise.
pub open spec fn is_record_for(a: ConversionLogAttributes, r: ConversionLogRecord) -> bool {
    &&& r.level == if a.success {
        LogLevel::Info
    } else {
        LogLevel::Error
    }
    &&& r.message@ == if a.success {
        "conversion completed"@
    } else {
        "conversion failed"@
    }
    &&& r.status@ == if a.success {
        "success"@
    } else {
        "failed"@
    }
    &&& r.file_name == a.file_name
    &&& r.bytes == a.bytes
    &&& r.processing_time_ms == a.processing_time_ms as u64
    &&& (match a.document_type {
        Some(d) => r.document_type matches Some(s) && s@ == document_type_name(d),
        None => r.document_type is None,
    })
    &&& (match a.extraction_method {
        Some(m) => r.extraction_method matches Some(s) && s@ == extraction_method_name(m),
        None => r.extraction_method is None,
    })
    &&& r.content_hash == a.content_hash
    &&& r.error_stage == if a.success {
        None
    } else {
        a.error_stage
    }
    &&& r.error_code == if a.success {
        None
    } else {
        a.error_code
    }
}

/// Builds the one log record for a conversion from its attributes.
pub fn conversion_log_record<'a>(attrs: &ConversionLogAttributes<'a>) -> (r: ConversionLogRecord<'a>)
    ensures
        is_record_for(*attrs, r),
{
    let document_type = match attrs.document_type {
        Some(d) => Some(document_type_str(d)),
        None => None,
    };
    let extraction_method = match attrs.extraction_method {
        Some(m) => Some(extraction_method_str(m)),
        None => None,
    };
    #[verifier::truncate]
    let processing_time_ms = attrs.processing_time_ms as u64;
    if attrs.success {
        ConversionLogRecord {
            level: LogLevel::Info,
            message: "conversion completed",
            file_name: attrs.file_name,
            status: "success",
            bytes: attrs.bytes,
            processing_time_ms,
            document_type,
            extraction_method,
            content_hash: attrs.content_hash,
            error_stage: None,
            error_code: None,
        }
    } else {
        ConversionLogRecord {
            level: LogLevel::Error,
            message: "conversion failed",
            file_name: attrs.file_name,
            status: "failed",
            bytes: attrs.bytes,
            processing_time_ms,
            document_type,
            extraction_method,
            content_hash: attrs.content_hash,
            error_stage: attrs.error_stage,
            error_code: attrs.error_code,
        }
    }
}

} // verus!
