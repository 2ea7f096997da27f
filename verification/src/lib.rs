//! Document-to-JSON conversion engine: input validation, text extraction,
//! classification and structuring of bank statements and grocery bills,
//! with merchant normalization and advisory category suggestions.
pub mod classify;
pub mod error;
pub mod extract;
pub mod input;
pub mod observability;
pub mod schema;
pub mod seed_report;
pub mod structure;
pub mod taxonomy;
pub mod text;

use vstd::prelude::*;

use crate::classify::{classification, classify, is_inconclusive_error};
use crate::error::EngineError;
use crate::extract::pdf::MIN_TEXT_LAYER_CHARS;
use crate::extract::{extract, extraction_result, text_layer_supplied};
use crate::input::ValidatedInput;
use crate::observability::ConversionLogAttributes;
use crate::schema::{DocumentData, Envelope, ExtractionMethod, InputType, Meta};
use crate::structure::{structure, structure_result};
use crate::taxonomy::Taxonomy;
use crate::text::{non_white_count, str_lowercase};

verus! {

/// Size and hash of the input, kept apart from `Meta` because they are log
/// attributes only, not part of the JSON envelope.
pub struct Telemetry {
    pub bytes: Option<u64>,
    pub content_hash: Option<String>,
}

impl Telemetry {
    pub fn new() -> (t: Self)
        ensures
            t.bytes is None,
            t.content_hash is None,
    {
        Telemetry { bytes: None, content_hash: None }
    }
}

/// The text that extraction yields for an input of the given type, if it
/// succeeds, `text_layer` being what the PDF parser gave for it.
pub open spec fn extracted_text(input_type: InputType, text_layer: Option<Result<String, String>>) -> Option<Seq<char>> {
    match input_type {
        InputType::Pdf => match text_layer {
            Some(Ok(text)) => if non_white_count(text@) >= MIN_TEXT_LAYER_CHARS {
                Some(text@)
            } else {
                None
            },
            _ => None,
        },
        InputType::Image => None,
    }
}

/// `new` is `old` with only the three stage fields possibly changed.
pub open spec fn same_meta_except_stages(old: Meta, new: Meta) -> bool {
    &&& new.input_file == old.input_file
    &&& new.processing_time_ms == old.processing_time_ms
    &&& new.engine_version == old.engine_version
}

/// What the pipeline gives once the input is validated: extraction, then
/// classification of the lower-cased text, then structuring, each stage
/// recording its finding in `new` and stopping at the first error.
pub open spec fn pipeline_after_input(
    v: ValidatedInput,
    text_layer: Option<Result<String, String>>,
    old: Meta,
    new: Meta,
    r: Result<DocumentData, EngineError>,
) -> bool {
    &&& same_meta_except_stages(old, new)
    &&& new.input_type == Some(v.input_type)
    &&& match extracted_text(v.input_type, text_layer) {
        None => {
            &&& r matches Err(e) && extraction_result(v.input_type, text_layer, Err(e))
            &&& new.extraction_method == old.extraction_method
            &&& new.document_type == old.document_type
        },
        Some(text) => {
            &&& new.extraction_method == Some(ExtractionMethod::PdfTextLayer)
            &&& match classification(str_lowercase(text)) {
                None => {
                    &&& r matches Err(e) && is_inconclusive_error(e)
                    &&& new.document_type == old.document_type
                },
                Some(d) => {
                    &&& new.document_type == Some(d)
                    &&& structure_result(d, r)
                },
            }
        },
    }
}

/// Runs the pipeline on the outcome of the input stage: extraction,
/// classification, structuring. `text_layer` is what the PDF parser gave for
/// a PDF input. `fallback_bytes` is the input's size as far as it could be
/// learnt, recorded when validation failed.
pub fn run_pipeline(
    input: Result<ValidatedInput, EngineError>,
    text_layer: Option<Result<String, String>>,
    fallback_bytes: Option<u64>,
    taxonomy: &Taxonomy,
    meta: &mut Meta,
    telemetry: &mut Telemetry,
) -> (r: Result<DocumentData, EngineError>)
    requires
        input matches Ok(v) ==> text_layer_supplied(v.input_type, text_layer),
    ensures
        match input {
            Err(e) => {
                &&& r == Err::<DocumentData, EngineError>(e)
                &&& final(telemetry).bytes == fallback_bytes
                &&& final(telemetry).content_hash == old(telemetry).content_hash
                &&& *final(meta) == *old(meta)
            },
            Ok(v) => {
                &&& final(telemetry).bytes == Some(v.bytes@.len() as u64)
                &&& final(telemetry).content_hash == Some(v.content_hash)
                &&& pipeline_after_input(v, text_layer, *old(meta), *final(meta), r)
            },
        },
{
    let validated = match input {
        Ok(validated) => validated,
        Err(err) => {
            telemetry.bytes = fallback_bytes;
            return Err(err);
        },
    };
    telemetry.bytes = Some(validated.bytes.len() as u64);
    telemetry.content_hash = Some(validated.content_hash.clone());
    meta.input_type = Some(validated.input_type);

    let extracted = match extract(&validated, text_layer) {
        Ok(extracted) => extracted,
        Err(err) => {
            return Err(err);
        },
    };
    meta.extraction_method = Some(extracted.method);

    let document_type = match classify(extracted.text.as_str()) {
        Ok(document_type) => document_type,
        Err(err) => {
            return Err(err);
        },
    };
    meta.document_type = Some(document_type);

    structure(extracted.text.as_str(), document_type, taxonomy)
}

/// The envelope for the outcome, and the process exit code that goes with
/// it: 0 for success, the error's own code otherwise.
pub open spec fn envelope_for(
    meta: Meta,
    outcome: Result<DocumentData, EngineError>,
    r: (Envelope, i32),
) -> bool {
    match outcome {
        Ok(data) => r.0 == Envelope::Success { meta, data } && r.1 == 0,
        Err(e) => {
            &&& r.0 matches Envelope::Error { meta: m, error: d } && m == meta && d.stage
                == e.spec_stage() && d.code@ == e.spec_code()@ && d.message@ == e.spec_message()@
            &&& r.1 == e.spec_exit_code()
        },
    }
}

pub fn envelope_from_outcome(meta: Meta, outcome: Result<DocumentData, EngineError>) -> (r: (
    Envelope,
    i32,
))
    ensures
        envelope_for(meta, outcome, r),
{
    match outcome {
        Ok(data) => (Envelope::Success { meta, data }, 0),
        Err(err) => {
            let exit_code = err.exit_code();
            (Envelope::error(meta, &err), exit_code)
        },
    }
}

/// The log attributes for a finished conversion.
pub open spec fn attributes_for(
    file_name: &str,
    meta: Meta,
    telemetry: Telemetry,
    outcome: Result<DocumentData, EngineError>,
    a: ConversionLogAttributes,
) -> bool {
    &&& a.file_name == file_name
    &&& a.success == outcome is Ok
    &&& a.bytes == telemetry.bytes
    &&& a.processing_time_ms == meta.processing_time_ms
    &&& a.document_type == meta.document_type
    &&& a.extraction_method == meta.extraction_method
    &&& (match telemetry.content_hash {
        Some(h) => a.content_hash matches Some(c) && c@ == h@,
        None => a.content_hash is None,
    })
    &&& match outcome {
        Ok(_) => a.error_stage is None && a.error_code is None,
        Err(e) => (a.error_stage matches Some(s) && s@ == e.spec_stage().spec_name()) && a.error_code
            == Some(e.spec_code()),
    }
}

pub fn conversion_log_attributes<'a>(
    file_name: &'a str,
    meta: &Meta,
    telemetry: &'a Telemetry,
    outcome: &Result<DocumentData, EngineError>,
) -> (a: ConversionLogAttributes<'a>)
    ensures
        attributes_for(file_name, *meta, *telemetry, *outcome, a),
{
    let content_hash = match &telemetry.content_hash {
        Some(h) => Some(h.as_str()),
        None => None,
    };
    let (success, error_stage, error_code) = match outcome {
        Ok(_) => (true, None, None),
        Err(e) => (false, Some(e.stage().name()), Some(e.code())),
    };
    ConversionLogAttributes {
        file_name,
        success,
        bytes: telemetry.bytes,
        processing_time_ms: meta.processing_time_ms,
        document_type: meta.document_type,
        extraction_method: meta.extraction_method,
        content_hash,
        error_stage,
        error_code,
    }
}


/// The log record and the JSON envelope of one conversion agree: the record
/// reports success exactly when the envelope is a success envelope and the
/// exit code is 0; it carries the envelope's processing time and, on
/// failure, the envelope's error stage and code.
pub proof fn lemma_log_agrees_with_envelope(
    file_name: &str,
    meta: Meta,
    telemetry: Telemetry,
    outcome: Result<DocumentData, EngineError>,
    a: ConversionLogAttributes,
    env: (Envelope, i32),
)
    requires
        attributes_for(file_name, meta, telemetry, outcome, a),
        envelope_for(meta, outcome, env),
    ensures
        a.success <==> env.0 is Success,
        a.success <==> env.1 == 0,
        match env.0 {
            Envelope::Success { meta: m, .. } => a.processing_time_ms == m.processing_time_ms,
            Envelope::Error { meta: m, .. } => a.processing_time_ms == m.processing_time_ms,
        },
        env.0 matches Envelope::Error { error, .. } ==> (a.error_code matches Some(c) && c@ == error.code@)
            && (a.error_stage matches Some(st) && st@ == error.stage.spec_name()),
{
}

/// No layout-specific parser is registered yet, so a validated input never
/// converts successfully: every run ends in an error, and a document that
/// gets classified (starting from a conversion with no document type yet)
/// is refused at structuring as `UNRECOGNIZED_FORMAT`.
pub proof fn lemma_no_document_structured_yet(
    v: ValidatedInput,
    text_layer: Option<Result<String, String>>,
    old: Meta,
    new: Meta,
    r: Result<DocumentData, EngineError>,
)
    requires
        old.document_type is None,
        pipeline_after_input(v, text_layer, old, new, r),
    ensures
        r is Err,
        new.document_type is Some ==> (r matches Err(e) && e.spec_code()@ == "UNRECOGNIZED_FORMAT"@
            && e.spec_stage() == crate::error::Stage::Structuring),
{
}


/// Two errors that read the same: same stage and exit code (so the same
/// kind), same code and same message.
pub open spec fn same_error(a: EngineError, b: EngineError) -> bool {
    &&& a.spec_stage() == b.spec_stage()
    &&& a.spec_exit_code() == b.spec_exit_code()
    &&& a.spec_code()@ == b.spec_code()@
    &&& a.spec_message()@ == b.spec_message()@
}

/// `a` and `b` agree in every field but the processing time.
pub open spec fn same_except_time(a: Meta, b: Meta) -> bool {
    &&& a.input_file == b.input_file
    &&& a.input_type == b.input_type
    &&& a.document_type == b.document_type
    &&& a.extraction_method == b.extraction_method
    &&& a.engine_version == b.engine_version
}

/// Converting the same validated input twice, with the same outcome of the
/// PDF parser and from the same starting `Meta`, gives the same stage
/// findings and the same error, and so the same envelope and exit code,
/// whatever time each run took.
pub proof fn lemma_conversion_deterministic(
    v: ValidatedInput,
    text_layer: Option<Result<String, String>>,
    old: Meta,
    n1: Meta,
    r1: Result<DocumentData, EngineError>,
    n2: Meta,
    r2: Result<DocumentData, EngineError>,
    m1: Meta,
    m2: Meta,
    env1: (Envelope, i32),
    env2: (Envelope, i32),
)
    requires
        pipeline_after_input(v, text_layer, old, n1, r1),
        pipeline_after_input(v, text_layer, old, n2, r2),
        same_except_time(n1, m1),
        same_except_time(n2, m2),
        envelope_for(m1, r1, env1),
        envelope_for(m2, r2, env2),
    ensures
        n1 == n2,
        r1 matches Err(e1) && r2 matches Err(e2) && same_error(e1, e2),
        env1.1 == env2.1,
        env1.0 matches Envelope::Error { meta: a, error: d1 } && env2.0 matches Envelope::Error {
            meta: b,
            error: d2,
        } && same_except_time(a, b) && d1.stage == d2.stage && d1.code@ == d2.code@ && d1.message@
            == d2.message@,
{
}

} // verus!
