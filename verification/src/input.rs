//! Input layer: size limits, file-type sniffing by magic bytes, and the
//! content hash used to correlate log records with uploads.
use vstd::prelude::*;

use sha2::Digest;

use crate::error::EngineError;
use crate::schema::InputType;
use crate::text::{
    decimal, decimal_chars, hex_lower, hex_lower_chars, is_lower_hex_digit, lemma_hex_lower_digits, string_of,
};

verus! {

/// 25 MB.
pub const MAX_INPUT_BYTES: u64 = 25 * 1024 * 1024;

pub struct ValidatedInput {
    pub bytes: Vec<u8>,
    pub input_type: InputType,
    /// SHA-256 hex digest of `bytes`, for correlation and dedup only, not integrity.
    pub content_hash: String,
}

/// Name for the SHA-256 digest (FIPS 180-4) of a byte sequence.
pub uninterp spec fn sha256(data: Seq<u8>) -> Seq<u8>;

/// Calls `sha2::Sha256::digest`. Claims that the result is what the name
/// `sha256` gives for the bytes, and that it is 32 bytes long (the output
/// size the crate declares for `Sha256`).
#[verifier::external_body]
fn sha256_digest(data: &[u8]) -> (r: Vec<u8>)
    ensures
        r@ == sha256(data@),
        r@.len() == 32,
{
    sha2::Sha256::digest(data).to_vec()
}

/// Lower-case hex SHA-256 digest of the bytes: 64 characters.
pub fn content_hash(bytes: &[u8]) -> (r: String)
    ensures
        r@ == hex_lower(sha256(bytes@)),
        r@.len() == 64,
        forall|i: int| 0 <= i < r@.len() ==> is_lower_hex_digit(#[trigger] r@[i]),
{
    let digest = sha256_digest(bytes);
    proof {
        lemma_hex_lower_digits(digest@);
    }
    let hex = hex_lower_chars(digest.as_slice());
    string_of(hex.as_slice())
}

pub open spec fn starts_with(bytes: Seq<u8>, prefix: Seq<u8>) -> bool {
    prefix.len() <= bytes.len() && bytes.subrange(0, prefix.len() as int) == prefix
}

/// `%PDF-`
pub open spec fn pdf_magic() -> Seq<u8> {
    seq![0x25u8, 0x50u8, 0x44u8, 0x46u8, 0x2du8]
}

pub open spec fn jpeg_magic() -> Seq<u8> {
    seq![0xffu8, 0xd8u8, 0xffu8]
}

pub open spec fn png_magic() -> Seq<u8> {
    seq![0x89u8, 0x50u8, 0x4eu8, 0x47u8, 0x0du8, 0x0au8, 0x1au8, 0x0au8]
}

/// The input type that the leading bytes announce, if any.
pub open spec fn sniffed_type(bytes: Seq<u8>) -> Option<InputType> {
    if starts_with(bytes, pdf_magic()) {
        Some(InputType::Pdf)
    } else if starts_with(bytes, jpeg_magic()) || starts_with(bytes, png_magic()) {
        Some(InputType::Image)
    } else {
        None
    }
}

fn has_prefix(bytes: &[u8], prefix: &[u8]) -> (b: bool)
    ensures
        b == starts_with(bytes@, prefix@),
{
    if prefix.len() > bytes.len() {
        return false;
    }
    for i in 0..prefix.len()
        invariant
            prefix@.len() <= bytes@.len(),
            forall|k: int| 0 <= k < i ==> bytes@[k] == prefix@[k],
    {
        if bytes[i] != prefix[i] {
            assert(bytes@.subrange(0, prefix@.len() as int)[i as int] != prefix@[i as int]);
            return false;
        }
    }
    assert(bytes@.subrange(0, prefix@.len() as int) =~= prefix@);
    true
}

/// Sniffs magic bytes rather than trusting a file extension.
pub fn sniff_type(bytes: &[u8]) -> (r: Option<InputType>)
    ensures
        r == sniffed_type(bytes@),
{
    let pdf: [u8; 5] = [0x25, 0x50, 0x44, 0x46, 0x2d];
    let jpeg: [u8; 3] = [0xff, 0xd8, 0xff];
    let png: [u8; 8] = [0x89, 0x50, 0x4e, 0x47, 0x0d, 0x0a, 0x1a, 0x0a];
    assert(pdf@ =~= pdf_magic());
    assert(jpeg@ =~= jpeg_magic());
    assert(png@ =~= png_magic());
    if has_prefix(bytes, &pdf) {
        return Some(InputType::Pdf);
    }
    if has_prefix(bytes, &jpeg) || has_prefix(bytes, &png) {
        return Some(InputType::Image);
    }
    None
}

/// The message for an input over the size limit.
pub open spec fn too_large_message(path: Seq<char>, len: u64) -> Seq<char> {
    path + " is "@ + decimal(len as nat) + " bytes, exceeds the "@ + decimal(MAX_INPUT_BYTES as nat)
        + " byte limit"@
}

pub open spec fn is_input_error(e: EngineError, code: Seq<char>, message: Seq<char>) -> bool {
    e matches EngineError::InvalidInput { code: c, message: m } && c@ == code && m@ == message
}

/// Checks the input's size before it is read: empty and over-limit inputs
/// are refused.
pub fn check_input_size(path_display: &str, len: u64) -> (r: Result<(), EngineError>)
    ensures
        len == 0 ==> (r matches Err(e) && is_input_error(e, "INPUT_EMPTY"@, path_display@ + " is empty"@)),
        len > MAX_INPUT_BYTES ==> (r matches Err(e) && is_input_error(
            e,
            "INPUT_TOO_LARGE"@,
            too_large_message(path_display@, len),
        )),
        0 < len <= MAX_INPUT_BYTES ==> r is Ok,
{
    if len == 0 {
        let mut message = String::new();
        message.push_str(path_display);
        message.push_str(" is empty");
        return Err(EngineError::InvalidInput { code: "INPUT_EMPTY", message });
    }
    if len > MAX_INPUT_BYTES {
        let mut message = String::new();
        message.push_str(path_display);
        message.push_str(" is ");
        let n = string_of(decimal_chars(len).as_slice());
        message.push_str(n.as_str());
        message.push_str(" bytes, exceeds the ");
        let limit = string_of(decimal_chars(MAX_INPUT_BYTES).as_slice());
        message.push_str(limit.as_str());
        message.push_str(" byte limit");
        return Err(EngineError::InvalidInput { code: "INPUT_TOO_LARGE", message });
    }
    Ok(())
}

/// Which read of the input failed.
#[derive(Clone, Copy, Debug, PartialEq, Eq, Structural)]
pub enum ReadStep {
    /// Looking up the file's metadata.
    Metadata,
    /// Reading the file's contents.
    Contents,
}

/// The error for an input that could not be read; `cause` is the
/// operating system's account of why.
pub fn read_failure(step: ReadStep, path_display: &str, cause: &str) -> (e: EngineError)
    ensures
        is_input_error(
            e,
            match step {
                ReadStep::Metadata => "INPUT_NOT_FOUND"@,
                ReadStep::Contents => "INPUT_UNREADABLE"@,
            },
            "cannot read "@ + path_display@ + ": "@ + cause@,
        ),
{
    let mut message = String::new();
    message.push_str("cannot read ");
    message.push_str(path_display);
    message.push_str(": ");
    message.push_str(cause);
    match step {
        ReadStep::Metadata => EngineError::InvalidInput { code: "INPUT_NOT_FOUND", message },
        ReadStep::Contents => EngineError::InvalidInput { code: "INPUT_UNREADABLE", message },
    }
}

/// Finishes validation once the bytes are read: the type must be sniffed
/// from them, and their digest is recorded.
pub fn validate_contents(path_display: &str, bytes: Vec<u8>) -> (r: Result<ValidatedInput, EngineError>)
    ensures
        match sniffed_type(bytes@) {
            Some(t) => r matches Ok(v) && v.bytes@ == bytes@ && v.input_type == t && v.content_hash@
                == hex_lower(sha256(bytes@)) && v.content_hash@.len() == 64 && (forall|i: int|
                0 <= i < v.content_hash@.len() ==> is_lower_hex_digit(#[trigger] v.content_hash@[i])),
            None => r matches Err(EngineError::UnsupportedFormat { code, message }) && code@
                == "UNRECOGNIZED_INPUT_TYPE"@ && message@ == path_display@
                + " is neither a recognizable PDF nor a supported image format"@,
        },
{
    match sniff_type(bytes.as_slice()) {
        Some(input_type) => {
            let content_hash = content_hash(bytes.as_slice());
            Ok(ValidatedInput { bytes, input_type, content_hash })
        },
        None => {
            let mut message = String::new();
            message.push_str(path_display);
            message.push_str(" is neither a recognizable PDF nor a supported image format");
            Err(EngineError::UnsupportedFormat { code: "UNRECOGNIZED_INPUT_TYPE", message })
        },
    }
}


/// Only the first eight bytes decide the sniffed type.
pub proof fn lemma_sniff_reads_eight_bytes(bytes: Seq<u8>, more: Seq<u8>)
    requires
        bytes.len() >= 8,
    ensures
        sniffed_type(bytes + more) == sniffed_type(bytes),
{
    let all = bytes + more;
    assert(all.subrange(0, 5) =~= bytes.subrange(0, 5));
    assert(all.subrange(0, 3) =~= bytes.subrange(0, 3));
    assert(all.subrange(0, 8) =~= bytes.subrange(0, 8));
}

/// The type is read off the magic bytes: `%PDF-` makes a PDF; `FF D8 FF`
/// (JPEG) or `89 50 4E 47 0D 0A 1A 0A` (PNG) makes an image; anything else
/// is not recognized.
pub proof fn lemma_sniff_by_magic(b: Seq<u8>)
    ensures
        sniffed_type(b) == Some(InputType::Pdf) <==> (b.len() >= 5 && b[0] == 0x25 && b[1] == 0x50 && b[2]
            == 0x44 && b[3] == 0x46 && b[4] == 0x2d),
        sniffed_type(b) == Some(InputType::Image) <==> sniffed_type(b) != Some(InputType::Pdf) && ((b.len()
            >= 3 && b[0] == 0xff && b[1] == 0xd8 && b[2] == 0xff) || (b.len() >= 8 && b[0] == 0x89 && b[1]
            == 0x50 && b[2] == 0x4e && b[3] == 0x47 && b[4] == 0x0d && b[5] == 0x0a && b[6] == 0x1a && b[7]
            == 0x0a)),
{
    if b.len() >= 5 {
        if b[0] == 0x25 && b[1] == 0x50 && b[2] == 0x44 && b[3] == 0x46 && b[4] == 0x2d {
            assert(b.subrange(0, 5) =~= pdf_magic());
        }
    }
    if b.len() >= 3 {
        if b[0] == 0xff && b[1] == 0xd8 && b[2] == 0xff {
            assert(b.subrange(0, 3) =~= jpeg_magic());
        }
    }
    if b.len() >= 8 {
        if b[0] == 0x89 && b[1] == 0x50 && b[2] == 0x4e && b[3] == 0x47 && b[4] == 0x0d && b[5] == 0x0a
            && b[6] == 0x1a && b[7] == 0x0a {
            assert(b.subrange(0, 8) =~= png_magic());
        }
    }
    if starts_with(b, pdf_magic()) {
        assert(b.subrange(0, 5)[4] == b[4]);
    }
}

} // verus!
