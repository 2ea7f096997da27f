use doc_scanner_core::error::EngineError;
use doc_scanner_core::input::{
    check_input_size, content_hash, read_failure, sniff_type, validate_contents, ReadStep, MAX_INPUT_BYTES,
};
use doc_scanner_core::schema::InputType;

#[test]
fn sniffs_pdf_jpeg_png() {
    assert_eq!(sniff_type(b"%PDF-1.7\n"), Some(InputType::Pdf));
    assert_eq!(sniff_type(&[0xFF, 0xD8, 0xFF, 0xE0]), Some(InputType::Image));
    assert_eq!(sniff_type(&[0x89, 0x50, 0x4E, 0x47, 0x0D, 0x0A, 0x1A, 0x0A, 0]), Some(InputType::Image));
}

#[test]
fn unknown_or_short_bytes_are_not_sniffed() {
    assert_eq!(sniff_type(b""), None);
    assert_eq!(sniff_type(b"%PDF"), None);
    assert_eq!(sniff_type(&[0x89, 0x50, 0x4E, 0x47]), None);
    assert_eq!(sniff_type(b"hello world"), None);
}

#[test]
fn size_limits() {
    let e = check_input_size("a.pdf", 0).unwrap_err();
    assert_eq!(e.code(), "INPUT_EMPTY");
    assert_eq!(e.message(), "a.pdf is empty");
    assert_eq!(e.exit_code(), 2);
    assert!(check_input_size("a.pdf", 1).is_ok());
    assert!(check_input_size("a.pdf", MAX_INPUT_BYTES).is_ok());
    let e = check_input_size("big.pdf", MAX_INPUT_BYTES + 1).unwrap_err();
    assert_eq!(e.code(), "INPUT_TOO_LARGE");
    assert_eq!(e.message(), "big.pdf is 26214401 bytes, exceeds the 26214400 byte limit");
}

#[test]
fn read_failures() {
    let e = read_failure(ReadStep::Metadata, "x.pdf", "No such file or directory (os error 2)");
    assert_eq!(e.code(), "INPUT_NOT_FOUND");
    assert_eq!(e.message(), "cannot read x.pdf: No such file or directory (os error 2)");
    let e = read_failure(ReadStep::Contents, "x.pdf", "denied");
    assert_eq!(e.code(), "INPUT_UNREADABLE");
    assert!(matches!(e, EngineError::InvalidInput { .. }));
}

#[test]
fn content_hash_is_sha256_hex() {
    assert_eq!(content_hash(b"abc"), "ba7816bf8f01cfea414140de5dae2223b00361a396177a9cb410ff61f20015ad");
}

#[test]
fn validate_contents_sniffs_and_hashes() {
    let v = validate_contents("s.pdf", b"%PDF-1.4 hello".to_vec()).unwrap();
    assert_eq!(v.input_type, InputType::Pdf);
    assert_eq!(v.bytes, b"%PDF-1.4 hello".to_vec());
    assert_eq!(v.content_hash, "f31cdee0b4d4fdae0638872f6bb7d0e6ee041386a9055d5e64c25d9d35dc88d1");
    let v = validate_contents("p.png", b"\x89PNG\r\n\x1a\nrest".to_vec()).unwrap();
    assert_eq!(v.input_type, InputType::Image);
    assert_eq!(v.content_hash, "f02a830cf03a1cf756c0461481db682bc9254a5a399f847494d33850c3ff7156");
}

#[test]
fn unrecognized_contents() {
    let e = validate_contents("notes.txt", b"hello".to_vec()).err().unwrap();
    assert!(matches!(e, EngineError::UnsupportedFormat { .. }));
    assert_eq!(e.code(), "UNRECOGNIZED_INPUT_TYPE");
    assert_eq!(e.message(), "notes.txt is neither a recognizable PDF nor a supported image format");
    assert_eq!(e.exit_code(), 3);
}

#[test]
fn validated_hash_is_sixty_four_lower_hex_digits() {
    let v = validate_contents("doc.pdf", b"%PDF-1.7 anything".to_vec()).ok().unwrap();
    assert_eq!(v.content_hash.len(), 64);
    assert!(v.content_hash.chars().all(|c| c.is_ascii_digit() || ('a'..='f').contains(&c)));
}
