use doc_scanner_core::classify::{classify, classify_lowercased};
use doc_scanner_core::error::{EngineError, Stage};
use doc_scanner_core::schema::DocumentType;

#[test]
fn bank_keywords_make_a_bank_statement() {
    let text = "Example Bank\nStatement Period: 1 Aug - 31 Aug\nOpening Balance 1000.00\nClosing Balance 1245.50";
    assert_eq!(classify(text).unwrap(), DocumentType::BankStatement);
}

#[test]
fn grocery_keywords_make_a_grocery_bill() {
    let text = "RECEIPT\nMILK 3.50\nSUBTOTAL 45.00\nTOTAL DUE 48.60\nCashier: Ann";
    assert_eq!(classify(text).unwrap(), DocumentType::GroceryBill);
}

#[test]
fn more_keywords_win() {
    // two bank keywords, one grocery keyword
    let text = "iban GB00 sort code 12-34-56 receipt";
    assert_eq!(classify(text).unwrap(), DocumentType::BankStatement);
    // one bank keyword, two grocery keywords
    let text = "iban GB00 subtotal 3 qty 2";
    assert_eq!(classify(text).unwrap(), DocumentType::GroceryBill);
}

#[test]
fn a_tie_goes_to_bank_statement() {
    assert_eq!(classify("IBAN and RECEIPT").unwrap(), DocumentType::BankStatement);
}

#[test]
fn no_keyword_is_inconclusive() {
    let err = classify("hello world").unwrap_err();
    assert!(matches!(err, EngineError::Classification { .. }));
    assert_eq!(err.code(), "CLASSIFICATION_INCONCLUSIVE");
    assert_eq!(err.message(), "could not determine whether this is a bank statement or grocery bill");
    assert_eq!(err.stage(), Stage::Classification);
    assert_eq!(err.exit_code(), 5);
}

#[test]
fn classify_lowercased_is_case_sensitive() {
    assert!(classify_lowercased("STATEMENT PERIOD").is_err());
    assert_eq!(classify_lowercased("statement period").unwrap(), DocumentType::BankStatement);
}

#[test]
fn classify_ignores_ascii_case() {
    assert_eq!(classify("OPENING BALANCE and CLOSING BALANCE").ok().unwrap(), classify("opening balance and closing balance").ok().unwrap());
}
