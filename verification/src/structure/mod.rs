//! Structuring: turning raw text into the schema for its document type, one
//! rule-based parser per known issuer layout.
pub mod bank_statement;
pub mod grocery_bill;

use vstd::prelude::*;

use crate::error::EngineError;
use crate::schema::{DocumentData, DocumentType};
use crate::taxonomy::Taxonomy;

use self::bank_statement::no_bank_statement_parser;
use self::grocery_bill::no_grocery_bill_parser;

verus! {

/// What structuring text of the given type gives: no layout-specific parser
/// is registered for either type, so the outcome is always the clean
/// `UNRECOGNIZED_FORMAT` error of that type's structurer.
pub open spec fn structure_result(
    document_type: DocumentType,
    r: Result<DocumentData, EngineError>,
) -> bool {
    match document_type {
        DocumentType::BankStatement => r matches Err(e) && no_bank_statement_parser(e),
        DocumentType::GroceryBill => r matches Err(e) && no_grocery_bill_parser(e),
    }
}

pub fn structure(text: &str, document_type: DocumentType, taxonomy: &Taxonomy) -> (r: Result<
    DocumentData,
    EngineError,
>)
    ensures
        structure_result(document_type, r),
{
    match document_type {
        DocumentType::BankStatement => match bank_statement::structure(text, taxonomy) {
            Ok(data) => Ok(DocumentData::BankStatement(data)),
            Err(e) => Err(e),
        },
        DocumentType::GroceryBill => match grocery_bill::structure(text, taxonomy) {
            Ok(data) => Ok(DocumentData::GroceryBill(data)),
            Err(e) => Err(e),
        },
    }
}

} // verus!
