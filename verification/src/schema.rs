//! The data model of a conversion: what a document is, what was extracted
//! from it, and the envelope that reports success or failure.
use vstd::prelude::*;

use crate::error::{EngineError, Stage};

verus! {

#[derive(Clone, Copy, Debug, PartialEq, Eq, Structural)]
pub enum InputType {
    Pdf,
    Image,
}

#[derive(Clone, Copy, Debug, PartialEq, Eq, Structural)]
pub enum DocumentType {
    BankStatement,
    GroceryBill,
}

#[derive(Clone, Copy, Debug, PartialEq, Eq, Structural)]
pub enum ExtractionMethod {
    PdfTextLayer,
    Ocr,
}

/// Facts about one conversion, filled in stage by stage.
#[derive(Debug)]
pub struct Meta {
    pub input_file: String,
    pub input_type: Option<InputType>,
    pub document_type: Option<DocumentType>,
    pub extraction_method: Option<ExtractionMethod>,
    pub processing_time_ms: u128,
    pub engine_version: &'static str,
}

#[derive(Clone, Copy, Debug, PartialEq, Eq, Structural)]
pub enum AccountType {
    Checking,
    Savings,
    CreditCard,
    Unknown,
}

/// A decimal quantity: `units` times ten to the power of minus `scale`
/// (so `Decimal { units: 5432, scale: 2 }` is 54.32).
#[derive(Clone, Copy, Debug, PartialEq, Eq, Structural)]
pub struct Decimal {
    pub units: i64,
    pub scale: u32,
}

#[derive(Debug)]
pub struct StatementPeriod {
    pub start: String,
    pub end: String,
}

#[derive(Debug)]
pub struct Account {
    pub bank_name: Option<String>,
    pub account_holder_name: Option<String>,
    pub account_type: AccountType,
    pub currency: Option<String>,
    pub statement_period: Option<StatementPeriod>,
    pub opening_balance: Option<Decimal>,
    pub closing_balance: Option<Decimal>,
}

/// An advisory category for a line, found by the taxonomy matcher.
#[derive(Debug)]
pub struct CategorySuggestion {
    pub name: String,
    pub match_confidence: Decimal,
    pub matched_pattern: String,
}

impl Clone for CategorySuggestion {
    fn clone(&self) -> (r: Self)
        ensures
            r == *self,
    {
        CategorySuggestion {
            name: self.name.clone(),
            match_confidence: self.match_confidence,
            matched_pattern: self.matched_pattern.clone(),
        }
    }
}

#[derive(Debug)]
pub struct Transaction {
    pub date: Option<String>,
    pub raw_text: String,
    pub description: Option<String>,
    pub merchant: Option<String>,
    pub debit: Option<Decimal>,
    pub credit: Option<Decimal>,
    pub balance: Option<Decimal>,
    /// Always `None` from the engine: categorizing is the ingestion layer's call.
    pub category: Option<String>,
    pub category_suggestion: Option<CategorySuggestion>,
}

#[derive(Debug)]
pub struct BankStatementData {
    pub account: Account,
    pub transactions: Vec<Transaction>,
}

#[derive(Debug)]
pub struct GroceryMerchant {
    pub name: Option<String>,
    pub address: Option<String>,
    pub phone: Option<String>,
}

#[derive(Debug)]
pub struct Receipt {
    pub date: Option<String>,
    pub receipt_number: Option<String>,
    pub payment_method: Option<String>,
}

#[derive(Debug)]
pub struct GroceryItem {
    pub name: String,
    pub raw_text: String,
    pub quantity: Option<Decimal>,
    pub unit_price: Option<Decimal>,
    pub total_price: Option<Decimal>,
    pub category: Option<String>,
    pub category_suggestion: Option<CategorySuggestion>,
}

#[derive(Debug)]
pub struct Totals {
    pub subtotal: Option<Decimal>,
    pub tax: Option<Decimal>,
    pub discount: Option<Decimal>,
    pub total: Option<Decimal>,
}

#[derive(Debug)]
pub struct GroceryBillData {
    pub merchant: GroceryMerchant,
    pub receipt: Receipt,
    pub items: Vec<GroceryItem>,
    pub totals: Totals,
    pub currency: Option<String>,
}

#[derive(Debug)]
pub enum DocumentData {
    BankStatement(BankStatementData),
    GroceryBill(GroceryBillData),
}

#[derive(Debug)]
pub struct ErrorDetail {
    pub stage: Stage,
    pub code: String,
    pub message: String,
}

#[derive(Debug)]
pub enum Envelope {
    Success { meta: Meta, data: DocumentData },
    Error { meta: Meta, error: ErrorDetail },
}

impl Envelope {
    /// The error envelope for `err`: its stage, code and message, with `meta`.
    pub fn error(meta: Meta, err: &EngineError) -> (r: Self)
        ensures
            r matches Envelope::Error { meta: m, error: d } && m == meta && d.stage == err.spec_stage()
                && d.code@ == err.spec_code()@ && d.message@ == err.spec_message()@,
    {
        let code = err.code();
        Envelope::Error {
            meta,
            error: ErrorDetail {
                stage: err.stage(),
                code: code.to_string(),
                message: err.message(),
            },
        }
    }
}

} // verus!
