use vstd::prelude::*;

use crate::error::EngineError;
use crate::schema::BankStatementData;
use crate::taxonomy::Taxonomy;

verus! {

pub open spec fn no_bank_statement_parser(e: EngineError) -> bool {
    e matches EngineError::Structuring { code, message } && code@ == "UNRECOGNIZED_FORMAT"@ && message@
        == "no bank statement parser is registered for this document's layout"@
}

/// No bank-format-specific parser is registered yet. A clean
/// `UNRECOGNIZED_FORMAT` error is the correct answer, not a best-effort
/// guess at the structure.
pub fn structure(_text: &str, _taxonomy: &Taxonomy) -> (r: Result<BankStatementData, EngineError>)
    ensures
        r matches Err(e) && no_bank_statement_parser(e),
{
    Err(
        EngineError::Structuring {
            code: "UNRECOGNIZED_FORMAT",
            message: "no bank statement parser is registered for this document's layout".to_string(),
        },
    )
}

} // verus!
