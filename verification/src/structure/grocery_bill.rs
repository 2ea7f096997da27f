use vstd::prelude::*;

use crate::error::EngineError;
use crate::schema::GroceryBillData;
use crate::taxonomy::Taxonomy;

verus! {

pub open spec fn no_grocery_bill_parser(e: EngineError) -> bool {
    e matches EngineError::Structuring { code, message } && code@ == "UNRECOGNIZED_FORMAT"@ && message@
        == "no grocery bill parser is registered for this document's layout"@
}

/// No retailer-format-specific parser is registered yet.
pub fn structure(_text: &str, _taxonomy: &Taxonomy) -> (r: Result<GroceryBillData, EngineError>)
    ensures
        r matches Err(e) && no_grocery_bill_parser(e),
{
    Err(
        EngineError::Structuring {
            code: "UNRECOGNIZED_FORMAT",
            message: "no grocery bill parser is registered for this document's layout".to_string(),
        },
    )
}

} // verus!
