//! What can go wrong while one capture file is converted. Such a failure
//! concerns that file alone; the batch goes on.

use vstd::prelude::*;
use vstd::string::*;

verus! {

/// A failure that ends the conversion of one file.
#[derive(Debug, PartialEq, Eq)]
pub enum ConvertError {
    /// The catalog has no entry for the requested category.
    CategoryNotFound { category: String },
}

/// The text reported for an unknown category.
pub open spec fn category_not_found_text(category: Seq<char>) -> Seq<char> {
    "CAT "@ + category + " não encontrada"@
}

impl ConvertError {
    /// The text of the failure as it is reported to the operator.
    pub open spec fn text(&self) -> Seq<char> {
        match self {
            ConvertError::CategoryNotFound { category } => category_not_found_text(category@),
        }
    }

    /// Renders the failure for the operator.
    pub fn message(&self) -> (message: String)
        ensures
            message@ == self.text(),
    {
        match self {
            ConvertError::CategoryNotFound { category } => {
                String::from_str("CAT ").concat(category.as_str()).concat(" não encontrada")
            },
        }
    }
}

} // verus!
