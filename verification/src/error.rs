//! The failures that the structural operations report.

use vstd::prelude::*;

verus! {

/// A structural operation named an entity that is not where it must be.
#[derive(Debug, PartialEq, Eq)]
pub enum IrError {
    /// The anchor of a relative insertion is not in the function's block
    /// list; holds the anchor's label.
    MissingBlock(String),
    /// The block to remove is not in the function's block list; holds its
    /// label.
    RemoveMissingBlock(String),
    /// A local variable of that name exists already; holds the function's
    /// name and the local's.
    FunctionLocalClobbered(String, String),
}

} // verus!
