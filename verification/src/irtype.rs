//! Type descriptors. The function-level code carries them and never looks
//! inside.

use vstd::prelude::*;

verus! {

/// The type of a value, an argument or a local variable.
#[derive(Clone, Copy, Debug, PartialEq, Eq, Structural, Hash)]
pub enum Type {
    Unit,
    Bool,
    Uint(u8),
    B256,
    String(u64),
}

} // verus!
