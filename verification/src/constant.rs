//! Compile-time constants, used here as initializers of local variables.

use crate::irtype::Type;
use vstd::prelude::*;

verus! {

/// What a constant holds.
#[derive(Clone, Copy, Debug, PartialEq, Eq, Structural)]
pub enum ConstantValue {
    Undef,
    Unit,
    Bool(bool),
    Uint(u64),
}

/// A typed constant.
#[derive(Clone, Copy, Debug, PartialEq, Eq, Structural)]
pub struct Constant {
    pub ty: Type,
    pub value: ConstantValue,
}

impl Constant {
    /// The unit constant.
    pub fn new_unit() -> (c: Constant)
        ensures
            c == (Constant { ty: Type::Unit, value: ConstantValue::Unit }),
    {
        Constant { ty: Type::Unit, value: ConstantValue::Unit }
    }

    /// A boolean constant.
    pub fn new_bool(b: bool) -> (c: Constant)
        ensures
            c == (Constant { ty: Type::Bool, value: ConstantValue::Bool(b) }),
    {
        Constant { ty: Type::Bool, value: ConstantValue::Bool(b) }
    }

    /// An unsigned integer constant of the given width.
    pub fn new_uint(nbits: u8, n: u64) -> (c: Constant)
        ensures
            c == (Constant { ty: Type::Uint(nbits), value: ConstantValue::Uint(n) }),
    {
        Constant { ty: Type::Uint(nbits), value: ConstantValue::Uint(n) }
    }
}

} // verus!
