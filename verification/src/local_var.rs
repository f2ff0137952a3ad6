//! Local variables: typed, optionally initialized storage slots of a function.

use crate::arena::index_eq;
use crate::constant::Constant;
use crate::context::{Context, Entity};
use crate::irtype::Type;
use generational_arena::Index;
use vstd::prelude::*;

verus! {

/// A handle to a local variable.
#[derive(Clone, Copy, Debug, Hash)]
pub struct LocalVar(pub Index);

impl PartialEq for LocalVar {
    fn eq(&self, other: &LocalVar) -> (same: bool) {
        index_eq(&self.0, &other.0)
    }
}

impl Eq for LocalVar {

}

impl vstd::std_specs::cmp::PartialEqSpecImpl for LocalVar {
    open spec fn obeys_eq_spec() -> bool {
        true
    }

    open spec fn eq_spec(&self, other: &LocalVar) -> bool {
        self.0 == other.0
    }
}

/// The stored form of a local variable. It is its own model.
#[derive(Clone, Copy, Debug)]
pub struct LocalVarContent {
    pub ty: Type,
    pub initializer: Option<Constant>,
}

impl LocalVar {
    /// Store a new local variable. It belongs to no function yet.
    pub fn new(context: &mut Context, ty: Type, initializer: Option<Constant>) -> (var: LocalVar)
        ensures
            !old(context)@.entities.contains_key(var.0),
            final(context)@ == old(context)@.with_local_var(
                var,
                LocalVarContent { ty, initializer },
            ),
            old(context)@.valid() ==> final(context)@.valid(),
            old(context)@.wf() ==> final(context)@.wf(),
    {
        let content = LocalVarContent { ty, initializer };
        LocalVar(context.insert(Entity::LocalVar(content)))
    }

    /// The type of the variable.
    pub fn get_type(&self, context: &Context) -> (ty: Type)
        requires
            context@.has_local_var(*self),
        ensures
            ty == context@.local_var(*self).ty,
    {
        context.local_var(*self).ty
    }

    /// The constant that the variable starts with, if any.
    pub fn get_initializer(&self, context: &Context) -> (initializer: Option<Constant>)
        requires
            context@.has_local_var(*self),
        ensures
            initializer == context@.local_var(*self).initializer,
    {
        context.local_var(*self).initializer
    }
}

} // verus!
