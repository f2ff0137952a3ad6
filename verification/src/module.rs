//! Modules: the registry of the functions that belong together.

use crate::arena::index_eq;
use crate::context::{Context, Entity};
use crate::function::Function;
use generational_arena::Index;
use vstd::prelude::*;

verus! {

/// A handle to a module.
#[derive(Clone, Copy, Debug, Hash)]
pub struct Module(pub Index);

impl PartialEq for Module {
    fn eq(&self, other: &Module) -> (same: bool) {
        index_eq(&self.0, &other.0)
    }
}

impl Eq for Module {

}

impl vstd::std_specs::cmp::PartialEqSpecImpl for Module {
    open spec fn obeys_eq_spec() -> bool {
        true
    }

    open spec fn eq_spec(&self, other: &Module) -> bool {
        self.0 == other.0
    }
}

/// The stored form of a module.
#[derive(Debug)]
pub struct ModuleContent {
    /// The module's functions, in the order in which they were created.
    pub functions: Vec<Function>,
}

/// The model of a [`ModuleContent`].
pub struct ModuleView {
    pub functions: Seq<Function>,
}

impl View for ModuleContent {
    type V = ModuleView;

    open spec fn view(&self) -> ModuleView {
        ModuleView { functions: self.functions@ }
    }
}

impl Module {
    /// Store a new module without functions.
    pub fn new(context: &mut Context) -> (module: Module)
        ensures
            !old(context)@.entities.contains_key(module.0),
            final(context)@ == old(context)@.with_module(
                module,
                ModuleView { functions: Seq::empty() },
            ),
            old(context)@.valid() ==> final(context)@.valid(),
            old(context)@.wf() ==> final(context)@.wf(),
    {
        let content = ModuleContent { functions: Vec::new() };
        Module(context.insert(Entity::Module(content)))
    }
}

} // verus!
