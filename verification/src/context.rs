//! The context: the one store that owns every module, function, block, value
//! and local variable. Handles are positions in it.

use crate::arena::{arena_entries, arena_get, arena_get_mut, arena_insert, arena_new};
use crate::block::{Block, BlockContent, BlockView};
use crate::function::{Function, FunctionContent, FunctionView};
use crate::instruction::BranchView;
use crate::local_var::{LocalVar, LocalVarContent};
use crate::module::{Module, ModuleContent, ModuleView};
use crate::text::name_before;
use crate::value::{Value, ValueContent, ValueDatumView, ValueView};
use generational_arena::{Arena, Index};
use vstd::pervasive::unreached;
use vstd::prelude::*;

verus! {

/// What the store holds under one handle.
#[derive(Debug)]
pub enum Entity {
    Module(ModuleContent),
    Function(FunctionContent),
    Block(BlockContent),
    Value(ValueContent),
    LocalVar(LocalVarContent),
}

/// The model of an [`Entity`].
pub enum EntityView {
    Module(ModuleView),
    Function(FunctionView),
    Block(BlockView),
    Value(ValueView),
    LocalVar(LocalVarContent),
}

impl View for Entity {
    type V = EntityView;

    open spec fn view(&self) -> EntityView {
        match *self {
            Entity::Module(m) => EntityView::Module(m@),
            Entity::Function(f) => EntityView::Function(f@),
            Entity::Block(b) => EntityView::Block(b@),
            Entity::Value(v) => EntityView::Value(v@),
            Entity::LocalVar(l) => EntityView::LocalVar(l),
        }
    }
}

/// The store.
pub struct Context {
    pub entities: Arena<Entity>,
}

/// The model of a [`Context`]: the model of each entity, by handle.
pub struct ContextView {
    pub entities: Map<Index, EntityView>,
}

impl View for Context {
    type V = ContextView;

    open spec fn view(&self) -> ContextView {
        ContextView {
            entities: Map::new(
                |i: Index| arena_entries(self.entities).contains_key(i),
                |i: Index| arena_entries(self.entities)[i]@,
            ),
        }
    }
}

/// Names in strictly increasing order.
pub open spec fn names_increase<T>(entries: Seq<(Seq<char>, T)>) -> bool {
    forall|j: int, k: int|
        0 <= j < k < entries.len() ==> name_before(
            (#[trigger] entries[j]).0,
            (#[trigger] entries[k]).0,
        )
}

impl ContextView {
    pub open spec fn has_module(self, m: Module) -> bool {
        self.entities.contains_key(m.0) && self.entities[m.0] is Module
    }

    pub open spec fn has_function(self, f: Function) -> bool {
        self.entities.contains_key(f.0) && self.entities[f.0] is Function
    }

    pub open spec fn has_block(self, b: Block) -> bool {
        self.entities.contains_key(b.0) && self.entities[b.0] is Block
    }

    pub open spec fn has_value(self, v: Value) -> bool {
        self.entities.contains_key(v.0) && self.entities[v.0] is Value
    }

    pub open spec fn has_local_var(self, l: LocalVar) -> bool {
        self.entities.contains_key(l.0) && self.entities[l.0] is LocalVar
    }

    pub open spec fn module(self, m: Module) -> ModuleView
        recommends
            self.has_module(m),
    {
        self.entities[m.0]->Module_0
    }

    pub open spec fn function(self, f: Function) -> FunctionView
        recommends
            self.has_function(f),
    {
        self.entities[f.0]->Function_0
    }

    pub open spec fn block(self, b: Block) -> BlockView
        recommends
            self.has_block(b),
    {
        self.entities[b.0]->Block_0
    }

    pub open spec fn value(self, v: Value) -> ValueView
        recommends
            self.has_value(v),
    {
        self.entities[v.0]->Value_0
    }

    pub open spec fn local_var(self, l: LocalVar) -> LocalVarContent
        recommends
            self.has_local_var(l),
    {
        self.entities[l.0]->LocalVar_0
    }

    /// The store with one entity added or replaced.
    pub open spec fn with(self, i: Index, e: EntityView) -> ContextView {
        ContextView { entities: self.entities.insert(i, e) }
    }

    pub open spec fn with_module(self, m: Module, content: ModuleView) -> ContextView {
        self.with(m.0, EntityView::Module(content))
    }

    pub open spec fn with_function(self, f: Function, content: FunctionView) -> ContextView {
        self.with(f.0, EntityView::Function(content))
    }

    pub open spec fn with_block(self, b: Block, content: BlockView) -> ContextView {
        self.with(b.0, EntityView::Block(content))
    }

    pub open spec fn with_value(self, v: Value, content: ValueView) -> ContextView {
        self.with(v.0, EntityView::Value(content))
    }

    pub open spec fn with_local_var(self, l: LocalVar, content: LocalVarContent) -> ContextView {
        self.with(l.0, EntityView::LocalVar(content))
    }

    /// The labels of a function's blocks, in block order.
    pub open spec fn labels(self, f: Function) -> Seq<Seq<char>> {
        Seq::new(self.function(f).blocks.len(), |k: int| self.block(self.function(f).blocks[k]).label)
    }

    /// The branches that leave a block: those of its last instruction.
    pub open spec fn successors(self, b: Block) -> Seq<BranchView> {
        let instructions = self.block(b).instructions;
        if instructions.len() == 0 {
            Seq::empty()
        } else {
            match self.value(instructions.last()).datum {
                ValueDatumView::Instruction(ins) => ins.branches(),
                _ => Seq::empty(),
            }
        }
    }

    /// The two stores hold the same handles and differ at most in what their
    /// values are.
    pub open spec fn differs_in_values_only(self, other: ContextView) -> bool {
        &&& self.entities.dom() == other.entities.dom()
        &&& forall|i: Index| #[trigger]
            self.entities.contains_key(i) ==> (if self.entities[i] is Value {
                other.entities[i] is Value
            } else {
                other.entities[i] == self.entities[i]
            })
    }

    /// The function's label counter can serve one more block, however many of
    /// the present labels a candidate runs into.
    pub open spec fn can_label(self, f: Function) -> bool {
        self.function(f).next_label_idx + self.function(f).blocks.len() < u64::MAX
    }

    /// A function refers to values, blocks and local variables of this store
    /// only, and lists its local variables by name in increasing order, each
    /// under a handle of its own.
    pub open spec fn function_valid(self, f: FunctionView) -> bool {
        &&& forall|k: int|
            0 <= k < f.arguments.len() ==> self.has_value((#[trigger] f.arguments[k]).1)
        &&& forall|k: int| 0 <= k < f.blocks.len() ==> self.has_block(#[trigger] f.blocks[k])
        &&& forall|k: int|
            0 <= k < f.locals.len() ==> self.has_local_var((#[trigger] f.locals[k]).1)
        &&& names_increase(f.locals)
        &&& forall|j: int, k: int|
            0 <= j < k < f.locals.len() ==> (#[trigger] f.locals[j]).1 != (#[trigger] f.locals[k]).1
    }

    /// A block's instructions are values of this store.
    pub open spec fn block_valid(self, b: BlockView) -> bool {
        forall|k: int| 0 <= k < b.instructions.len() ==> self.has_value(#[trigger] b.instructions[k])
    }

    /// An instruction branches to blocks of this store only.
    pub open spec fn value_valid(self, v: ValueView) -> bool {
        match v.datum {
            ValueDatumView::Instruction(ins) => forall|k: int|
                0 <= k < ins.branches().len() ==> self.has_block((#[trigger] ins.branches()[k]).block),
            _ => true,
        }
    }

    pub open spec fn entity_valid(self, e: EntityView) -> bool {
        match e {
            EntityView::Function(f) => self.function_valid(f),
            EntityView::Block(b) => self.block_valid(b),
            EntityView::Value(v) => self.value_valid(v),
            _ => true,
        }
    }

    /// Every reference inside the store resolves, to an entity of the right
    /// kind, and the store is finite.
    pub open spec fn valid(self) -> bool {
        &&& self.entities.dom().finite()
        &&& forall|i: Index| #[trigger]
            self.entities.contains_key(i) ==> self.entity_valid(self.entities[i])
    }

    /// The store is valid and every function has its entry block.
    pub open spec fn wf(self) -> bool {
        &&& self.valid()
        &&& forall|i: Index| #[trigger]
            self.entities.contains_key(i) && self.entities[i] is Function
                ==> self.entities[i]->Function_0.blocks.len() > 0
    }
}

impl Context {
    /// An empty store.
    pub fn new() -> (context: Context)
        ensures
            context@.entities == Map::<Index, EntityView>::empty(),
            context@.wf(),
    {
        let context = Context { entities: arena_new() };
        assert(context@.entities =~= Map::<Index, EntityView>::empty());
        context
    }

    /// Store an entity under a handle that was not in use.
    pub fn insert(&mut self, entity: Entity) -> (index: Index)
        ensures
            !old(self)@.entities.contains_key(index),
            final(self)@ == old(self)@.with(index, entity@),
    {
        let index = arena_insert(&mut self.entities, entity);
        assert(self@.entities =~= old(self)@.entities.insert(index, entity@));
        index
    }

    /// Whether the handle is that of a module of this store.
    pub fn is_module(&self, m: Module) -> (found: bool)
        ensures
            found == self@.has_module(m),
    {
        match arena_get(&self.entities, m.0) {
            Some(Entity::Module(_)) => true,
            _ => false,
        }
    }

    /// Whether the handle is that of a function of this store.
    pub fn is_function(&self, f: Function) -> (found: bool)
        ensures
            found == self@.has_function(f),
    {
        match arena_get(&self.entities, f.0) {
            Some(Entity::Function(_)) => true,
            _ => false,
        }
    }

    /// Whether the handle is that of a block of this store.
    pub fn is_block(&self, b: Block) -> (found: bool)
        ensures
            found == self@.has_block(b),
    {
        match arena_get(&self.entities, b.0) {
            Some(Entity::Block(_)) => true,
            _ => false,
        }
    }

    /// Whether the handle is that of a value of this store.
    pub fn is_value(&self, v: Value) -> (found: bool)
        ensures
            found == self@.has_value(v),
    {
        match arena_get(&self.entities, v.0) {
            Some(Entity::Value(_)) => true,
            _ => false,
        }
    }

    /// Whether the handle is that of a local variable of this store.
    pub fn is_local_var(&self, l: LocalVar) -> (found: bool)
        ensures
            found == self@.has_local_var(l),
    {
        match arena_get(&self.entities, l.0) {
            Some(Entity::LocalVar(_)) => true,
            _ => false,
        }
    }

    /// The content of a module.
    pub fn module(&self, m: Module) -> (content: &ModuleContent)
        requires
            self@.has_module(m),
        ensures
            content@ == self@.module(m),
    {
        match arena_get(&self.entities, m.0) {
            Some(Entity::Module(content)) => content,
            _ => unreached(),
        }
    }

    /// The content of a function.
    pub fn function(&self, f: Function) -> (content: &FunctionContent)
        requires
            self@.has_function(f),
        ensures
            content@ == self@.function(f),
    {
        match arena_get(&self.entities, f.0) {
            Some(Entity::Function(content)) => content,
            _ => unreached(),
        }
    }

    /// The content of a block.
    pub fn block(&self, b: Block) -> (content: &BlockContent)
        requires
            self@.has_block(b),
        ensures
            content@ == self@.block(b),
    {
        match arena_get(&self.entities, b.0) {
            Some(Entity::Block(content)) => content,
            _ => unreached(),
        }
    }

    /// The content of a value.
    pub fn value(&self, v: Value) -> (content: &ValueContent)
        requires
            self@.has_value(v),
        ensures
            content@ == self@.value(v),
    {
        match arena_get(&self.entities, v.0) {
            Some(Entity::Value(content)) => content,
            _ => unreached(),
        }
    }

    /// The content of a local variable.
    pub fn local_var(&self, l: LocalVar) -> (content: &LocalVarContent)
        requires
            self@.has_local_var(l),
        ensures
            *content == self@.local_var(l),
    {
        match arena_get(&self.entities, l.0) {
            Some(Entity::LocalVar(content)) => content,
            _ => unreached(),
        }
    }

    /// Exclusive access to the content of a function: what the caller leaves
    /// there is the function afterwards, and nothing else changes.
    pub fn function_mut(&mut self, f: Function) -> (content: &mut FunctionContent)
        requires
            old(self)@.has_function(f),
        ensures
            content@ == old(self)@.function(f),
            final(self)@.entities =~= old(self)@.with_function(f, final(content)@).entities,
    {
        match arena_get_mut(&mut self.entities, f.0) {
            Some(Entity::Function(content)) => content,
            _ => unreached(),
        }
    }

    /// Exclusive access to the content of a module.
    pub fn module_mut(&mut self, m: Module) -> (content: &mut ModuleContent)
        requires
            old(self)@.has_module(m),
        ensures
            content@ == old(self)@.module(m),
            final(self)@.entities =~= old(self)@.with_module(m, final(content)@).entities,
    {
        match arena_get_mut(&mut self.entities, m.0) {
            Some(Entity::Module(content)) => content,
            _ => unreached(),
        }
    }

    /// Exclusive access to the content of a block.
    pub fn block_mut(&mut self, b: Block) -> (content: &mut BlockContent)
        requires
            old(self)@.has_block(b),
        ensures
            content@ == old(self)@.block(b),
            final(self)@.entities =~= old(self)@.with_block(b, final(content)@).entities,
    {
        match arena_get_mut(&mut self.entities, b.0) {
            Some(Entity::Block(content)) => content,
            _ => unreached(),
        }
    }

    /// Exclusive access to the content of a value.
    pub fn value_mut(&mut self, v: Value) -> (content: &mut ValueContent)
        requires
            old(self)@.has_value(v),
        ensures
            content@ == old(self)@.value(v),
            final(self)@.entities =~= old(self)@.with_value(v, final(content)@).entities,
    {
        match arena_get_mut(&mut self.entities, v.0) {
            Some(Entity::Value(content)) => content,
            _ => unreached(),
        }
    }
}

} // verus!
