//! Basic blocks: a label, parameters and a list of instructions.

use crate::arena::index_eq;
use crate::context::{Context, ContextView, Entity};
use crate::function::{Function, FunctionView};
use crate::instruction::{branch_views, BranchToWithArgs, Instruction};
use crate::text::{hint_view, label_issued};
use crate::value::{replace_in_values, Value, ValueDatum, ValueDatumView, ValueView};
use generational_arena::Index;
use rustc_hash::FxHashMap;
use vstd::prelude::*;

verus! {

/// A handle to a basic block.
#[derive(Clone, Copy, Debug, Hash)]
pub struct Block(pub Index);

impl PartialEq for Block {
    fn eq(&self, other: &Block) -> (same: bool) {
        index_eq(&self.0, &other.0)
    }
}

impl Eq for Block {

}

impl vstd::std_specs::cmp::PartialEqSpecImpl for Block {
    open spec fn obeys_eq_spec() -> bool {
        true
    }

    open spec fn eq_spec(&self, other: &Block) -> bool {
        self.0 == other.0
    }
}

/// The name of a block within its function.
pub type Label = String;

/// The stored form of a block.
#[derive(Debug)]
pub struct BlockContent {
    pub label: Label,
    /// The function that created the block.
    pub function: Function,
    /// The block's instructions, in execution order.
    pub instructions: Vec<Value>,
    /// The block's parameters, by position.
    pub args: Vec<Value>,
}

/// The model of a [`BlockContent`].
pub struct BlockView {
    pub label: Seq<char>,
    pub function: Function,
    pub instructions: Seq<Value>,
    pub args: Seq<Value>,
}

impl View for BlockContent {
    type V = BlockView;

    open spec fn view(&self) -> BlockView {
        BlockView {
            label: self.label@,
            function: self.function,
            instructions: self.instructions@,
            args: self.args@,
        }
    }
}

/// What creating a block for `function` does to the store: a label is issued
/// from the function's counter, and the block is stored under a new handle,
/// with that label and nothing in it. The function's block list is as it was.
pub open spec fn block_created(
    before: ContextView,
    after: ContextView,
    function: Function,
    hint: Option<Seq<char>>,
    block: Block,
) -> bool {
    let counter = after.function(function).next_label_idx;
    let label = after.block(block).label;
    &&& !before.entities.contains_key(block.0)
    &&& label_issued(
        before.labels(function),
        hint,
        before.function(function).next_label_idx,
        counter,
        label,
    )
    &&& after == before.with_function(
        function,
        FunctionView { next_label_idx: counter, ..before.function(function) },
    ).with_block(
        block,
        BlockView { label, function, instructions: Seq::empty(), args: Seq::empty() },
    )
}

impl Block {
    /// Store a new block for `function`, under a label that none of the
    /// function's blocks has. The block is not yet in the function's list.
    pub fn new(context: &mut Context, function: Function, label: Option<Label>) -> (block: Block)
        requires
            old(context)@.valid(),
            old(context)@.has_function(function),
            old(context)@.can_label(function),
        ensures
            block_created(old(context)@, final(context)@, function, hint_view(label), block),
            final(context)@.valid(),
            old(context)@.wf() ==> final(context)@.wf(),
    {
        let issued = function.get_unique_label(context, label);
        let content = BlockContent {
            label: issued,
            function,
            instructions: Vec::new(),
            args: Vec::new(),
        };
        Block(context.insert(Entity::Block(content)))
    }

    /// The function that created the block.
    pub fn get_function(&self, context: &Context) -> (function: Function)
        requires
            context@.has_block(*self),
        ensures
            function == context@.block(*self).function,
    {
        context.block(*self).function
    }

    /// The block's label.
    pub fn get_label(&self, context: &Context) -> (label: String)
        requires
            context@.has_block(*self),
        ensures
            label@ == context@.block(*self).label,
    {
        context.block(*self).label.clone()
    }

    /// The number of instructions in the block.
    pub fn num_instructions(&self, context: &Context) -> (n: usize)
        requires
            context@.has_block(*self),
        ensures
            n == context@.block(*self).instructions.len(),
    {
        context.block(*self).instructions.len()
    }

    /// The number of parameters of the block.
    pub fn num_args(&self, context: &Context) -> (n: usize)
        requires
            context@.has_block(*self),
        ensures
            n == context@.block(*self).args.len(),
    {
        context.block(*self).args.len()
    }

    /// The parameter at a position, if there is one.
    pub fn get_arg(&self, context: &Context, index: usize) -> (arg: Option<Value>)
        requires
            context@.has_block(*self),
        ensures
            arg == (if index < context@.block(*self).args.len() {
                Some(context@.block(*self).args[index as int])
            } else {
                None
            }),
    {
        let content = context.block(*self);
        if index < content.args.len() {
            Some(content.args[index])
        } else {
            None
        }
    }

    /// Store an instruction and append it to the block.
    pub fn push_instruction(&self, context: &mut Context, instruction: Instruction) -> (value:
        Value)
        requires
            old(context)@.has_block(*self),
            old(context)@.value_valid(
                ValueView { datum: ValueDatumView::Instruction(instruction@), metadata: None },
            ),
        ensures
            !old(context)@.entities.contains_key(value.0),
            final(context)@ == old(context)@.with_value(
                value,
                ValueView { datum: ValueDatumView::Instruction(instruction@), metadata: None },
            ).with_block(
                *self,
                BlockView {
                    instructions: old(context)@.block(*self).instructions.push(value),
                    ..old(context)@.block(*self)
                },
            ),
            old(context)@.valid() ==> final(context)@.valid(),
            old(context)@.wf() ==> final(context)@.wf(),
    {
        let value = Value::new_instruction(context, instruction);
        let content = context.block_mut(*self);
        content.instructions.push(value);
        value
    }

    /// The branches that leave the block: those of its last instruction.
    pub fn successors(&self, context: &Context) -> (targets: Vec<BranchToWithArgs>)
        requires
            context@.valid(),
            context@.has_block(*self),
        ensures
            branch_views(targets@) == context@.successors(*self),
    {
        let content = context.block(*self);
        let n = content.instructions.len();
        if n == 0 {
            let targets: Vec<BranchToWithArgs> = Vec::new();
            return targets;
        }
        let last = content.instructions[n - 1];
        match &context.value(last).value {
            ValueDatum::Instruction(instruction) => instruction.branches(),
            _ => {
                let targets: Vec<BranchToWithArgs> = Vec::new();
                targets
            },
        }
    }

    /// In each instruction of the block, in order, replace each value that
    /// the map has a replacement for.
    pub fn replace_values(&self, context: &mut Context, replace_map: &FxHashMap<Value, Value>)
        requires
            old(context)@.valid(),
            old(context)@.has_block(*self),
        ensures
            final(context)@ == replace_in_values(
                old(context)@,
                old(context)@.block(*self).instructions,
                replace_map@,
            ),
            old(context)@.differs_in_values_only(final(context)@),
            final(context)@.valid(),
            old(context)@.wf() ==> final(context)@.wf(),
    {
        let ghost instructions = context@.block(*self).instructions;
        let mut ins_idx: usize = 0;
        while ins_idx < context.block(*self).instructions.len()
            invariant
                context@.valid(),
                context@.has_block(*self),
                context@.block(*self).instructions == instructions,
                ins_idx <= instructions.len(),
                context@ == replace_in_values(
                    old(context)@,
                    instructions.take(ins_idx as int),
                    replace_map@,
                ),
                old(context)@.wf() ==> context@.wf(),
                old(context)@.differs_in_values_only(context@),
            decreases instructions.len() - ins_idx,
        {
            let ins = context.block(*self).instructions[ins_idx];
            ins.replace_instruction_values(context, replace_map);
            proof {
                assert(instructions.take(ins_idx + 1).drop_last() =~= instructions.take(
                    ins_idx as int,
                ));
            }
            ins_idx += 1;
        }
        assert(instructions.take(ins_idx as int) =~= instructions);
    }
}

} // verus!
