//! The instructions that the function-level code needs to know: those that
//! use values and those that end a block.

use crate::block::Block;
use crate::hashing::value_map_get;
use crate::irtype::Type;
use crate::value::Value;
use rustc_hash::FxHashMap;
use vstd::prelude::*;

verus! {

/// A branch target with the values handed to the target's parameters.
#[derive(Debug)]
pub struct BranchToWithArgs {
    pub block: Block,
    pub args: Vec<Value>,
}

/// The model of a [`BranchToWithArgs`].
pub struct BranchView {
    pub block: Block,
    pub args: Seq<Value>,
}

/// The value that takes the place of `v` under a replacement map: what the
/// map gives for it, and `v` itself where the map has nothing.
pub open spec fn replacement(map: Map<Value, Value>, v: Value) -> Value {
    if map.contains_key(v) {
        map[v]
    } else {
        v
    }
}

/// The models of a list of branches.
pub open spec fn branch_views(branches: Seq<BranchToWithArgs>) -> Seq<BranchView> {
    Seq::new(branches.len(), |i: int| branches[i]@)
}

impl BranchView {
    /// The branch with each argument replaced.
    pub open spec fn replaced(self, map: Map<Value, Value>) -> BranchView {
        BranchView {
            block: self.block,
            args: Seq::new(self.args.len(), |i: int| replacement(map, self.args[i])),
        }
    }
}

/// Look a value up in a replacement map.
pub fn replace_value_in(map: &FxHashMap<Value, Value>, v: Value) -> (r: Value)
    ensures
        r == replacement(map@, v),
{
    match value_map_get(map, &v) {
        Some(new_val) => new_val,
        None => v,
    }
}

impl BranchToWithArgs {
    /// A copy of the branch.
    pub fn duplicate(&self) -> (copy: BranchToWithArgs)
        ensures
            copy@ == self@,
    {
        let mut args: Vec<Value> = Vec::new();
        let mut i: usize = 0;
        while i < self.args.len()
            invariant
                i <= self.args.len(),
                args@ == self.args@.take(i as int),
            decreases self.args.len() - i,
        {
            args.push(self.args[i]);
            i += 1;
        }
        assert(args@ =~= self.args@);
        BranchToWithArgs { block: self.block, args }
    }

    /// Replace each argument that the map has a replacement for.
    pub fn replace_values(&mut self, map: &FxHashMap<Value, Value>)
        ensures
            final(self)@ == old(self)@.replaced(map@),
    {
        let mut i: usize = 0;
        while i < self.args.len()
            invariant
                i <= self.args.len(),
                self.block == old(self).block,
                self.args@.len() == old(self).args@.len(),
                forall|j: int| 0 <= j < i ==> self.args@[j] == replacement(map@, old(self).args@[j]),
                forall|j: int| i <= j < self.args@.len() ==> self.args@[j] == old(self).args@[j],
            decreases self.args.len() - i,
        {
            let v = replace_value_in(map, self.args[i]);
            self.args.set(i, v);
            i += 1;
        }
        assert(self@.args =~= old(self)@.replaced(map@).args);
    }
}

impl View for BranchToWithArgs {
    type V = BranchView;

    open spec fn view(&self) -> BranchView {
        BranchView { block: self.block, args: self.args@ }
    }
}

/// An instruction.
#[derive(Debug)]
pub enum Instruction {
    /// Read through a pointer value.
    Load(Value),
    /// Write a value through a pointer value.
    Store { dst_val: Value, stored_val: Value },
    /// Jump.
    Branch(BranchToWithArgs),
    /// Jump one way or the other.
    ConditionalBranch { cond_value: Value, true_block: BranchToWithArgs, false_block: BranchToWithArgs },
    /// Leave the function with a value of the given type.
    Ret(Value, Type),
}

/// The model of an [`Instruction`].
pub enum InstructionView {
    Load(Value),
    Store { dst_val: Value, stored_val: Value },
    Branch(BranchView),
    ConditionalBranch { cond_value: Value, true_block: BranchView, false_block: BranchView },
    Ret(Value, Type),
}

impl View for Instruction {
    type V = InstructionView;

    open spec fn view(&self) -> InstructionView {
        match *self {
            Instruction::Load(v) => InstructionView::Load(v),
            Instruction::Store { dst_val, stored_val } => InstructionView::Store {
                dst_val,
                stored_val,
            },
            Instruction::Branch(to) => InstructionView::Branch(to@),
            Instruction::ConditionalBranch {
                cond_value,
                true_block,
                false_block,
            } => InstructionView::ConditionalBranch {
                cond_value,
                true_block: true_block@,
                false_block: false_block@,
            },
            Instruction::Ret(v, ty) => InstructionView::Ret(v, ty),
        }
    }
}

/// Replacing values leaves the branch targets where they are.
pub proof fn lemma_replaced_keeps_targets(ins: InstructionView, map: Map<Value, Value>)
    ensures
        ins.replaced(map).branches().len() == ins.branches().len(),
        forall|k: int|
            0 <= k < ins.branches().len() ==> (#[trigger] ins.replaced(map).branches()[k]).block
                == ins.branches()[k].block,
{
}

impl Instruction {
    /// Replace each value that the instruction uses and that the map has a
    /// replacement for. Branch targets stay.
    pub fn replace_values(&mut self, map: &FxHashMap<Value, Value>)
        ensures
            final(self)@ == old(self)@.replaced(map@),
    {
        match self {
            Instruction::Load(v) => {
                *v = replace_value_in(map, *v);
            },
            Instruction::Store { dst_val, stored_val } => {
                *dst_val = replace_value_in(map, *dst_val);
                *stored_val = replace_value_in(map, *stored_val);
            },
            Instruction::Branch(to) => {
                to.replace_values(map);
            },
            Instruction::ConditionalBranch { cond_value, true_block, false_block } => {
                *cond_value = replace_value_in(map, *cond_value);
                true_block.replace_values(map);
                false_block.replace_values(map);
            },
            Instruction::Ret(v, _) => {
                *v = replace_value_in(map, *v);
            },
        }
    }

    /// The branches that the instruction may take, in order.
    pub fn branches(&self) -> (targets: Vec<BranchToWithArgs>)
        ensures
            branch_views(targets@) == self@.branches(),
    {
        let mut targets: Vec<BranchToWithArgs> = Vec::new();
        match self {
            Instruction::Branch(to) => {
                targets.push(to.duplicate());
            },
            Instruction::ConditionalBranch { true_block, false_block, .. } => {
                targets.push(true_block.duplicate());
                targets.push(false_block.duplicate());
            },
            _ => {},
        }
        targets
    }
}

impl InstructionView {
    /// The instruction with each value that it uses replaced.
    pub open spec fn replaced(self, map: Map<Value, Value>) -> InstructionView {
        match self {
            InstructionView::Load(v) => InstructionView::Load(replacement(map, v)),
            InstructionView::Store { dst_val, stored_val } => InstructionView::Store {
                dst_val: replacement(map, dst_val),
                stored_val: replacement(map, stored_val),
            },
            InstructionView::Branch(to) => InstructionView::Branch(to.replaced(map)),
            InstructionView::ConditionalBranch {
                cond_value,
                true_block,
                false_block,
            } => InstructionView::ConditionalBranch {
                cond_value: replacement(map, cond_value),
                true_block: true_block.replaced(map),
                false_block: false_block.replaced(map),
            },
            InstructionView::Ret(v, ty) => InstructionView::Ret(replacement(map, v), ty),
        }
    }

    /// The branches that the instruction may take, in order: one for a jump,
    /// the true branch and then the false branch for a conditional jump, none
    /// for anything else.
    pub open spec fn branches(self) -> Seq<BranchView> {
        match self {
            InstructionView::Branch(to) => seq![to],
            InstructionView::ConditionalBranch { true_block, false_block, .. } => seq![
                true_block,
                false_block,
            ],
            _ => Seq::empty(),
        }
    }
}

} // verus!
