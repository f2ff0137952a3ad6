//! A function's list of blocks: appending, inserting beside a block, and
//! removing.

use crate::block::{block_created, Block, BlockView, Label};
use crate::context::{Context, ContextView};
use crate::error::IrError;
use crate::function::{Function, FunctionView};
use crate::text::{hint_view, label_issued};
use vstd::prelude::*;

verus! {

/// The first position of `block` in `blocks`; the length of `blocks` if it
/// is not there.
pub open spec fn first_position(blocks: Seq<Block>, block: Block) -> int
    decreases blocks.len(),
{
    if blocks.len() == 0 {
        0
    } else if blocks.first() == block {
        0
    } else {
        1 + first_position(blocks.drop_first(), block)
    }
}

/// The first position is a position of the block, with none before it, or
/// the block is nowhere.
pub proof fn lemma_first_position(blocks: Seq<Block>, block: Block)
    ensures
        0 <= first_position(blocks, block) <= blocks.len(),
        first_position(blocks, block) < blocks.len() <==> blocks.contains(block),
        first_position(blocks, block) < blocks.len() ==> blocks[first_position(blocks, block)]
            == block,
        forall|j: int| 0 <= j < first_position(blocks, block) ==> blocks[j] != block,
    decreases blocks.len(),
{
    if blocks.len() > 0 && blocks.first() != block {
        let rest = blocks.drop_first();
        lemma_first_position(rest, block);
        let at = first_position(rest, block);
        if at >= rest.len() {
            assert forall|j: int| 0 <= j < blocks.len() implies blocks[j] != block by {
                if j > 0 {
                    assert(rest[j - 1] == blocks[j]);
                }
            }
        }
        assert forall|j: int| 0 <= j < 1 + at implies blocks[j] != block by {
            if j > 0 {
                assert(rest[j - 1] == blocks[j]);
            }
        }
    }
}

/// What creating a block and putting it into the function's list at position
/// `at` does to the store: a label is issued from the function's counter, the
/// block is stored under a new handle with that label and nothing in it, and
/// the list has the block at `at`, before what was there.
pub open spec fn block_inserted(
    before: ContextView,
    after: ContextView,
    function: Function,
    hint: Option<Seq<char>>,
    block: Block,
    at: int,
) -> bool {
    let counter = after.function(function).next_label_idx;
    let label = after.block(block).label;
    &&& !before.entities.contains_key(block.0)
    &&& label_issued(
        before.labels(function),
        hint,
        before.function(function).next_label_idx,
        counter,
        label,
    )
    &&& after == before.with_function(
        function,
        FunctionView {
            next_label_idx: counter,
            blocks: before.function(function).blocks.insert(at, block),
            ..before.function(function)
        },
    ).with_block(
        block,
        BlockView { label, function, instructions: Seq::empty(), args: Seq::empty() },
    )
}

impl Function {
    /// Create and append a new [`Block`] to this function.
    pub fn create_block(&self, context: &mut Context, label: Option<Label>) -> (block: Block)
        requires
            old(context)@.wf(),
            old(context)@.has_function(*self),
            old(context)@.can_label(*self),
        ensures
            block_inserted(
                old(context)@,
                final(context)@,
                *self,
                hint_view(label),
                block,
                old(context)@.function(*self).blocks.len() as int,
            ),
            final(context)@.wf(),
    {
        let block = Block::new(context, *self, label);
        let ghost mid = context@;
        let func = context.function_mut(*self);
        func.blocks.push(block);
        proof {
            let blocks = old(context)@.function(*self).blocks;
            assert(blocks.push(block) =~= blocks.insert(blocks.len() as int, block));
            assert(context@.entities =~= old(context)@.with_function(
                *self,
                FunctionView {
                    next_label_idx: mid.function(*self).next_label_idx,
                    blocks: blocks.insert(blocks.len() as int, block),
                    ..old(context)@.function(*self)
                },
            ).with_block(block, mid.block(block)).entities);
        }
        block
    }

    /// The first position of `block` in the function's list, if it is there.
    pub(crate) fn position(&self, context: &Context, block: &Block) -> (found: Option<usize>)
        requires
            context@.has_function(*self),
        ensures
            match found {
                Some(at) => at < context@.function(*self).blocks.len()
                    && context@.function(*self).blocks[at as int] == *block
                    && context@.function(*self).blocks.contains(*block)
                    && at == first_position(context@.function(*self).blocks, *block),
                None => !context@.function(*self).blocks.contains(*block),
            },
    {
        let blocks = &context.function(*self).blocks;
        proof {
            lemma_first_position(blocks@, *block);
        }
        let mut at: usize = 0;
        while at < blocks.len()
            invariant
                at <= blocks.len(),
                blocks@ == context@.function(*self).blocks,
                forall|j: int| 0 <= j < at ==> blocks@[j] != *block,
                forall|j: int| 0 <= j < first_position(blocks@, *block) ==> blocks@[j] != *block,
                first_position(blocks@, *block) < blocks@.len() ==> blocks@[first_position(
                    blocks@,
                    *block,
                )] == *block,
                0 <= first_position(blocks@, *block) <= blocks@.len(),
                first_position(blocks@, *block) < blocks@.len() <==> blocks@.contains(*block),
            decreases blocks.len() - at,
        {
            if blocks[at] == *block {
                return Some(at);
            }
            at += 1;
        }
        None
    }

    /// Create a block and put it into the list at `offset` past the first
    /// position of `other`.
    fn create_block_beside(
        &self,
        context: &mut Context,
        other: &Block,
        label: Option<Label>,
        offset: usize,
    ) -> (result: Result<Block, IrError>)
        requires
            old(context)@.wf(),
            old(context)@.has_function(*self),
            old(context)@.has_block(*other),
            old(context)@.can_label(*self),
            offset <= 1,
        ensures
            match result {
                Ok(block) => old(context)@.function(*self).blocks.contains(*other)
                    && block_inserted(
                    old(context)@,
                    final(context)@,
                    *self,
                    hint_view(label),
                    block,
                    first_position(old(context)@.function(*self).blocks, *other) + offset,
                ),
                Err(error) => !old(context)@.function(*self).blocks.contains(*other)
                    && (exists|block: Block|
                    block_created(old(context)@, final(context)@, *self, hint_view(label), block))
                    && (error matches IrError::MissingBlock(l) && l@ == old(context)@.block(
                    *other,
                ).label),
            },
            final(context)@.wf(),
    {
        let new_block = Block::new(context, *self, label);
        let ghost mid = context@;
        match self.position(context, other) {
            Some(idx) => {
                let func = context.function_mut(*self);
                let n = func.blocks.len();
                assert(idx < n);
                func.blocks.insert(idx + offset, new_block);
                proof {
                    let blocks = old(context)@.function(*self).blocks;
                    assert(context@.entities =~= old(context)@.with_function(
                        *self,
                        FunctionView {
                            next_label_idx: mid.function(*self).next_label_idx,
                            blocks: blocks.insert(idx + offset, new_block),
                            ..old(context)@.function(*self)
                        },
                    ).with_block(new_block, mid.block(new_block)).entities);
                }
                Ok(new_block)
            },
            None => {
                let label = context.block(*other).label.clone();
                Err(IrError::MissingBlock(label))
            },
        }
    }

    /// Create and insert a new [`Block`] into this function.
    ///
    /// The new block is inserted before `other`. If `other` is not in this
    /// function's list the new block is left out of it, and the error holds
    /// the label of `other`.
    pub fn create_block_before(&self, context: &mut Context, other: &Block, label: Option<Label>) -> (result: Result<Block, IrError>)
        requires
            old(context)@.wf(),
            old(context)@.has_function(*self),
            old(context)@.has_block(*other),
            old(context)@.can_label(*self),
        ensures
            match result {
                Ok(block) => old(context)@.function(*self).blocks.contains(*other)
                    && block_inserted(
                    old(context)@,
                    final(context)@,
                    *self,
                    hint_view(label),
                    block,
                    first_position(old(context)@.function(*self).blocks, *other),
                ),
                Err(error) => !old(context)@.function(*self).blocks.contains(*other)
                    && (exists|block: Block|
                    block_created(old(context)@, final(context)@, *self, hint_view(label), block))
                    && (error matches IrError::MissingBlock(l) && l@ == old(context)@.block(
                    *other,
                ).label),
            },
            final(context)@.wf(),
    {
        self.create_block_beside(context, other, label, 0)
    }

    /// Create and insert a new [`Block`] into this function.
    ///
    /// The new block is inserted after `other`. If `other` is not in this
    /// function's list the new block is left out of it, and the error holds
    /// the label of `other`.
    pub fn create_block_after(&self, context: &mut Context, other: &Block, label: Option<Label>) -> (result: Result<Block, IrError>)
        requires
            old(context)@.wf(),
            old(context)@.has_function(*self),
            old(context)@.has_block(*other),
            old(context)@.can_label(*self),
        ensures
            match result {
                Ok(block) => old(context)@.function(*self).blocks.contains(*other)
                    && block_inserted(
                    old(context)@,
                    final(context)@,
                    *self,
                    hint_view(label),
                    block,
                    first_position(old(context)@.function(*self).blocks, *other) + 1,
                ),
                Err(error) => !old(context)@.function(*self).blocks.contains(*other)
                    && (exists|block: Block|
                    block_created(old(context)@, final(context)@, *self, hint_view(label), block))
                    && (error matches IrError::MissingBlock(l) && l@ == old(context)@.block(
                    *other,
                ).label),
            },
            final(context)@.wf(),
    {
        self.create_block_beside(context, other, label, 1)
    }

    /// Remove a [`Block`] from this function.
    ///
    /// The block must not be the entry block. Branches to the block are left
    /// as they are: the caller sees to it that there are none.
    pub fn remove_block(&self, context: &mut Context, block: &Block) -> (result: Result<
        (),
        IrError,
    >)
        requires
            old(context)@.wf(),
            old(context)@.has_function(*self),
            old(context)@.has_block(*block),
            old(context)@.function(*self).blocks[0] != *block,
        ensures
            match result {
                Ok(_) => old(context)@.function(*self).blocks.contains(*block) && final(context)@
                    == old(context)@.with_function(
                    *self,
                    FunctionView {
                        blocks: old(context)@.function(*self).blocks.remove(
                            first_position(old(context)@.function(*self).blocks, *block),
                        ),
                        ..old(context)@.function(*self)
                    },
                ),
                Err(error) => !old(context)@.function(*self).blocks.contains(*block)
                    && final(context)@ == old(context)@
                    && (error matches IrError::RemoveMissingBlock(l)
                    && l@ == old(context)@.block(*block).label),
            },
            final(context)@.wf(),
    {
        let label = block.get_label(context);
        match self.position(context, block) {
            Some(block_idx) => {
                let func = context.function_mut(*self);
                func.blocks.remove(block_idx);
                proof {
                    let blocks = old(context)@.function(*self).blocks;
                    let rest = blocks.remove(block_idx as int);
                    assert forall|k: int| 0 <= k < rest.len() implies context@.has_block(
                        #[trigger] rest[k],
                    ) by {}
                }
                Ok(())
            },
            None => Err(IrError::RemoveMissingBlock(label)),
        }
    }
}

} // verus!
