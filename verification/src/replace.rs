//! Replacing values in the instructions of a function.

use crate::block::Block;
use crate::block_list::{first_position, lemma_first_position};
use crate::context::{Context, ContextView};
use crate::function::Function;
use crate::hashing::value_map_insert;
use crate::value::{replace_in_values, Value};
use rustc_hash::FxHashMap;
use vstd::prelude::*;

verus! {

/// The store after the replacements were made in each of `blocks`, in order.
pub open spec fn replace_in_blocks(
    context: ContextView,
    blocks: Seq<Block>,
    map: Map<Value, Value>,
) -> ContextView
    decreases blocks.len(),
{
    if blocks.len() == 0 {
        context
    } else {
        let done = replace_in_blocks(context, blocks.drop_last(), map);
        replace_in_values(done, done.block(blocks.last()).instructions, map)
    }
}

/// Where value replacement starts in a block list: at the first position of
/// the starting block, if one is given, and at the beginning if not.
pub open spec fn replacement_start(blocks: Seq<Block>, starting_block: Option<Block>) -> int {
    match starting_block {
        Some(block) => first_position(blocks, block),
        None => 0,
    }
}

impl Function {
    /// Replace values within this function.
    ///
    /// In each block from the starting block on, in each instruction, every
    /// use of a value that the map has a replacement for is rewritten.
    /// Without a starting block every block is done; the blocks before the
    /// starting block are left as they are, and so are all of them if the
    /// starting block is not in the function's list.
    pub fn replace_values(
        &self,
        context: &mut Context,
        replace_map: &FxHashMap<Value, Value>,
        starting_block: Option<Block>,
    )
        requires
            old(context)@.valid(),
            old(context)@.has_function(*self),
        ensures
            final(context)@ == replace_in_blocks(
                old(context)@,
                old(context)@.function(*self).blocks.skip(
                    replacement_start(old(context)@.function(*self).blocks, starting_block),
                ),
                replace_map@,
            ),
            old(context)@.differs_in_values_only(final(context)@),
            final(context)@.valid(),
            old(context)@.wf() ==> final(context)@.wf(),
    {
        let blocks = self.block_iter(context);
        let start = match starting_block {
            Some(block) => match self.position(context, &block) {
                Some(at) => at,
                None => {
                    proof {
                        lemma_first_position(blocks@, block);
                    }
                    blocks.len()
                },
            },
            None => 0,
        };
        let mut k: usize = start;
        while k < blocks.len()
            invariant
                start <= k <= blocks.len(),
                start == replacement_start(blocks@, starting_block),
                blocks@ == old(context)@.function(*self).blocks,
                old(context)@.valid(),
                old(context)@.has_function(*self),
                context@.valid(),
                old(context)@.wf() ==> context@.wf(),
                old(context)@.differs_in_values_only(context@),
                context@ == replace_in_blocks(
                    old(context)@,
                    blocks@.subrange(start as int, k as int),
                    replace_map@,
                ),
            decreases blocks.len() - k,
        {
            let block = blocks[k];
            block.replace_values(context, replace_map);
            proof {
                assert(blocks@.subrange(start as int, k + 1).drop_last() =~= blocks@.subrange(
                    start as int,
                    k as int,
                ));
            }
            k += 1;
        }
    }

    /// Replace a value with another within this function: in each block from
    /// the starting block on, or in every block without one.
    pub fn replace_value(
        &self,
        context: &mut Context,
        old_val: Value,
        new_val: Value,
        starting_block: Option<Block>,
    )
        requires
            old(context)@.valid(),
            old(context)@.has_function(*self),
        ensures
            final(context)@ == replace_in_blocks(
                old(context)@,
                old(context)@.function(*self).blocks.skip(
                    replacement_start(old(context)@.function(*self).blocks, starting_block),
                ),
                Map::<Value, Value>::empty().insert(old_val, new_val),
            ),
            old(context)@.differs_in_values_only(final(context)@),
            final(context)@.valid(),
            old(context)@.wf() ==> final(context)@.wf(),
    {
        let mut map: FxHashMap<Value, Value> = FxHashMap::default();
        value_map_insert(&mut map, old_val, new_val);
        self.replace_values(context, &map, starting_block);
    }
}

} // verus!
