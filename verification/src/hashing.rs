//! Hash maps and hash sets keyed by handles, and what is taken on trust about
//! them. A handle's `==` and hash go by its index alone, so a key is found
//! again exactly under the same handle.

use crate::block::Block;
use crate::local_var::LocalVar;
use crate::value::Value;
use rustc_hash::{FxHashMap, FxHashSet, FxHasher};
use std::collections::HashMap;
use std::hash::BuildHasherDefault;
use vstd::prelude::*;

verus! {

/// `rustc_hash::FxHasher`: opaque; it only appears as a type parameter.
#[verifier::external_type_specification]
#[verifier::external_body]
pub struct ExFxHasher(FxHasher);

/// `std::hash::BuildHasherDefault`: opaque; it only appears as a type
/// parameter.
#[verifier::external_type_specification]
#[verifier::external_body]
#[verifier::reject_recursive_types(H)]
pub struct ExBuildHasherDefault<H>(BuildHasherDefault<H>);

/// `HashMap::get` on a replacement map: the value stored under the key, if
/// there is one.
#[verifier::external_body]
pub(crate) fn value_map_get(map: &FxHashMap<Value, Value>, key: &Value) -> (found: Option<Value>)
    ensures
        found == (if map@.contains_key(*key) {
            Some(map@[*key])
        } else {
            None
        }),
{
    map.get(key).copied()
}

/// `HashMap::insert` on a replacement map: afterwards the key maps to the
/// value, and every other key to what it mapped to before.
#[verifier::external_body]
pub(crate) fn value_map_insert(map: &mut FxHashMap<Value, Value>, key: Value, value: Value)
    ensures
        final(map)@ == old(map)@.insert(key, value),
{
    map.insert(key, value);
}

/// `HashMap::insert` on a map of local variables: afterwards the key maps to
/// the value, and every other key to what it mapped to before.
#[verifier::external_body]
pub(crate) fn local_map_insert(map: &mut HashMap<LocalVar, LocalVar>, key: LocalVar, value: LocalVar)
    ensures
        final(map)@ == old(map)@.insert(key, value),
{
    map.insert(key, value);
}

/// `HashSet::insert` on a set of blocks: afterwards the block is in the set,
/// with all that were.
#[verifier::external_body]
pub(crate) fn block_set_insert(set: &mut FxHashSet<Block>, block: Block)
    ensures
        final(set)@ == old(set)@.insert(block),
{
    set.insert(block);
}

/// `HashSet::contains` on a set of blocks.
#[verifier::external_body]
pub(crate) fn block_set_contains(set: &FxHashSet<Block>, block: &Block) -> (found: bool)
    ensures
        found == set@.contains(*block),
{
    set.contains(block)
}

} // verus!
