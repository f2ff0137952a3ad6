//! The generational arena that owns every entity, and what is taken on trust
//! about it.

use crate::context::Entity;
use generational_arena::{Arena, Index};
use vstd::prelude::*;

verus! {

/// `generational_arena::Index`: an opaque, copyable position in an arena.
#[verifier::external_type_specification]
#[verifier::external_body]
pub struct ExIndex(Index);

/// `generational_arena::Arena`: opaque; what it holds is [`arena_entries`].
#[verifier::external_type_specification]
#[verifier::external_body]
#[verifier::reject_recursive_types(T)]
pub struct ExArena<T>(Arena<T>);

/// The entries of an arena: the value stored under each live index.
pub uninterp spec fn arena_entries(arena: Arena<Entity>) -> Map<Index, Entity>;

/// `Arena::new`: the new arena has no live index.
#[verifier::external_body]
pub(crate) fn arena_new() -> (fresh: Arena<Entity>)
    ensures
        arena_entries(fresh).dom() == Set::<Index>::empty(),
{
    Arena::new()
}

/// `Arena::insert`: the value is stored under an index that was not live
/// before, and every other entry stays as it was.
#[verifier::external_body]
pub(crate) fn arena_insert(arena: &mut Arena<Entity>, value: Entity) -> (index: Index)
    ensures
        !arena_entries(*old(arena)).contains_key(index),
        arena_entries(*final(arena)) == arena_entries(*old(arena)).insert(index, value),
{
    arena.insert(value)
}

/// `Arena::get`: the entry under a live index, and `None` for any other.
#[verifier::external_body]
pub(crate) fn arena_get(arena: &Arena<Entity>, index: Index) -> (found: Option<&Entity>)
    ensures
        found == (if arena_entries(*arena).contains_key(index) {
            Some(&arena_entries(*arena)[index])
        } else {
            None
        }),
{
    arena.get(index)
}

/// `Arena::get_mut`: exclusive access to the entry under a live index. What
/// the caller leaves in the slot is the entry afterwards; no other entry
/// changes. For an index that is not live the arena is untouched.
#[verifier::external_body]
pub(crate) fn arena_get_mut(arena: &mut Arena<Entity>, index: Index) -> (found: Option<
    &mut Entity,
>)
    ensures
        match found {
            Some(slot) => arena_entries(*old(arena)).contains_key(index) && *slot == arena_entries(
                *old(arena),
            )[index] && arena_entries(*final(arena)) == arena_entries(*old(arena)).insert(
                index,
                *final(slot),
            ),
            None => !arena_entries(*old(arena)).contains_key(index) && arena_entries(*final(arena))
                == arena_entries(*old(arena)),
        },
{
    arena.get_mut(index)
}

/// `Index`'s `==`: two indices are equal exactly when they are the same index.
#[verifier::external_body]
pub(crate) fn index_eq(a: &Index, b: &Index) -> (same: bool)
    ensures
        same == (*a == *b),
{
    a == b
}

} // verus!
