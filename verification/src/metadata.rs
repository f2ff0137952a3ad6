//! Handles into a metadata store. They are attached to entities and never
//! interpreted.

use crate::arena::index_eq;
use generational_arena::Index;
use vstd::prelude::*;

verus! {

/// A handle to a metadatum.
#[derive(Clone, Copy, Debug, Hash)]
pub struct MetadataIndex(pub Index);

impl PartialEq for MetadataIndex {
    fn eq(&self, other: &MetadataIndex) -> (same: bool) {
        index_eq(&self.0, &other.0)
    }
}

impl Eq for MetadataIndex {

}

impl vstd::std_specs::cmp::PartialEqSpecImpl for MetadataIndex {
    open spec fn obeys_eq_spec() -> bool {
        true
    }

    open spec fn eq_spec(&self, other: &MetadataIndex) -> bool {
        self.0 == other.0
    }
}

} // verus!
