//! What the library decides when an index is stored and read back.
pub mod blob;
pub mod buckets;
pub mod importer;
pub mod loader;
pub mod node_mapper;
pub mod round_trip;
pub mod types;

use vstd::prelude::*;

verus! {

/// The number of the next stored node, given the greatest number stored so
/// far (`None` when nothing is stored yet).
pub fn next_node_id_after(max_id: Option<i32>) -> (r: i32)
    requires
        max_id matches Some(m) ==> m < i32::MAX,
    ensures
        r == match max_id {
            Some(m) => m + 1,
            None => 1,
        },
{
    match max_id {
        Some(max_id) => max_id + 1,
        None => 1,
    }
}

} // verus!
