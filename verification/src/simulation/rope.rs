//! Which bound points enclose a point of a simulated rope.

use std::collections::HashMap;
use vstd::prelude::*;

verus! {

broadcast use vstd::std_specs::hash::group_hash_axioms;

/// The bound point just before `idx`: the greatest bound index below `idx`.
pub open spec fn is_previous_bind(binds: Set<usize>, idx: usize, b: usize) -> bool {
    &&& binds.contains(b)
    &&& b < idx
    &&& forall|k: usize| #[trigger] binds.contains(k) && k < idx ==> k <= b
}

/// The bound point just after `idx`: the least bound index above `idx` that is a point
/// of a rope of `point_count` points.
pub open spec fn is_next_bind(binds: Set<usize>, point_count: usize, idx: usize, b: usize) -> bool {
    &&& binds.contains(b)
    &&& idx < b < point_count
    &&& forall|k: usize| #[trigger] binds.contains(k) && idx < k < point_count ==> b <= k
}

/// Returns the immediate indices of the binds smaller and greater than the given index, if present,
/// as (smaller, has smaller, greater, has greater), for a rope of `point_count` points bound at
/// the keys of `binding_map`.
/// Without a smaller bind the first index is 0; without a greater one the third is the last
/// point of the rope.
pub fn get_surrounding_bind_indices<T>(
    point_count: usize,
    idx: usize,
    binding_map: &HashMap<usize, T>,
) -> (r: (usize, bool, usize, bool))
    requires
        point_count >= 1,
    ensures
        r.1 <==> exists|k: usize| #[trigger] binding_map@.contains_key(k) && k < idx,
        r.1 ==> is_previous_bind(binding_map@.dom(), idx, r.0),
        !r.1 ==> r.0 == 0,
        r.3 <==> exists|k: usize|
            #[trigger] binding_map@.contains_key(k) && idx < k < point_count,
        r.3 ==> is_next_bind(binding_map@.dom(), point_count, idx, r.2),
        !r.3 ==> r.2 == point_count - 1,
{
    // Figure out binding indices bounding this section
    let mut next_smallest: usize = 0;
    let mut next_largest: usize = point_count - 1;
    let mut has_smallest: bool = false;
    let mut has_largest: bool = false;

    // First, find smallest index
    for bind_idx in it: binding_map.keys()
        invariant
            has_smallest ==> binding_map@.contains_key(next_smallest) && next_smallest < idx,
            !has_smallest ==> next_smallest == 0,
            forall|j: int|
                0 <= j < it.index() && *it.seq()[j] < idx ==> has_smallest && *it.seq()[j]
                    <= next_smallest,
    {
        if *bind_idx < idx && *bind_idx >= next_smallest {
            has_smallest = true;
            next_smallest = *bind_idx;
        }
    }

    // Then, find largest index, ensuring it's larger than the smallest
    for bind_idx in it: binding_map.keys()
        invariant
            point_count >= 1,
            has_smallest ==> next_smallest < idx,
            !has_smallest ==> next_smallest == 0,
            has_largest ==> binding_map@.contains_key(next_largest) && idx < next_largest
                < point_count,
            !has_largest ==> next_largest == point_count - 1,
            forall|j: int|
                0 <= j < it.index() && idx < *it.seq()[j] < point_count ==> has_largest
                    && next_largest <= *it.seq()[j],
    {
        if *bind_idx > idx && *bind_idx <= next_largest && *bind_idx > next_smallest {
            has_largest = true;
            next_largest = *bind_idx;
        }
    }

    (next_smallest, has_smallest, next_largest, has_largest)
}

} // verus!
