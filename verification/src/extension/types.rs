//! Index buffers in the form the engine takes them.

use vstd::prelude::*;

verus! {

/// A packed array of 32-bit integers, as the engine stores index buffers.
pub type PackedInt32Array = Vec<i32>;

/// Creates a PackedInt32Array from a vector of indices.
/// Each index is converted with `as i32`, which wraps indices above `i32::MAX`.
pub fn packed_index_array_usize(index_arr: Vec<usize>) -> (r: PackedInt32Array)
    ensures
        r@ == index_arr@.map_values(|v: usize| v as i32),
{
    let mut out: Vec<i32> = Vec::with_capacity(index_arr.len());
    let mut i: usize = 0;
    while i < index_arr.len()
        invariant
            i <= index_arr@.len(),
            out@ == index_arr@.take(i as int).map_values(|v: usize| v as i32),
        decreases index_arr.len() - i,
    {
        out.push(index_arr[i] as i32);
        i += 1;
        proof {
            assert(out@ =~= index_arr@.take(i as int).map_values(|v: usize| v as i32));
        }
    }
    proof {
        assert(index_arr@.take(index_arr@.len() as int) =~= index_arr@);
    }
    out
}

/// Creates a PackedInt32Array from a vector of indices.
/// Each index is converted with `as i32`, which wraps indices above `i32::MAX`.
pub fn packed_index_array_u32(index_arr: Vec<u32>) -> (r: PackedInt32Array)
    ensures
        r@ == index_arr@.map_values(|v: u32| v as i32),
{
    let mut out: Vec<i32> = Vec::with_capacity(index_arr.len());
    let mut i: usize = 0;
    while i < index_arr.len()
        invariant
            i <= index_arr@.len(),
            out@ == index_arr@.take(i as int).map_values(|v: u32| v as i32),
        decreases index_arr.len() - i,
    {
        out.push(index_arr[i] as i32);
        i += 1;
        proof {
            assert(out@ =~= index_arr@.take(i as int).map_values(|v: u32| v as i32));
        }
    }
    proof {
        assert(index_arr@.take(index_arr@.len() as int) =~= index_arr@);
    }
    out
}

} // verus!
