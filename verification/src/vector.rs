//! The vector types that mesh and volume data carry through the library.

use vstd::prelude::*;

verus! {

/// Three-component vector of the `glam` crate, carried through the library as an opaque value.
#[verifier::external_type_specification]
#[verifier::external_body]
pub struct ExGlamVec3(glam::Vec3);

/// Two-component vector of the `glam` crate, carried through the library as an opaque value.
#[verifier::external_type_specification]
#[verifier::external_body]
pub struct ExGlamVec2(glam::Vec2);

/// Four-component vector of the `glam` crate, carried through the library as an opaque value.
#[verifier::external_type_specification]
#[verifier::external_body]
pub struct ExGlamVec4(glam::Vec4);

/// Calls `glam::Vec3::midpoint`, the componentwise halfway point `(a + b) * 0.5`.
/// The contract states nothing of the result: it is a floating-point value, and the bits of
/// a NaN result are not fixed, so not even two calls on the same vectors are promised to agree.
#[verifier::external_body]
pub(crate) fn vec3_midpoint(a: glam::Vec3, b: glam::Vec3) -> glam::Vec3 {
    a.midpoint(b)
}

/// `c` is a value that the midpoint of `a` and `b`, as `vec3_midpoint` computes it, can come
/// out as. Nothing more is claimed of the floating-point value, not even that it is unique.
pub closed spec fn is_midpoint(a: glam::Vec3, b: glam::Vec3, c: glam::Vec3) -> bool {
    call_ensures(vec3_midpoint, (a, b), c)
}

/// The componentwise halfway point of `a` and `b`.
pub(crate) fn midpoint(a: glam::Vec3, b: glam::Vec3) -> (c: glam::Vec3)
    ensures
        is_midpoint(a, b, c),
{
    vec3_midpoint(a, b)
}


/// Appends a copy of every element of `src` to `dst`, in order.
pub(crate) fn extend_copied<T: Copy>(dst: &mut Vec<T>, src: &Vec<T>)
    ensures
        final(dst)@ == old(dst)@ + src@,
{
    let ghost start = dst@;
    let mut i: usize = 0;
    while i < src.len()
        invariant
            i <= src.len(),
            dst@ == start + src@.take(i as int),
        decreases src.len() - i,
    {
        dst.push(src[i]);
        i += 1;
        proof {
            assert(src@.take(i as int) =~= src@.take(i - 1).push(src@[i - 1]));
        }
    }
    proof {
        assert(src@.take(src.len() as int) =~= src@);
    }
}

/// A new vector holding a copy of every element of `src`, in order.
pub(crate) fn copied<T: Copy>(src: &Vec<T>) -> (r: Vec<T>)
    ensures
        r@ == src@,
{
    let mut r: Vec<T> = Vec::new();
    extend_copied(&mut r, src);
    assert(r@ =~= src@);
    r
}

/// Calls `Vec::shrink_to_fit`, which releases spare capacity and leaves the elements as
/// they are.
#[verifier::external_body]
pub(crate) fn shrink_buffer<T>(v: &mut Vec<T>)
    ensures
        final(v)@ == old(v)@,
{
    v.shrink_to_fit();
}
} // verus!
