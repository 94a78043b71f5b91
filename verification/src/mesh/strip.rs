//! Meshes laid out as triangle strips.

use glam::{Vec2, Vec3};
use vstd::prelude::*;

verus! {

/// A mesh optimized for [triangle strips](https://en.wikipedia.org/wiki/Triangle_strip).
#[derive(Clone)]
pub struct TriangleStripMesh {
    /// The index that the next pushed vertex gets.
    pub buffer_position: usize,
    /// Vertex indices, in strip order.
    pub index: Vec<usize>,
    /// Vertex positions.
    pub position: Vec<Vec3>,
    /// Vertex normals.
    pub normal: Vec<Vec3>,
    /// First UV channel.
    pub uv1: Vec<Vec2>,
}

impl TriangleStripMesh {
    /// The strip as built by `new` and `push`: one entry per vertex in every buffer, the
    /// vertices indexed in push order, and the next index right after the last.
    pub open spec fn is_sequential(&self) -> bool {
        &&& self.buffer_position == self.index@.len()
        &&& self.position@.len() == self.index@.len()
        &&& self.normal@.len() == self.index@.len()
        &&& self.uv1@.len() == self.index@.len()
        &&& forall|i: int| 0 <= i < self.index@.len() ==> #[trigger] self.index@[i] == i
    }

    /// Creates a new triangle strip mesh with buffers pre-allocated to the given size.
    pub fn new(tricount: usize) -> (r: Self)
        requires
            tricount + 2 <= usize::MAX,
        ensures
            r.buffer_position == 0,
            r.index@ == Seq::<usize>::empty(),
            r.position@ == Seq::<Vec3>::empty(),
            r.normal@ == Seq::<Vec3>::empty(),
            r.uv1@ == Seq::<Vec2>::empty(),
            r.is_sequential(),
    {
        let buffer_size = tricount + 2;
        Self {
            buffer_position: 0,
            index: Vec::<usize>::with_capacity(buffer_size),
            position: Vec::<Vec3>::with_capacity(buffer_size),
            normal: Vec::<Vec3>::with_capacity(buffer_size),
            uv1: Vec::<Vec2>::with_capacity(buffer_size),
        }
    }

    /// Push the given data for a line.
    /// The vertex gets the next index of the strip; a sequential strip stays sequential.
    pub fn push(&mut self, position: Vec3, normal: Vec3, uv: Vec2)
        requires
            old(self).buffer_position < usize::MAX,
        ensures
            final(self).index@ == old(self).index@.push(old(self).buffer_position),
            final(self).position@ == old(self).position@.push(position),
            final(self).normal@ == old(self).normal@.push(normal),
            final(self).uv1@ == old(self).uv1@.push(uv),
            final(self).buffer_position == old(self).buffer_position + 1,
            old(self).is_sequential() ==> final(self).is_sequential(),
    {
        self.index.push(self.buffer_position);
        self.position.push(position);
        self.normal.push(normal);
        self.uv1.push(uv);
        self.buffer_position += 1;
    }
}

} // verus!
