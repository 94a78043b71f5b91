//! Mesh surface arrays in the layout the engine expects: one slot per kind of buffer.

use crate::extension::trimesh::TriangleMesh;
use crate::extension::types::{packed_index_array_usize, PackedInt32Array};
use crate::mesh::topology::flatten;
use crate::vector::copied;
use glam::{Vec2, Vec3, Vec4};
use vstd::prelude::*;

verus! {

/// The slots of a mesh surface array, in the engine's order.
#[derive(Clone, Copy, PartialEq, Eq, Structural, Debug)]
pub enum ArrayType {
    Vertex,
    Normal,
    Tangent,
    Color,
    TexUv,
    TexUv2,
    Custom0,
    Custom1,
    Custom2,
    Custom3,
    Bones,
    Weights,
    Index,
    /// The number of slots; not a slot itself.
    Max,
}

impl ArrayType {
    /// The position of this slot in the surface array.
    pub open spec fn slot(self) -> nat {
        match self {
            ArrayType::Vertex => 0,
            ArrayType::Normal => 1,
            ArrayType::Tangent => 2,
            ArrayType::Color => 3,
            ArrayType::TexUv => 4,
            ArrayType::TexUv2 => 5,
            ArrayType::Custom0 => 6,
            ArrayType::Custom1 => 7,
            ArrayType::Custom2 => 8,
            ArrayType::Custom3 => 9,
            ArrayType::Bones => 10,
            ArrayType::Weights => 11,
            ArrayType::Index => 12,
            ArrayType::Max => 13,
        }
    }

    /// The position of this slot in the surface array.
    pub fn ord(self) -> (r: usize)
        ensures
            r == self.slot(),
    {
        match self {
            ArrayType::Vertex => 0,
            ArrayType::Normal => 1,
            ArrayType::Tangent => 2,
            ArrayType::Color => 3,
            ArrayType::TexUv => 4,
            ArrayType::TexUv2 => 5,
            ArrayType::Custom0 => 6,
            ArrayType::Custom1 => 7,
            ArrayType::Custom2 => 8,
            ArrayType::Custom3 => 9,
            ArrayType::Bones => 10,
            ArrayType::Weights => 11,
            ArrayType::Index => 12,
            ArrayType::Max => 13,
        }
    }
}

/// The number of slots in a surface array.
pub open spec fn slot_count() -> nat {
    ArrayType::Max.slot()
}

/// What one slot of a surface array holds.
pub enum SurfaceArray {
    /// No buffer: the engine ignores the slot.
    Nil,
    /// An empty, untyped array.
    Empty,
    /// A packed array of 32-bit integers.
    Int32(PackedInt32Array),
    /// A packed array of three-component vectors.
    Vector3(Vec<Vec3>),
    /// A packed array of two-component vectors.
    Vector2(Vec<Vec2>),
    /// A packed array of colors.
    Color(Vec<Vec4>),
}

/// The contents of a slot, as sequences.
pub enum SurfaceArrayView {
    Nil,
    Empty,
    Int32(Seq<i32>),
    Vector3(Seq<Vec3>),
    Vector2(Seq<Vec2>),
    Color(Seq<Vec4>),
}

impl View for SurfaceArray {
    type V = SurfaceArrayView;

    open spec fn view(&self) -> SurfaceArrayView {
        match self {
            SurfaceArray::Nil => SurfaceArrayView::Nil,
            SurfaceArray::Empty => SurfaceArrayView::Empty,
            SurfaceArray::Int32(v) => SurfaceArrayView::Int32(v@),
            SurfaceArray::Vector3(v) => SurfaceArrayView::Vector3(v@),
            SurfaceArray::Vector2(v) => SurfaceArrayView::Vector2(v@),
            SurfaceArray::Color(v) => SurfaceArrayView::Color(v@),
        }
    }
}

/// A slot holding a copy of the same buffer.
fn copy_slot(a: &SurfaceArray) -> (r: SurfaceArray)
    ensures
        r@ == a@,
{
    match a {
        SurfaceArray::Nil => SurfaceArray::Nil,
        SurfaceArray::Empty => SurfaceArray::Empty,
        SurfaceArray::Int32(v) => SurfaceArray::Int32(copied(v)),
        SurfaceArray::Vector3(v) => SurfaceArray::Vector3(copied(v)),
        SurfaceArray::Vector2(v) => SurfaceArray::Vector2(copied(v)),
        SurfaceArray::Color(v) => SurfaceArray::Color(copied(v)),
    }
}

/// The slots of a fresh set of surface arrays: vertices and indices hold empty arrays, as
/// they are always set by hand, and every other slot holds no buffer.
pub open spec fn initial_slots() -> Seq<SurfaceArrayView> {
    Seq::new(
        slot_count(),
        |i: int|
            if i == ArrayType::Vertex.slot() || i == ArrayType::Index.slot() {
                SurfaceArrayView::Empty
            } else {
                SurfaceArrayView::Nil
            },
    )
}

/// A helper class for batch-handling mesh surface data within Godot Engine.
pub struct GodotSurfaceArrays {
    surface_arrays: Vec<SurfaceArray>,
}

impl GodotSurfaceArrays {
    /// There is exactly one entry per slot.
    #[verifier::type_invariant]
    spec fn has_every_slot(self) -> bool {
        self.surface_arrays@.len() == slot_count()
    }

    /// The contents of every slot, in slot order.
    pub closed spec fn slots(&self) -> Seq<SurfaceArrayView> {
        self.surface_arrays@.map_values(|a: SurfaceArray| a@)
    }

    /// Initializes a new set of mesh surface arrays.
    /// Vertices and indices are not set initially,
    /// as they will always have to be set manually.
    pub fn new() -> (r: Self)
        ensures
            r.slots() == initial_slots(),
    {
        let mut sa: Vec<SurfaceArray> = Vec::new();
        let count = ArrayType::Max.ord();
        let mut i: usize = 0;
        while i < count
            invariant
                count == slot_count(),
                i <= count,
                sa@.len() == i,
                sa@.map_values(|a: SurfaceArray| a@) == initial_slots().take(i as int),
            decreases count - i,
        {
            let ghost before = sa@;
            // Vertices and indices are overridden anyway; every other buffer starts unbound.
            if i == ArrayType::Vertex.ord() || i == ArrayType::Index.ord() {
                sa.push(SurfaceArray::Empty);
            } else {
                sa.push(SurfaceArray::Nil);
            }
            i += 1;
            proof {
                assert forall|j: int| 0 <= j < i implies #[trigger] sa@[j]@ == initial_slots()[j] by {
                    if j < i - 1 {
                        assert(before.map_values(|a: SurfaceArray| a@)[j] == initial_slots().take(
                            i - 1,
                        )[j]);
                    }
                }
                assert(sa@.map_values(|a: SurfaceArray| a@) =~= initial_slots().take(i as int));
            }
        }
        proof {
            assert(initial_slots().take(count as int) =~= initial_slots());
        }
        Self { surface_arrays: sa }
    }

    /// Creates a corresponding GodotSurfaceArrays set from a TriangleMesh.
    pub fn from_trimesh(mesh: &TriangleMesh) -> (r: Self)
        ensures
            r.slots() == initial_slots().update(
                ArrayType::Vertex.slot() as int,
                SurfaceArrayView::Vector3(mesh.positions@),
            ).update(ArrayType::Normal.slot() as int, SurfaceArrayView::Vector3(mesh.normals@)).update(
                ArrayType::Index.slot() as int,
                SurfaceArrayView::Int32(flatten(mesh.triangles@).map_values(|v: usize| v as i32)),
            ),
    {
        let mut surface = Self::new();

        surface.set_vertices(copied(&mesh.positions));
        surface.set_normals(copied(&mesh.normals));
        surface.set_indices(packed_index_array_usize(mesh.indices()));

        surface
    }

    /// Internally sets a SurfaceArray value to the given variant.
    fn set_internal(&mut self, arrtype: ArrayType, value: SurfaceArray)
        requires
            arrtype != ArrayType::Max,
        ensures
            final(self).slots() == old(self).slots().update(arrtype.slot() as int, value@),
    {
        proof {
            use_type_invariant(&*self);
        }
        let i = arrtype.ord();
        self.surface_arrays[i] = value;
        proof {
            assert(self.slots() =~= old(self).slots().update(arrtype.slot() as int, value@));
        }
    }

    /// Sets the indices buffer
    pub fn set_indices(&mut self, value: PackedInt32Array)
        ensures
            final(self).slots() == old(self).slots().update(
                ArrayType::Index.slot() as int,
                SurfaceArrayView::Int32(value@),
            ),
    {
        self.set_internal(ArrayType::Index, SurfaceArray::Int32(value));
    }

    /// Sets the vertex position buffer
    pub fn set_vertices(&mut self, value: Vec<Vec3>)
        ensures
            final(self).slots() == old(self).slots().update(
                ArrayType::Vertex.slot() as int,
                SurfaceArrayView::Vector3(value@),
            ),
    {
        self.set_internal(ArrayType::Vertex, SurfaceArray::Vector3(value));
    }

    /// Sets the vertex normal buffer
    pub fn set_normals(&mut self, value: Vec<Vec3>)
        ensures
            final(self).slots() == old(self).slots().update(
                ArrayType::Normal.slot() as int,
                SurfaceArrayView::Vector3(value@),
            ),
    {
        self.set_internal(ArrayType::Normal, SurfaceArray::Vector3(value));
    }

    /// Sets the vertex tangent buffer
    pub fn set_tangents(&mut self, value: Vec<Vec3>)
        ensures
            final(self).slots() == old(self).slots().update(
                ArrayType::Tangent.slot() as int,
                SurfaceArrayView::Vector3(value@),
            ),
    {
        self.set_internal(ArrayType::Tangent, SurfaceArray::Vector3(value));
    }

    /// Sets the vertex color buffer
    pub fn set_colors(&mut self, value: Vec<Vec4>)
        ensures
            final(self).slots() == old(self).slots().update(
                ArrayType::Color.slot() as int,
                SurfaceArrayView::Color(value@),
            ),
    {
        self.set_internal(ArrayType::Color, SurfaceArray::Color(value));
    }

    /// Sets the vertex UV1 buffer
    pub fn set_uv1(&mut self, value: Vec<Vec2>)
        ensures
            final(self).slots() == old(self).slots().update(
                ArrayType::TexUv.slot() as int,
                SurfaceArrayView::Vector2(value@),
            ),
    {
        self.set_internal(ArrayType::TexUv, SurfaceArray::Vector2(value));
    }

    /// Sets the vertex UV2 buffer
    pub fn set_uv2(&mut self, value: Vec<Vec2>)
        ensures
            final(self).slots() == old(self).slots().update(
                ArrayType::TexUv2.slot() as int,
                SurfaceArrayView::Vector2(value@),
            ),
    {
        self.set_internal(ArrayType::TexUv2, SurfaceArray::Vector2(value));
    }

    /// Returns a copy of the surface arrays, for passing to Godot.
    pub fn get_surface_arrays(&self) -> (r: Vec<SurfaceArray>)
        ensures
            r@.map_values(|a: SurfaceArray| a@) == self.slots(),
    {
        let mut out: Vec<SurfaceArray> = Vec::new();
        let mut i: usize = 0;
        while i < self.surface_arrays.len()
            invariant
                i <= self.surface_arrays@.len(),
                out@.len() == i,
                self.slots().len() == self.surface_arrays@.len(),
                out@.map_values(|a: SurfaceArray| a@) == self.slots().take(i as int),
            decreases self.surface_arrays.len() - i,
        {
            let ghost before = out@;
            out.push(copy_slot(&self.surface_arrays[i]));
            i += 1;
            proof {
                assert forall|j: int| 0 <= j < i implies #[trigger] out@[j]@ == self.slots()[j] by {
                    if j < i - 1 {
                        assert(before.map_values(|a: SurfaceArray| a@)[j] == self.slots().take(
                            i - 1,
                        )[j]);
                    }
                }
                assert(out@.map_values(|a: SurfaceArray| a@) =~= self.slots().take(i as int));
            }
        }
        proof {
            assert(self.slots().take(i as int) =~= self.slots());
        }
        out
    }
}

impl Default for GodotSurfaceArrays {
    fn default() -> (r: Self)
        ensures
            r.slots() == initial_slots(),
    {
        Self::new()
    }
}

} // verus!
