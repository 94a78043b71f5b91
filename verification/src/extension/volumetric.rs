//! Volume data of the Godot extension: a dense 3D grid with 32-bit coordinates.

use crate::math::volumetric::{
    cell_total, coords_of, in_margin, lemma_linearize_roundtrip, linear_index, min_of, padded,
};
use vstd::prelude::*;

verus! {

/// A container for storing volume data.
pub struct VolumeData<T> {
    data: Vec<T>,
    dim: [u32; 3],
    strides: [u32; 3],
    size: usize,
}

impl<T: Copy> VolumeData<T> {
    /// The dimensions of the grid.
    pub closed spec fn dimensions(&self) -> [usize; 3] {
        [self.dim[0] as usize, self.dim[1] as usize, self.dim[2] as usize]
    }

    /// The number of cells of the grid.
    pub closed spec fn cell_count(&self) -> nat {
        self.size as nat
    }

    /// The cell values, in linear order.
    pub closed spec fn cells(&self) -> Seq<T> {
        self.data@
    }

    /// The grid's strides, cell count and data agree with its dimensions, and every cell
    /// index fits in 32 bits.
    pub closed spec fn wf(&self) -> bool {
        &&& self.strides[0] == 1
        &&& self.strides[1] == self.dim[0]
        &&& self.strides[2] == self.dim[0] * self.dim[1]
        &&& self.size == cell_total(self.dimensions())
        &&& self.size <= u32::MAX
        &&& self.data@.len() == self.size
    }

    /// What well-formedness gives callers.
    pub proof fn lemma_wf(&self)
        requires
            self.wf(),
        ensures
            self.cells().len() == self.cell_count(),
            self.cell_count() == cell_total(self.dimensions()),
            self.cell_count() <= u32::MAX,
    {
    }

    /// Every dimension is at least one cell.
    pub open spec fn non_empty(&self) -> bool {
        self.dimensions()[0] >= 1 && self.dimensions()[1] >= 1 && self.dimensions()[2] >= 1
    }

    /// Creates a new volumetric of the given size with the default value.
    pub fn new(default: T, dim: [u32; 3]) -> (r: Self)
        requires
            dim[0] * dim[1] <= u32::MAX,
            dim[0] * dim[1] * dim[2] <= u32::MAX,
        ensures
            r.wf(),
            r.dimensions() == [dim[0] as usize, dim[1] as usize, dim[2] as usize],
            r.cell_count() == dim[0] * dim[1] * dim[2],
            r.cells() == Seq::new(r.cell_count(), |i: int| default),
    {
        let layer = dim[0] * dim[1];
        let size = (layer * dim[2]) as usize;

        let mut data: Vec<T> = Vec::new();
        let mut i: usize = 0;
        while i < size
            invariant
                i <= size,
                data@ == Seq::new(i as nat, |j: int| default),
            decreases size - i,
        {
            data.push(default);
            i += 1;
            proof {
                assert(data@ =~= Seq::new(i as nat, |j: int| default));
            }
        }

        let r = Self { data, dim, strides: [1, dim[0], layer], size };
        proof {
            assert(cell_total(r.dimensions()) == dim[0] * dim[1] * dim[2]);
        }
        r
    }

    /// Returns the number of cells in this volume.
    pub fn size(&self) -> (r: usize)
        ensures
            r == self.cell_count(),
    {
        self.size
    }

    /// Returns the dimensions of this volume.
    pub fn get_dimensions(&self) -> (r: [u32; 3])
        ensures
            [r[0] as usize, r[1] as usize, r[2] as usize] == self.dimensions(),
    {
        self.dim
    }

    /// Sets the value at the given linear index.
    pub fn set_linear(&mut self, i: usize, val: T)
        requires
            i < old(self).cells().len(),
        ensures
            final(self).cells() == old(self).cells().update(i as int, val),
            final(self).dimensions() == old(self).dimensions(),
            final(self).cell_count() == old(self).cell_count(),
            final(self).wf() == old(self).wf(),
    {
        self.data.set(i, val);
    }

    /// Returns the value at the given linear index.
    pub fn get_linear(&self, i: usize) -> (r: T)
        requires
            i < self.cells().len(),
        ensures
            r == self.cells()[i as int],
    {
        self.data[i]
    }

    /// Returns the linearized index of the given value.
    /// Coordinates past the far faces of the grid are clamped onto them.
    pub fn linearize(&self, x: u32, y: u32, z: u32) -> (r: u32)
        requires
            self.wf(),
            self.non_empty(),
        ensures
            r == linear_index(
                self.dimensions(),
                min_of(x as int, self.dimensions()[0] - 1),
                min_of(y as int, self.dimensions()[1] - 1),
                min_of(z as int, self.dimensions()[2] - 1),
            ),
            r < self.cell_count(),
    {
        let x_clamp = if x < self.dim[0] - 1 { x } else { self.dim[0] - 1 };
        let y_clamp = if y < self.dim[1] - 1 { y } else { self.dim[1] - 1 };
        let z_clamp = if z < self.dim[2] - 1 { z } else { self.dim[2] - 1 };
        proof {
            lemma_linearize_roundtrip(
                self.dimensions(),
                x_clamp as int,
                y_clamp as int,
                z_clamp as int,
            );
            lemma_terms_fit_u32(self.strides, x_clamp, y_clamp, z_clamp, self.size as int);
        }
        x_clamp + self.strides[1].wrapping_mul(y_clamp) + self.strides[2].wrapping_mul(z_clamp)
    }

    /// Returns true if the given coordinates are within the cell padding margin.
    /// False otherwise.
    /// Zero padding will always return false.
    pub fn is_margin(&self, x: u32, y: u32, z: u32, cell_padding: u32) -> (r: bool)
        requires
            cell_padding <= self.dimensions()[0],
            cell_padding <= self.dimensions()[1],
            cell_padding <= self.dimensions()[2],
        ensures
            r == in_margin(self.dimensions(), x as int, y as int, z as int, cell_padding as int),
    {
        if cell_padding == 0 {
            return false;
        }
        (x < cell_padding || x >= self.dim[0] - cell_padding) || (y < cell_padding || y
            >= self.dim[1] - cell_padding) || (z < cell_padding || z >= self.dim[2] - cell_padding)
    }

    /// Returns the delinearized coordinates of the given index.
    pub fn delinearize(&self, i: u32) -> (r: [u32; 3])
        requires
            self.wf(),
            self.dimensions()[0] >= 1,
            self.dimensions()[1] >= 1,
        ensures
            (r[0] as int, r[1] as int, r[2] as int) == coords_of(self.dimensions(), i as int),
    {
        proof {
            assert(self.strides[2] > 0) by (nonlinear_arith)
                requires
                    self.strides[2] == self.dim[0] * self.dim[1],
                    self.dim[0] >= 1,
                    self.dim[1] >= 1,
            ;
            vstd::arithmetic::div_mod::lemma_fundamental_div_mod(i as int, self.strides[2] as int);
            vstd::arithmetic::div_mod::lemma_mod_bound(i as int, self.strides[2] as int);
            vstd::arithmetic::div_mod::lemma_div_pos_is_pos(i as int, self.strides[2] as int);
        }
        let mut i = i;
        let z = i / self.strides[2];
        proof {
            assert(z * self.strides[2] <= i) by (nonlinear_arith)
                requires
                    i == self.strides[2] * (i / self.strides[2]) + i % self.strides[2],
                    z == i / self.strides[2],
                    i % self.strides[2] >= 0,
            ;
        }
        i -= z * self.strides[2];
        let y = i / self.strides[1];
        let x = i % self.strides[1];
        [x, y, z]
    }

    /// Sets every cell of the bordering cell margin to `to`.
    /// The island builder fills it with the minimum SDF distance, +10.0.
    pub fn trim_padding(&mut self, cell_padding: u32, to: T)
        requires
            old(self).wf(),
            old(self).cell_count() > 0 ==> cell_padding <= old(self).dimensions()[0]
                && cell_padding <= old(self).dimensions()[1] && cell_padding <= old(
                self,
            ).dimensions()[2],
        ensures
            final(self).wf(),
            final(self).dimensions() == old(self).dimensions(),
            final(self).cell_count() == old(self).cell_count(),
            final(self).cells() == padded(
                old(self).dimensions(),
                old(self).cells(),
                cell_padding as int,
                to,
            ),
    {
        let ghost dim = self.dimensions();
        let ghost start = self.data@;
        let ghost target = padded(dim, start, cell_padding as int, to);
        let mut i: usize = 0;
        while i < self.size
            invariant
                i <= self.size,
                self.wf(),
                self.dimensions() == dim,
                self.size == start.len(),
                start.len() == target.len(),
                target == padded(dim, start, cell_padding as int, to),
                self.size > 0 ==> cell_padding <= dim[0] && cell_padding <= dim[1]
                    && cell_padding <= dim[2],
                forall|j: int| 0 <= j < i ==> #[trigger] self.data@[j] == target[j],
                forall|j: int| i <= j < self.size ==> #[trigger] self.data@[j] == start[j],
            decreases self.size - i,
        {
            proof {
                assert(dim[0] >= 1 && dim[1] >= 1) by (nonlinear_arith)
                    requires
                        self.size == dim[0] * dim[1] * dim[2],
                        self.size > 0,
                ;
            }
            let c = self.delinearize(i as u32);
            if self.is_margin(c[0], c[1], c[2], cell_padding) {
                self.set_linear(i, to);
            }
            i += 1;
        }
        proof {
            assert(self.data@ =~= target);
        }
    }
}

/// When a linear index stays below a bound that fits in `u32`, its products do not wrap.
proof fn lemma_terms_fit_u32(strides: [u32; 3], x: u32, y: u32, z: u32, bound: int)
    requires
        x + strides[1] * y + strides[2] * z <= bound,
        bound <= u32::MAX,
    ensures
        vstd::wrapping::u32_specs::wrapping_mul(strides[1], y) == strides[1] * y,
        vstd::wrapping::u32_specs::wrapping_mul(strides[2], z) == strides[2] * z,
{
    let a = strides[1] as int * y as int;
    let b = strides[2] as int * z as int;
    assert(a >= 0 && b >= 0) by (nonlinear_arith)
        requires
            a == strides[1] as int * y as int,
            b == strides[2] as int * z as int,
    ;
    vstd::arithmetic::div_mod::lemma_small_mod(a as nat, (u32::MAX + 1) as nat);
    vstd::arithmetic::div_mod::lemma_small_mod(b as nat, (u32::MAX + 1) as nat);
}

} // verus!
