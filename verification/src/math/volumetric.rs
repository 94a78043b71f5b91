//! Volume data: a dense 3D grid of cells stored in one linear buffer, x fastest.

use vstd::prelude::*;
use vstd::wrapping::usize_specs::wrapping_mul;
use crate::utils::is_default_value;

verus! {

/// The linear index of cell `(x, y, z)` in a grid of dimensions `dim`.
pub open spec fn linear_index(dim: [usize; 3], x: int, y: int, z: int) -> int {
    x + dim[0] * y + dim[0] * dim[1] * z
}

/// The smaller of `v` and `hi`.
pub open spec fn min_of(v: int, hi: int) -> int {
    if v <= hi {
        v
    } else {
        hi
    }
}

/// The coordinates of linear index `i` in a grid of dimensions `dim`: the layer `z` is
/// `i` divided by the layer size, and the rest gives the row `y` and the column `x`.
pub open spec fn coords_of(dim: [usize; 3], i: int) -> (int, int, int) {
    let layer = dim[0] * dim[1];
    let z = i / layer;
    let rest = i - z * layer;
    (rest % (dim[0] as int), rest / (dim[0] as int), z)
}

/// True if the padding is not zero and the cell lies within `pad` cells of a face of the grid
/// (or beyond a far face).
pub open spec fn in_margin(dim: [usize; 3], x: int, y: int, z: int, pad: int) -> bool {
    pad > 0 && ((x < pad || x >= dim[0] - pad) || (y < pad || y >= dim[1] - pad) || (z < pad
        || z >= dim[2] - pad))
}

/// Zero padding never marks a cell as margin.
pub proof fn lemma_zero_padding_no_margin(dim: [usize; 3], x: int, y: int, z: int)
    ensures
        !in_margin(dim, x, y, z, 0),
{
}

/// The cells of a grid of dimensions `dim` once every cell within `pad` cells of a face
/// is set to `to`.
pub open spec fn padded<T>(dim: [usize; 3], cells: Seq<T>, pad: int, to: T) -> Seq<T> {
    Seq::new(
        cells.len(),
        |i: int|
            {
                let (x, y, z) = coords_of(dim, i);
                if in_margin(dim, x, y, z, pad) {
                    to
                } else {
                    cells[i]
                }
            },
    )
}

/// With non-zero padding, each axis is tested against its own extent: a cell of the grid at
/// least `pad` cells away from both faces on every axis is never margin, and a cell within
/// `pad` cells of either face on any one axis always is.
pub proof fn law_margin_per_axis(dim: [usize; 3], x: int, y: int, z: int, pad: int)
    requires
        pad > 0,
        0 <= x < dim[0],
        0 <= y < dim[1],
        0 <= z < dim[2],
    ensures
        pad <= x && x + pad < dim[0] && pad <= y && y + pad < dim[1] && pad <= z && z + pad
            < dim[2] ==> !in_margin(dim, x, y, z, pad),
        x < pad || dim[0] - pad <= x ==> in_margin(dim, x, y, z, pad),
        y < pad || dim[1] - pad <= y ==> in_margin(dim, x, y, z, pad),
        z < pad || dim[2] - pad <= z ==> in_margin(dim, x, y, z, pad),
{
}

/// The margin does not depend on how the axes are named: exchanging two axes, together with
/// their extents, exchanges the coordinates that lie in the margin.
pub proof fn law_margin_axis_exchange(dim: [usize; 3], x: int, y: int, z: int, pad: int)
    ensures
        in_margin(dim, x, y, z, pad) == in_margin([dim[1], dim[0], dim[2]], y, x, z, pad),
        in_margin(dim, x, y, z, pad) == in_margin([dim[0], dim[2], dim[1]], x, z, y, pad),
        in_margin(dim, x, y, z, pad) == in_margin([dim[2], dim[1], dim[0]], z, y, x, pad),
{
}

/// The margin is the same seen from either face: mirroring a coordinate of the grid across
/// its own axis keeps a cell in the margin or out of it.
pub proof fn law_margin_mirror(dim: [usize; 3], x: int, y: int, z: int, pad: int)
    requires
        0 <= x < dim[0],
        0 <= y < dim[1],
        0 <= z < dim[2],
    ensures
        in_margin(dim, x, y, z, pad) == in_margin(dim, dim[0] - 1 - x, y, z, pad),
        in_margin(dim, x, y, z, pad) == in_margin(dim, x, dim[1] - 1 - y, z, pad),
        in_margin(dim, x, y, z, pad) == in_margin(dim, x, y, dim[2] - 1 - z, pad),
{
}

/// Padding sets a cell to `to` exactly when it lies within `pad` (non-zero) cells of a face on
/// some axis, each axis measured against its own extent; every other cell keeps its value.
pub proof fn law_padding_cell<T>(
    dim: [usize; 3],
    cells: Seq<T>,
    pad: int,
    to: T,
    x: int,
    y: int,
    z: int,
)
    requires
        cells.len() == cell_total(dim),
        0 <= x < dim[0],
        0 <= y < dim[1],
        0 <= z < dim[2],
    ensures
        ({
            let i = linear_index(dim, x, y, z);
            let border = pad > 0 && (x < pad || x >= dim[0] - pad || y < pad || y >= dim[1] - pad
                || z < pad || z >= dim[2] - pad);
            &&& 0 <= i < cells.len()
            &&& border ==> padded(dim, cells, pad, to)[i] == to
            &&& !border ==> padded(dim, cells, pad, to)[i] == cells[i]
        }),
{
    lemma_linearize_roundtrip(dim, x, y, z);
}

/// The number of cells of a grid of dimensions `dim`.
pub open spec fn cell_total(dim: [usize; 3]) -> int {
    dim[0] * dim[1] * dim[2]
}

/// Linearizing in-range coordinates gives an index in range, and delinearizing that
/// index gives back the coordinates.
pub proof fn lemma_linearize_roundtrip(dim: [usize; 3], x: int, y: int, z: int)
    requires
        0 <= x < dim[0],
        0 <= y < dim[1],
        0 <= z < dim[2],
    ensures
        0 <= linear_index(dim, x, y, z) < cell_total(dim),
        coords_of(dim, linear_index(dim, x, y, z)) == (x, y, z),
{
    let d0 = dim[0] as int;
    let d1 = dim[1] as int;
    let d2 = dim[2] as int;
    let layer = d0 * d1;
    let rest = x + d0 * y;
    assert(0 <= rest < layer && layer > 0) by (nonlinear_arith)
        requires
            0 <= x < d0,
            0 <= y < d1,
            rest == x + d0 * y,
            layer == d0 * d1,
    ;
    let i = linear_index(dim, x, y, z);
    assert(i == z * layer + rest) by (nonlinear_arith)
        requires
            i == x + d0 * y + d0 * d1 * z,
            layer == d0 * d1,
            rest == x + d0 * y,
    ;
    assert(0 <= i < layer * d2) by (nonlinear_arith)
        requires
            i == z * layer + rest,
            0 <= rest < layer,
            0 <= z < d2,
    ;
    assert(cell_total(dim) == d0 * d1 * d2);
    assert(layer * d2 == d0 * d1 * d2) by (nonlinear_arith)
        requires
            layer == d0 * d1,
    ;
    vstd::arithmetic::div_mod::lemma_fundamental_div_mod_converse(i, layer, z, rest);
    assert(i - z * layer == rest);
    assert(rest == y * d0 + x) by (nonlinear_arith)
        requires
            rest == x + d0 * y,
    ;
    vstd::arithmetic::div_mod::lemma_fundamental_div_mod_converse(rest, d0, y, x);
}

/// Delinearizing an index in range gives in-range coordinates that linearize back to it.
pub proof fn lemma_delinearize_roundtrip(dim: [usize; 3], i: int)
    requires
        0 <= i < cell_total(dim),
    ensures
        ({
            let (x, y, z) = coords_of(dim, i);
            &&& 0 <= x < dim[0]
            &&& 0 <= y < dim[1]
            &&& 0 <= z < dim[2]
            &&& linear_index(dim, x, y, z) == i
        }),
{
    let d0 = dim[0] as int;
    let d1 = dim[1] as int;
    let d2 = dim[2] as int;
    let layer = d0 * d1;
    assert(cell_total(dim) == d0 * d1 * d2);
    assert(layer > 0 && d0 > 0 && d2 > 0) by (nonlinear_arith)
        requires
            0 <= i < d0 * d1 * d2,
            layer == d0 * d1,
            d0 >= 0,
            d1 >= 0,
            d2 >= 0,
    ;
    let z = i / layer;
    let rest = i - z * layer;
    vstd::arithmetic::div_mod::lemma_fundamental_div_mod(i, layer);
    assert(rest == i % layer) by (nonlinear_arith)
        requires
            i == layer * (i / layer) + i % layer,
            z == i / layer,
            rest == i - z * layer,
    ;
    vstd::arithmetic::div_mod::lemma_mod_bound(i, layer);
    assert(0 <= z < d2) by (nonlinear_arith)
        requires
            0 <= i < d0 * d1 * d2,
            layer == d0 * d1,
            layer > 0,
            z == i / layer,
    {
        vstd::arithmetic::div_mod::lemma_div_pos_is_pos(i, layer);
        vstd::arithmetic::div_mod::lemma_div_by_multiple_is_strongly_ordered(i, layer * d2, d2, layer);
    }
    let y = rest / d0;
    let x = rest % d0;
    vstd::arithmetic::div_mod::lemma_fundamental_div_mod(rest, d0);
    vstd::arithmetic::div_mod::lemma_mod_bound(rest, d0);
    assert(0 <= y < d1) by (nonlinear_arith)
        requires
            0 <= rest < d0 * d1,
            d0 > 0,
            y == rest / d0,
    {
        vstd::arithmetic::div_mod::lemma_div_pos_is_pos(rest, d0);
        vstd::arithmetic::div_mod::lemma_div_by_multiple_is_strongly_ordered(rest, d0 * d1, d1, d0);
    }
    assert(x + d0 * y + d0 * d1 * z == i) by (nonlinear_arith)
        requires
            rest == d0 * y + x,
            i == layer * z + rest,
            layer == d0 * d1,
    ;
}

/// Padding by zero cells changes no cell of a grid.
pub proof fn lemma_zero_padding_keeps_cells<T>(dim: [usize; 3], cells: Seq<T>, to: T)
    requires
        cells.len() == cell_total(dim),
    ensures
        padded(dim, cells, 0, to) == cells,
{
    assert forall|i: int| 0 <= i < cells.len() implies #[trigger] padded(dim, cells, 0, to)[i]
        == cells[i] by {
        lemma_delinearize_roundtrip(dim, i);
        let (x, y, z) = coords_of(dim, i);
        lemma_zero_padding_no_margin(dim, x, y, z);
    }
    assert(padded(dim, cells, 0, to) =~= cells);
}

/// Reading a cell after writing one: the written cell gives back the written value and
/// every other cell keeps its value (`set_linear` updates the cells this way and
/// `get_linear` reads them).
pub proof fn lemma_read_after_write<T>(before: Seq<T>, after: Seq<T>, i: int, v: T, j: int)
    requires
        0 <= i < before.len(),
        0 <= j < before.len(),
        after == before.update(i, v),
    ensures
        after[j] == (if j == i {
            v
        } else {
            before[j]
        }),
        after.len() == before.len(),
{
}

/// A container for storing volume data.
pub struct VolumeData<T> {
    /// Internal data for voxel grid.
    pub data: Vec<T>,
    dim: [usize; 3],
    strides: [usize; 3],
    size: usize,
}

/// A contiguous slice of a volume's cells, for handling them in parallel.
pub struct VolumeWorker<T> {
    /// Volume data being utilized inside the worker.
    pub data: Vec<T>,
    /// Minimum bound of the worker data.
    pub range_min: usize,
    /// Maximum bound of the worker data.
    pub range_max: usize,
    /// Width of the worker data.
    pub range_width: usize,
}

/// `worker` has the bounds of the `w`-th group of `g` cells in a volume of `n` cells, and a
/// buffer as wide as its range.
pub open spec fn worker_bounds<T>(worker: VolumeWorker<T>, n: int, g: int, w: int) -> bool {
    &&& worker.range_min == w * g
    &&& worker.range_max == min_of((w + 1) * g, n)
    &&& worker.range_width == worker.range_max - worker.range_min
    &&& worker.range_min < worker.range_max
    &&& worker.data@.len() == worker.range_width
}

/// `after` is `before` once the first `range_width` values of its buffer have been replaced by
/// its slice of `cells`; the bounds stay.
pub open spec fn copied_from<T>(before: VolumeWorker<T>, after: VolumeWorker<T>, cells: Seq<T>) -> bool {
    &&& after.data@ == cells.subrange(
        before.range_min as int,
        before.range_min + before.range_width,
    ) + before.data@.subrange(before.range_width as int, before.data@.len() as int)
    &&& after.range_min == before.range_min
    &&& after.range_max == before.range_max
    &&& after.range_width == before.range_width
}

/// A worker split off without the volume's data, once its slice has been copied in, holds
/// what a split that keeps the data gives it: the same bounds, and exactly its cells.
pub proof fn law_copy_completes_split<T>(
    cells: Seq<T>,
    g: int,
    w: int,
    before: VolumeWorker<T>,
    after: VolumeWorker<T>,
)
    requires
        worker_bounds(before, cells.len() as int, g, w),
        copied_from(before, after, cells),
    ensures
        worker_bounds(after, cells.len() as int, g, w),
        after.data@ == cells.subrange(after.range_min as int, after.range_max as int),
{
    assert(before.data@.subrange(before.range_width as int, before.data@.len() as int) =~= Seq::<T>::empty());
    assert(after.data@ =~= cells.subrange(after.range_min as int, after.range_max as int));
}

impl<T: Copy> VolumeData<T> {
    /// The dimensions of the grid.
    pub closed spec fn dimensions(&self) -> [usize; 3] {
        self.dim
    }

    /// The number of cells of the grid.
    pub closed spec fn cell_count(&self) -> nat {
        self.size as nat
    }

    /// The grid's strides and cell count agree with its dimensions.
    pub closed spec fn shape_wf(&self) -> bool {
        &&& self.strides[0] == 1
        &&& self.strides[1] == self.dim[0]
        &&& self.strides[2] == self.dim[0] * self.dim[1]
        &&& self.size == cell_total(self.dim)
    }

    /// The grid's shape is consistent and its data holds one value per cell.
    pub closed spec fn wf(&self) -> bool {
        &&& self.shape_wf()
        &&& self.data@.len() == self.size
    }

    /// The cell values, in linear order.
    pub closed spec fn cells(&self) -> Seq<T> {
        self.data@
    }

    /// What well-formedness means for the cell data.
    pub proof fn lemma_wf(&self)
        ensures
            self.wf() <==> (self.shape_wf() && self.cells().len() == self.cell_count()),
            self.shape_wf() ==> self.cell_count() == cell_total(self.dimensions()),
    {
    }

    /// Every dimension is at least one cell.
    pub open spec fn non_empty(&self) -> bool {
        self.dimensions()[0] >= 1 && self.dimensions()[1] >= 1 && self.dimensions()[2] >= 1
    }

    /// Create a new volumetric of the given size with the default value.
    pub fn new(default: T, dim: [usize; 3]) -> (r: Self)
        requires
            dim[0] * dim[1] <= usize::MAX,
            cell_total(dim) <= usize::MAX,
        ensures
            r.wf(),
            r.dimensions() == dim,
            r.cell_count() == cell_total(dim),
            r.cells() == Seq::new(cell_total(dim) as nat, |i: int| default),
    {
        let layer = dim[0] * dim[1];
        let size = layer * dim[2];
        let mut data: Vec<T> = Vec::with_capacity(size);
        let mut i: usize = 0;
        while i < size
            invariant
                i <= size,
                data@ == Seq::new(i as nat, |j: int| default),
            decreases size - i,
        {
            data.push(default);
            i += 1;
            proof {
                assert(data@ =~= Seq::new(i as nat, |j: int| default));
            }
        }

        Self { data, dim, strides: [1, dim[0], layer], size }
    }

    /// Sets the value at the given linear index.
    pub fn set_linear(&mut self, i: usize, val: T)
        requires
            i < old(self).cells().len(),
        ensures
            final(self).cells() == old(self).cells().update(i as int, val),
            final(self).dimensions() == old(self).dimensions(),
            final(self).cell_count() == old(self).cell_count(),
            final(self).wf() == old(self).wf(),
            final(self).shape_wf() == old(self).shape_wf(),
    {
        self.data.set(i, val);
    }

    /// Returns the value at the given linear index.
    pub fn get_linear(&self, i: usize) -> (r: T)
        requires
            i < self.cells().len(),
        ensures
            r == self.cells()[i as int],
    {
        self.data[i]
    }

    /// Returns the number of cells in this volume.
    pub fn size(&self) -> (r: usize)
        ensures
            r == self.cell_count(),
    {
        self.size
    }

    /// Returns the dimensions of this Volume.
    pub fn get_dimensions(&self) -> (r: [usize; 3])
        ensures
            r == self.dimensions(),
    {
        self.dim
    }

    /// Returns the linearized index of the given value.
    /// Coordinates past the far faces of the grid are clamped onto them.
    pub fn linearize(&self, x: usize, y: usize, z: usize) -> (r: usize)
        requires
            self.wf(),
            self.non_empty(),
        ensures
            r == linear_index(
                self.dimensions(),
                min_of(x as int, self.dimensions()[0] - 1),
                min_of(y as int, self.dimensions()[1] - 1),
                min_of(z as int, self.dimensions()[2] - 1),
            ),
            r < self.cell_count(),
    {
        let cx = x.min(self.dim[0] - 1);
        let cy = y.min(self.dim[1] - 1);
        let cz = z.min(self.dim[2] - 1);
        proof {
            lemma_linearize_roundtrip(self.dim, cx as int, cy as int, cz as int);
            lemma_terms_fit(self.strides, cx, cy, cz, self.size as int);
        }
        cx + self.strides[1].wrapping_mul(cy) + self.strides[2].wrapping_mul(cz)
    }

    /// Returns the linearized index of the given value.
    /// **Does not perform checks to ensure the coordinates are within bounds.**
    /// The products by the strides wrap around; the sums must not overflow.
    pub fn linearize_fast(&self, x: usize, y: usize, z: usize) -> (r: usize)
        requires
            self.wf(),
            x + wrapping_mul(self.dimensions()[0], y) + wrapping_mul(
                (self.dimensions()[0] * self.dimensions()[1]) as usize,
                z,
            ) <= usize::MAX,
        ensures
            r == x + wrapping_mul(self.dimensions()[0], y) + wrapping_mul(
                (self.dimensions()[0] * self.dimensions()[1]) as usize,
                z,
            ),
            linear_index(self.dimensions(), x as int, y as int, z as int) <= usize::MAX ==> r
                == linear_index(self.dimensions(), x as int, y as int, z as int),
    {
        proof {
            let d = self.dimensions();
            if linear_index(d, x as int, y as int, z as int) <= usize::MAX {
                lemma_terms_fit(
                    self.strides,
                    x,
                    y,
                    z,
                    linear_index(d, x as int, y as int, z as int),
                );
            }
        }
        x + self.strides[1].wrapping_mul(y) + self.strides[2].wrapping_mul(z)
    }

    /// Returns true if the given coordinates are within the cell padding margin.
    /// False otherwise.
    /// Zero padding will always return false.
    pub fn is_margin(&self, x: usize, y: usize, z: usize, cell_padding: usize) -> (r: bool)
        requires
            cell_padding <= self.dimensions()[0],
            cell_padding <= self.dimensions()[1],
            cell_padding <= self.dimensions()[2],
        ensures
            r == in_margin(self.dimensions(), x as int, y as int, z as int, cell_padding as int),
    {
        if cell_padding == 0 {
            return false;
        }
        (x < cell_padding || x >= self.dim[0] - cell_padding) || (y < cell_padding || y
            >= self.dim[1] - cell_padding) || (z < cell_padding || z >= self.dim[2] - cell_padding)
    }

    /// Returns the delinearized coordinates of the given index.
    pub fn delinearize(&self, i: usize) -> (r: [usize; 3])
        requires
            self.wf(),
            self.dimensions()[0] >= 1,
            self.dimensions()[1] >= 1,
        ensures
            (r[0] as int, r[1] as int, r[2] as int) == coords_of(self.dimensions(), i as int),
    {
        proof {
            assert(self.strides[2] > 0) by (nonlinear_arith)
                requires
                    self.strides[2] == self.dim[0] * self.dim[1],
                    self.dim[0] >= 1,
                    self.dim[1] >= 1,
            ;
            vstd::arithmetic::div_mod::lemma_fundamental_div_mod(i as int, self.strides[2] as int);
            vstd::arithmetic::div_mod::lemma_mod_bound(i as int, self.strides[2] as int);
            vstd::arithmetic::div_mod::lemma_div_pos_is_pos(i as int, self.strides[2] as int);
        }
        let mut i = i;
        let z = i / self.strides[2];
        proof {
            assert(z * self.strides[2] <= i) by (nonlinear_arith)
                requires
                    i == self.strides[2] * (i / self.strides[2]) + i % self.strides[2],
                    z == i / self.strides[2],
                    i % self.strides[2] >= 0,
            ;
        }
        i -= z * self.strides[2];
        let y = i / self.strides[1];
        let x = i % self.strides[1];
        [x, y, z]
    }
    /// Sets the value at the bordering cell margin to the given value.
    /// With the Island Builder, this should be minimum SDF distance (suggested: +10.0).
    pub fn set_padding(&mut self, cell_padding: usize, to: T)
        requires
            old(self).wf(),
            old(self).cell_count() > 0 ==> cell_padding <= old(self).dimensions()[0]
                && cell_padding <= old(self).dimensions()[1] && cell_padding <= old(
                self,
            ).dimensions()[2],
        ensures
            final(self).wf(),
            final(self).dimensions() == old(self).dimensions(),
            final(self).cell_count() == old(self).cell_count(),
            final(self).cells() == padded(
                old(self).dimensions(),
                old(self).cells(),
                cell_padding as int,
                to,
            ),
    {
        let ghost dim = self.dim;
        let ghost start = self.data@;
        let ghost target = padded(dim, start, cell_padding as int, to);
        let mut i: usize = 0;
        while i < self.size
            invariant
                i <= self.size,
                self.wf(),
                self.dim == dim,
                self.size == start.len(),
                start.len() == target.len(),
                target == padded(dim, start, cell_padding as int, to),
                self.size > 0 ==> cell_padding <= dim[0] && cell_padding <= dim[1]
                    && cell_padding <= dim[2],
                forall|j: int| 0 <= j < i ==> #[trigger] self.data@[j] == target[j],
                forall|j: int| i <= j < self.size ==> #[trigger] self.data@[j] == start[j],
            decreases self.size - i,
        {
            proof {
                assert(dim[0] >= 1 && dim[1] >= 1) by (nonlinear_arith)
                    requires
                        self.size == dim[0] * dim[1] * dim[2],
                        self.size > 0,
                ;
            }
            let c = self.delinearize(i);
            if self.is_margin(c[0], c[1], c[2], cell_padding) {
                self.set_linear(i, to);
            }
            i += 1;
        }
        proof {
            assert(self.data@ =~= target);
        }
    }

    /// Splits the Volume into a set of worker data for parallel operations.
    /// If `preserve_data` is true, the data of the volume is copied into each worker;
    /// otherwise each worker holds `T::default()` values.
    pub fn to_workers(&self, group_size: usize, preserve_data: bool) -> (r: Vec<VolumeWorker<T>>)
        where
            T: Default,
        requires
            self.wf(),
            group_size > 0 || self.cell_count() == 0,
            group_size > 0 ==> (self.cell_count() + group_size - 1) / (group_size as int)
                * group_size <= usize::MAX,
        ensures
            group_size == 0 ==> r@.len() == 0,
            group_size > 0 ==> r@.len() == (self.cell_count() + group_size - 1) / (
            group_size as int),
            forall|w: int|
                0 <= w < r@.len() ==> {
                    let worker = #[trigger] r@[w];
                    &&& worker_bounds(worker, self.cell_count() as int, group_size as int, w)
                    &&& preserve_data ==> worker.data@ == self.cells().subrange(
                        worker.range_min as int,
                        worker.range_max as int,
                    )
                    &&& !preserve_data ==> forall|k: int|
                        0 <= k < worker.data@.len() ==> #[trigger] is_default_value(worker.data@[k])
                },
            // the workers tile the volume: cell `j` falls in worker `j / group_size`
            forall|j: int|
                0 <= j < self.cell_count() ==> #[trigger] (j / (group_size as int)) < r@.len()
                    && r@[j / (group_size as int)].range_min <= j < r@[j
                    / (group_size as int)].range_max,
    {
        if group_size == 0 {
            // An empty volume splits into no workers.
            return Vec::new();
        }
        let g = group_size;
        proof {
            lemma_ceil_div(self.size as int, g as int);
            assert((self.size + g - 1) / (g as int) <= usize::MAX) by (nonlinear_arith)
                requires
                    (self.size + g - 1) / (g as int) * g <= usize::MAX,
                    g >= 1,
                    self.size + g - 1 >= 0,
            {
                vstd::arithmetic::div_mod::lemma_div_pos_is_pos(self.size + g - 1, g as int);
            }
        }
        let worker_count = self.size / g + if self.size % g != 0 {
            1
        } else {
            0
        };

        let mut workers: Vec<VolumeWorker<T>> = Vec::with_capacity(worker_count);

        let mut i: usize = 0;
        while i < worker_count
            invariant
                i <= worker_count,
                self.wf(),
                g > 0,
                worker_count == (self.size + g - 1) / (g as int),
                worker_count * g <= usize::MAX,
                worker_count > 0 ==> (worker_count - 1) * g < self.size,
                workers@.len() == i,
                forall|w: int|
                    0 <= w < i ==> {
                        let worker = #[trigger] workers@[w];
                        &&& worker.range_min == w * g
                        &&& worker.range_max == min_of((w + 1) * g, self.size as int)
                        &&& worker.range_width == worker.range_max - worker.range_min
                        &&& worker.range_min < worker.range_max
                        &&& worker.data@.len() == worker.range_width
                        &&& preserve_data ==> worker.data@ == self.data@.subrange(
                            worker.range_min as int,
                            worker.range_max as int,
                        )
                        &&& !preserve_data ==> forall|k: int|
                            0 <= k < worker.data@.len() ==> #[trigger] is_default_value(worker.data@[k])
                    },
            decreases worker_count - i,
        {
            proof {
                assert(i * g < self.size && (i + 1) * g <= worker_count * g && i * g < (i + 1) * g) by (nonlinear_arith)
                    requires
                        i < worker_count,
                        (worker_count - 1) * g < self.size,
                        g > 0,
                ;
            }
            let range_min: usize = i * g;
            let next: usize = (i + 1) * g;
            let range_max: usize = if next < self.size {
                next
            } else {
                self.size
            };
            let range_width: usize = range_max - range_min;

            let mut worker_data: Vec<T> = Vec::with_capacity(range_width);
            if preserve_data {
                let mut j: usize = range_min;
                while j < range_max
                    invariant
                        range_min <= j <= range_max,
                        range_max <= self.data@.len(),
                        worker_data@ == self.data@.subrange(range_min as int, j as int),
                    decreases range_max - j,
                {
                    worker_data.push(self.data[j]);
                    j += 1;
                    proof {
                        assert(worker_data@ =~= self.data@.subrange(range_min as int, j as int));
                    }
                }
            } else {
                let fill = T::default();
                let mut j: usize = 0;
                while j < range_width
                    invariant
                        j <= range_width,
                        worker_data@.len() == j,
                        is_default_value(fill),
                        forall|k: int| 0 <= k < j ==> #[trigger] worker_data@[k] == fill,
                    decreases range_width - j,
                {
                    worker_data.push(fill);
                    j += 1;
                }
            }

            workers.push(VolumeWorker { data: worker_data, range_min, range_max, range_width });
            i += 1;
        }
        proof {
            assert forall|j: int| 0 <= j < self.size implies #[trigger] (j / (g as int)) < workers@.len()
                && workers@[j / (g as int)].range_min <= j < workers@[j / (g as int)].range_max by {
                let w = j / (g as int);
                vstd::arithmetic::div_mod::lemma_fundamental_div_mod(j, g as int);
                vstd::arithmetic::div_mod::lemma_div_pos_is_pos(j, g as int);
                assert(w * g <= j < (w + 1) * g) by (nonlinear_arith)
                    requires
                        j == g * w + j % (g as int),
                        0 <= j % (g as int) < g,
                ;
                assert(w < worker_count) by (nonlinear_arith)
                    requires
                        w * g <= j,
                        j < self.size,
                        worker_count * g >= self.size,
                        g > 0,
                        w >= 0,
                {
                    if w >= worker_count {
                        assert(w * g >= worker_count * g);
                    }
                }
            }
        }
        workers
    }

}

impl<T: Copy> VolumeWorker<T> {
    /// Copies the corresponding slice from the worker volume.
    pub fn copy_from(&mut self, volume: &VolumeData<T>)
        requires
            old(self).range_max <= volume.cell_count(),
            old(self).range_min + old(self).range_width <= volume.cells().len(),
            old(self).range_width <= old(self).data@.len(),
        ensures
            copied_from(*old(self), *final(self), volume.cells()),
            // a worker as `to_workers` makes it ends up holding exactly its slice of the volume
            old(self).data@.len() == old(self).range_width ==> final(self).data@ == volume.cells().subrange(
                old(self).range_min as int,
                old(self).range_min + old(self).range_width,
            ),
    {
        let ghost start = self.data@;
        assert(volume.data.len() == volume.data@.len());
        let mut i: usize = 0;
        while i < self.range_width
            invariant
                volume.cells().len() <= usize::MAX,
                i <= self.range_width,
                self.range_width <= self.data@.len(),
                self.data@.len() == start.len(),
                self.range_min + self.range_width <= volume.cells().len(),
                self.range_min == old(self).range_min,
                self.range_max == old(self).range_max,
                self.range_width == old(self).range_width,
                forall|j: int| 0 <= j < i ==> #[trigger] self.data@[j] == volume.cells()[self.range_min + j],
                forall|j: int| i <= j < start.len() ==> #[trigger] self.data@[j] == start[j],
            decreases self.range_width - i,
        {
            let v = volume.data[i + self.range_min];
            self.data.set(i, v);
            i += 1;
        }
        proof {
            assert(self.data@ =~= volume.cells().subrange(
                self.range_min as int,
                self.range_min + self.range_width,
            ) + start.subrange(self.range_width as int, start.len() as int));
        }
    }
}

/// The number of groups of `g` that `n` cells fill, the last one maybe partly.
proof fn lemma_ceil_div(n: int, g: int)
    requires
        n >= 0,
        g > 0,
    ensures
        n / g + (if n % g != 0 {
            1int
        } else {
            0int
        }) == (n + g - 1) / g,
        ((n + g - 1) / g) * g >= n,
        n > 0 ==> ((n + g - 1) / g - 1) * g < n,
        n == 0 ==> (n + g - 1) / g == 0,
{
    vstd::arithmetic::div_mod::lemma_fundamental_div_mod(n, g);
    vstd::arithmetic::div_mod::lemma_mod_bound(n, g);
    let q = n / g;
    let r = n % g;
    if r == 0 {
        assert(q * g == n) by (nonlinear_arith)
            requires
                n == g * q + r,
                r == 0,
        ;
        vstd::arithmetic::div_mod::lemma_fundamental_div_mod_converse(n + g - 1, g, q, g - 1);
        if n > 0 {
            assert((q - 1) * g < n) by (nonlinear_arith)
                requires
                    q * g == n,
                    g > 0,
            ;
        }
    } else {
        assert((q + 1) * g >= n && q * g < n && n + g - 1 == (q + 1) * g + (r - 1)) by (nonlinear_arith)
            requires
                n == g * q + r,
                0 < r < g,
        ;
        vstd::arithmetic::div_mod::lemma_fundamental_div_mod_converse(n + g - 1, g, q + 1, r - 1);
    }
}

/// When a linear index stays below a bound that fits in `usize`, its products do not wrap.
proof fn lemma_terms_fit(strides: [usize; 3], x: usize, y: usize, z: usize, bound: int)
    requires
        x + strides[1] * y + strides[2] * z <= bound,
        bound <= usize::MAX,
    ensures
        wrapping_mul(strides[1], y) == strides[1] * y,
        wrapping_mul(strides[2], z) == strides[2] * z,
{
    let a = strides[1] as int * y as int;
    let b = strides[2] as int * z as int;
    assert(a >= 0 && b >= 0) by (nonlinear_arith)
        requires
            a == strides[1] as int * y as int,
            b == strides[2] as int * z as int,
    ;
    vstd::arithmetic::div_mod::lemma_small_mod(a as nat, (usize::MAX + 1) as nat);
    vstd::arithmetic::div_mod::lemma_small_mod(b as nat, (usize::MAX + 1) as nat);
}

} // verus!
