//! Dense 3D voxel storage, backed by `ndarray::Array3<u8>`.
//!
//! Verus cannot read `ndarray`'s array type (its generics carry a
//! defaulted type parameter and an associated-type bound), so the array
//! lives in a private field of an opaque struct. What the array holds is
//! named by `grid_cells` and `grid_dims`, and the wrapper methods below
//! state over those names what `ndarray`'s constructors and `Index`/
//! `IndexMut` implementations do: logical C-order (row-major) storage,
//! so the cell `(x, y, z)` of a `(d0, d1, d2)`-shaped array sits at flat
//! offset `x*d1*d2 + y*d2 + z`.

use vstd::prelude::*;

verus! {

/// The flat C-order contents of a grid, one byte per cell.
pub uninterp spec fn grid_cells(g: CellGrid) -> Seq<u8>;

/// The shape a grid was created with.
pub uninterp spec fn grid_dims(g: CellGrid) -> (usize, usize, usize);

/// A dense 3D grid of cell codes over `ndarray` storage.
#[verifier::external_body]
pub struct CellGrid {
    inner: ndarray::Array3<u8>,
}

/// Flat C-order offset of a cell in a grid of the given shape.
pub open spec fn flat_idx(dims: (usize, usize, usize), x: int, y: int, z: int) -> int {
    x * (dims.1 * dims.2) + y * (dims.2 as int) + z
}

/// Whether a cell lies inside a shape.
pub open spec fn in_dims(dims: (usize, usize, usize), x: int, y: int, z: int) -> bool {
    0 <= x < dims.0 && 0 <= y < dims.1 && 0 <= z < dims.2
}

/// The code stored at a cell.
pub open spec fn cell_at(g: CellGrid, x: int, y: int, z: int) -> u8 {
    grid_cells(g)[flat_idx(grid_dims(g), x, y, z)]
}

/// A grid is well-formed when its contents cover its shape exactly.
pub open spec fn grid_wf(g: CellGrid) -> bool {
    grid_cells(g).len() == grid_dims(g).0 * grid_dims(g).1 * grid_dims(g).2
}

/// In-shape cells have in-range flat offsets.
pub proof fn lemma_flat_idx_bounds(dims: (usize, usize, usize), x: int, y: int, z: int)
    requires
        in_dims(dims, x, y, z),
    ensures
        0 <= flat_idx(dims, x, y, z) < dims.0 * dims.1 * dims.2,
{
    let d0 = dims.0 as int;
    let d1 = dims.1 as int;
    let d2 = dims.2 as int;
    assert(x * (d1 * d2) + y * d2 + z < d0 * (d1 * d2)) by (nonlinear_arith)
        requires
            0 <= x < d0,
            0 <= y < d1,
            0 <= z < d2,
    ;
    assert(0 <= x * (d1 * d2) + y * d2 + z) by (nonlinear_arith)
        requires
            0 <= x,
            0 <= y,
            0 <= z,
            0 <= d1,
            0 <= d2,
    ;
    assert(d0 * (d1 * d2) == d0 * d1 * d2) by (nonlinear_arith);
}

/// Distinct in-shape cells have distinct flat offsets.
pub proof fn lemma_flat_idx_injective(
    dims: (usize, usize, usize),
    x1: int,
    y1: int,
    z1: int,
    x2: int,
    y2: int,
    z2: int,
)
    requires
        in_dims(dims, x1, y1, z1),
        in_dims(dims, x2, y2, z2),
        (x1, y1, z1) != (x2, y2, z2),
    ensures
        flat_idx(dims, x1, y1, z1) != flat_idx(dims, x2, y2, z2),
{
    let d1 = dims.1 as int;
    let d2 = dims.2 as int;
    assert(x1 * (d1 * d2) + y1 * d2 + z1 != x2 * (d1 * d2) + y2 * d2 + z2) by (nonlinear_arith)
        requires
            0 <= x1,
            0 <= y1 < d1,
            0 <= z1 < d2,
            0 <= x2,
            0 <= y2 < d1,
            0 <= z2 < d2,
            (x1, y1, z1) != (x2, y2, z2),
    ;
}

impl CellGrid {
    /// Relies on `ndarray::Array3::zeros`: a fresh array of the given
    /// shape holding zero in every cell.
    #[verifier::external_body]
    pub fn zeros(nx: usize, ny: usize, nz: usize) -> (g: CellGrid)
        requires
            nx * ny * nz < 0x8000_0000_0000_0000,
        ensures
            grid_dims(g) == (nx, ny, nz),
            grid_cells(g).len() == nx * ny * nz,
            forall|i: int| 0 <= i < grid_cells(g).len() ==> grid_cells(g)[i] == 0u8,
    {
        CellGrid { inner: ndarray::Array3::zeros((nx, ny, nz)) }
    }

    pub fn dims(&self) -> (r: (usize, usize, usize))
        ensures
            r == grid_dims(*self),
    {
        self.dims_inner()
    }

    /// Relies on `ndarray::ArrayBase::dim`: the shape the array was
    /// created with.
    #[verifier::external_body]
    fn dims_inner(&self) -> (r: (usize, usize, usize))
        ensures
            r == grid_dims(*self),
    {
        self.inner.dim()
    }

    /// Relies on `ndarray`'s `Index` impl for `(usize, usize, usize)`:
    /// reads the cell at the C-order offset of the index triple.
    #[verifier::external_body]
    pub fn get(&self, x: usize, y: usize, z: usize) -> (r: u8)
        requires
            grid_wf(*self),
            in_dims(grid_dims(*self), x as int, y as int, z as int),
        ensures
            r == cell_at(*self, x as int, y as int, z as int),
    {
        self.inner[(x, y, z)]
    }

    /// Relies on `ndarray`'s `IndexMut` impl for `(usize, usize, usize)`:
    /// writes the cell at the C-order offset of the index triple and
    /// changes nothing else.
    #[verifier::external_body]
    pub fn set(&mut self, x: usize, y: usize, z: usize, v: u8)
        requires
            grid_wf(*old(self)),
            in_dims(grid_dims(*old(self)), x as int, y as int, z as int),
        ensures
            grid_dims(*final(self)) == grid_dims(*old(self)),
            grid_cells(*final(self)) == grid_cells(*old(self)).update(
                flat_idx(grid_dims(*old(self)), x as int, y as int, z as int),
                v,
            ),
    {
        self.inner[(x, y, z)] = v;
    }

    /// Relies on `ndarray`'s `Clone` impl: an independent array with the
    /// same shape and contents.
    #[verifier::external_body]
    pub fn clone_grid(&self) -> (g: CellGrid)
        ensures
            grid_dims(g) == grid_dims(*self),
            grid_cells(g) == grid_cells(*self),
    {
        CellGrid { inner: self.inner.clone() }
    }
}

} // verus!
