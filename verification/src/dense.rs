use vstd::prelude::*;

verus! {

// The dense voxel buffer is ndarray's owned three-dimensional array.
// Verus refuses a declaration of `ArrayBase` itself (its `RawData` bound is
// an external trait), so the array is held in an opaque wrapper struct; the
// values a grid needs — the stored scalars and the shape — are named by the
// two uninterpreted functions below, and every method the library calls is
// wrapped with a contract over them.

/// Largest voxel count a dense field may hold — a machine limit for
/// allocation, not a rule of the data model.
pub const MAX_CELLS: usize = 0x4000_0000;

/// An owned `ndarray::Array3<i64>`, opaque to the verifier.
#[verifier::external_body]
pub struct Store3 {
    arr: ndarray::Array3<i64>,
}

/// The scalars a [`Store3`] holds, indexed by voxel.
pub uninterp spec fn array3_at(a: Store3) -> Map<(int, int, int), i64>;

/// The shape a [`Store3`] was created with.
pub uninterp spec fn array3_dim(a: Store3) -> (int, int, int);

/// Relies on `ndarray::ArrayBase::zeros`: a freshly allocated array of the
/// given shape with every element zero.  (Allocation needs the product of
/// the non-zero axis lengths to fit `isize`, so each axis is bounded, not
/// only the product — a zero axis would otherwise admit a huge one.)
#[verifier::external_body]
fn array3_zeros(nx: usize, ny: usize, nz: usize) -> (r: Store3)
    requires
        nx <= MAX_CELLS,
        ny <= MAX_CELLS,
        nz <= MAX_CELLS,
        nx * ny * nz <= MAX_CELLS,
    ensures
        array3_dim(r) == (nx as int, ny as int, nz as int),
        forall|x: int, y: int, z: int|
            0 <= x < nx && 0 <= y < ny && 0 <= z < nz ==> array3_at(r)[(x, y, z)] == 0i64,
{
    Store3 { arr: ndarray::Array3::zeros((nx, ny, nz)) }
}

/// Relies on `ndarray`'s `Index` impl: reads the element at an in-bounds
/// three-dimensional index.
#[verifier::external_body]
fn array3_get(a: &Store3, x: usize, y: usize, z: usize) -> (r: i64)
    requires
        0 <= x < array3_dim(*a).0,
        0 <= y < array3_dim(*a).1,
        0 <= z < array3_dim(*a).2,
    ensures
        r == array3_at(*a)[(x as int, y as int, z as int)],
{
    a.arr[[x, y, z]]
}

/// Relies on `ndarray`'s `IndexMut` impl: writes the element at an in-bounds
/// three-dimensional index and leaves every other element and the shape
/// unchanged.
#[verifier::external_body]
fn array3_set(a: &mut Store3, x: usize, y: usize, z: usize, v: i64)
    requires
        0 <= x < array3_dim(*old(a)).0,
        0 <= y < array3_dim(*old(a)).1,
        0 <= z < array3_dim(*old(a)).2,
    ensures
        array3_dim(*final(a)) == array3_dim(*old(a)),
        array3_at(*final(a)) == array3_at(*old(a)).insert((x as int, y as int, z as int), v),
{
    a.arr[[x, y, z]] = v;
}

/// A dense scalar field: one `i64` per voxel of a fixed three-dimensional
/// shape.  Integer fields store the scalar itself; fixed-point fields store
/// the raw value scaled by [`crate::scalar::FIX_SCALE`].
pub struct Dense {
    dims: (usize, usize, usize),
    store: Store3,
}

impl Dense {
    /// The shape, as it was given to the constructor.
    pub closed spec fn dim(&self) -> (int, int, int) {
        (self.dims.0 as int, self.dims.1 as int, self.dims.2 as int)
    }

    /// The stored scalar at a voxel (meaningful for in-bounds indices).
    pub closed spec fn at(&self, x: int, y: int, z: int) -> i64 {
        array3_at(self.store)[(x, y, z)]
    }

    pub open spec fn in_bounds(&self, x: int, y: int, z: int) -> bool {
        0 <= x < self.dim().0 && 0 <= y < self.dim().1 && 0 <= z < self.dim().2
    }

    /// The stored shape agrees with the underlying array.
    pub closed spec fn wf(&self) -> bool {
        array3_dim(self.store) == self.dim()
    }

    pub fn new(nx: usize, ny: usize, nz: usize) -> (r: Dense)
        requires
            nx <= MAX_CELLS,
            ny <= MAX_CELLS,
            nz <= MAX_CELLS,
            nx * ny * nz <= MAX_CELLS,
        ensures
            r.wf(),
            r.dim() == (nx as int, ny as int, nz as int),
            forall|x: int, y: int, z: int| r.in_bounds(x, y, z) ==> r.at(x, y, z) == 0i64,
    {
        Dense { dims: (nx, ny, nz), store: array3_zeros(nx, ny, nz) }
    }

    pub fn size(&self) -> (r: (usize, usize, usize))
        ensures
            (r.0 as int, r.1 as int, r.2 as int) == self.dim(),
    {
        self.dims
    }

    pub fn get(&self, x: usize, y: usize, z: usize) -> (r: i64)
        requires
            self.wf(),
            self.in_bounds(x as int, y as int, z as int),
        ensures
            r == self.at(x as int, y as int, z as int),
    {
        array3_get(&self.store, x, y, z)
    }

    pub fn set(&mut self, x: usize, y: usize, z: usize, v: i64)
        requires
            old(self).wf(),
            old(self).in_bounds(x as int, y as int, z as int),
        ensures
            final(self).wf(),
            final(self).dim() == old(self).dim(),
            final(self).at(x as int, y as int, z as int) == v,
            forall|a: int, b: int, c: int|
                (a, b, c) != (x as int, y as int, z as int) ==> final(self).at(a, b, c) == old(
                    self,
                ).at(a, b, c),
    {
        array3_set(&mut self.store, x, y, z, v)
    }
}

/// With every dimension at least 1 and the product bounded, each dimension
/// is bounded by the product's bound.
pub proof fn lemma_dims_bounded(d: (int, int, int))
    requires
        1 <= d.0,
        1 <= d.1,
        1 <= d.2,
        d.0 * d.1 * d.2 <= MAX_CELLS,
    ensures
        d.0 <= MAX_CELLS,
        d.1 <= MAX_CELLS,
        d.2 <= MAX_CELLS,
{
    assert(d.0 <= d.0 * d.1 * d.2 && d.1 <= d.0 * d.1 * d.2 && d.2 <= d.0 * d.1 * d.2)
        by (nonlinear_arith)
        requires
            1 <= d.0,
            1 <= d.1,
            1 <= d.2,
    ;
}

} // verus!
