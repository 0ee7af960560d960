//! Dense fixed-point tables backed by `ndarray` arrays.
//!
//! `Grid2` wraps an `ndarray::Array2<i64>` and `Grid3` an
//! `ndarray::Array3<i64>`. Both are opaque to the verifier; what a grid
//! holds is named by the uninterpreted functions [`grid2_at`] / [`grid3_at`]
//! (the value at each index) and [`grid2_dim`] / [`grid3_dim`] (the extents
//! the grid was created with), and the constructor and accessors below state
//! over those names what `ndarray` does.

use vstd::prelude::*;

verus! {

/// A two-dimensional table of fixed-point values, indexed by `(row, col)`.
#[verifier::external_body]
pub struct Grid2 {
    arr: ndarray::Array2<i64>,
}

/// A three-dimensional table of fixed-point values, indexed by
/// `(row, col, heading)`.
#[verifier::external_body]
pub struct Grid3 {
    arr: ndarray::Array3<i64>,
}

/// The value a `Grid2` holds at each `(row, col)` pair.
pub uninterp spec fn grid2_at(g: Grid2) -> Map<(int, int), i64>;

/// The extents `(rows, cols)` a `Grid2` was created with.
pub uninterp spec fn grid2_dim(g: Grid2) -> (int, int);

/// The value a `Grid3` holds at each `(row, col, heading)` triple.
pub uninterp spec fn grid3_at(g: Grid3) -> Map<(int, int, int), i64>;

/// The extents `(rows, cols, headings)` a `Grid3` was created with.
pub uninterp spec fn grid3_dim(g: Grid3) -> (int, int, int);

impl Grid2 {
    /// Relies on `ndarray::Array2::from_elem`: the new array has the given
    /// shape and every element is the given value.
    #[verifier::external_body]
    pub fn filled(rows: usize, cols: usize, v: i64) -> (g: Grid2)
        ensures
            grid2_dim(g) == (rows as int, cols as int),
            forall|i: int, j: int|
                0 <= i < rows && 0 <= j < cols ==> #[trigger] grid2_at(g)[(i, j)] == v,
    {
        Grid2 { arr: ndarray::Array2::from_elem((rows, cols), v) }
    }

    /// Relies on `ndarray`'s `Index` impl: indexing by `(row, col)` returns
    /// the element stored there.
    #[verifier::external_body]
    pub fn get(&self, i: usize, j: usize) -> (r: i64)
        requires
            i < grid2_dim(*self).0,
            j < grid2_dim(*self).1,
        ensures
            r == grid2_at(*self)[(i as int, j as int)],
    {
        self.arr[(i, j)]
    }

    /// Relies on `ndarray`'s `IndexMut` impl: assigning through
    /// `(row, col)` stores the element there and changes nothing else.
    #[verifier::external_body]
    pub fn set(&mut self, i: usize, j: usize, v: i64)
        requires
            i < grid2_dim(*old(self)).0,
            j < grid2_dim(*old(self)).1,
        ensures
            grid2_dim(*final(self)) == grid2_dim(*old(self)),
            grid2_at(*final(self)) == grid2_at(*old(self)).insert((i as int, j as int), v),
    {
        self.arr[(i, j)] = v;
    }
}

impl Grid3 {
    /// Relies on `ndarray::Array3::from_elem`: the new array has the given
    /// shape and every element is the given value.
    #[verifier::external_body]
    pub fn filled(rows: usize, cols: usize, headings: usize, v: i64) -> (g: Grid3)
        ensures
            grid3_dim(g) == (rows as int, cols as int, headings as int),
            forall|i: int, j: int, t: int|
                0 <= i < rows && 0 <= j < cols && 0 <= t < headings
                    ==> #[trigger] grid3_at(g)[(i, j, t)] == v,
    {
        Grid3 { arr: ndarray::Array3::from_elem((rows, cols, headings), v) }
    }

    /// Relies on `ndarray`'s `Index` impl: indexing by `(row, col, heading)`
    /// returns the element stored there.
    #[verifier::external_body]
    pub fn get(&self, i: usize, j: usize, t: usize) -> (r: i64)
        requires
            i < grid3_dim(*self).0,
            j < grid3_dim(*self).1,
            t < grid3_dim(*self).2,
        ensures
            r == grid3_at(*self)[(i as int, j as int, t as int)],
    {
        self.arr[(i, j, t)]
    }

    /// Relies on `ndarray`'s `IndexMut` impl: assigning through
    /// `(row, col, heading)` stores the element there and changes nothing
    /// else.
    #[verifier::external_body]
    pub fn set(&mut self, i: usize, j: usize, t: usize, v: i64)
        requires
            i < grid3_dim(*old(self)).0,
            j < grid3_dim(*old(self)).1,
            t < grid3_dim(*old(self)).2,
        ensures
            grid3_dim(*final(self)) == grid3_dim(*old(self)),
            grid3_at(*final(self)) == grid3_at(*old(self)).insert((i as int, j as int, t as int), v),
    {
        self.arr[(i, j, t)] = v;
    }
}

} // verus!
