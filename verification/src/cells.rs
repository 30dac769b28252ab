use vstd::prelude::*;

verus! {

/// Storage for the 81 digits of a 9 x 9 board.
///
/// The digits live in an `ndarray::Array2<u8>`, the shape the rest of the
/// program shares with its callers. `Array2`'s own generics carry a trait
/// bound that cannot be declared to the verifier, so the array is held
/// opaquely here and read and written only through the trusted accessors
/// below, whose contracts speak of `cell_seq`.
#[verifier::external_body]
pub struct GridCells {
    inner: ndarray::Array2<u8>,
}

/// The digits held by the array, row by row, as one sequence of 81 cells.
pub uninterp spec fn cell_seq(cells: &GridCells) -> Seq<u8>;

impl GridCells {
    /// Relies on ndarray's `Array2::zeros`: a freshly allocated 9 x 9 array
    /// with every element zero.
    #[verifier::external_body]
    pub fn zeros() -> (r: GridCells)
        ensures
            cell_seq(&r) =~= Seq::new(81, |i: int| 0u8),
    {
        GridCells { inner: ndarray::Array2::zeros((9, 9)) }
    }

    /// Relies on ndarray's `Index` impl for `Array2`, which returns the
    /// element at the given (row, column) pair.
    #[verifier::external_body]
    pub fn get(&self, idx: usize) -> (r: u8)
        requires
            idx < 81,
            cell_seq(self).len() == 81,
        ensures
            r == cell_seq(self)[idx as int],
    {
        self.inner[(idx / 9, idx % 9)]
    }

    /// Relies on ndarray's `IndexMut` impl for `Array2`, which writes the
    /// element at the given (row, column) pair.
    #[verifier::external_body]
    pub fn set(&mut self, idx: usize, v: u8)
        requires
            idx < 81,
            cell_seq(old(self)).len() == 81,
        ensures
            cell_seq(final(self)) =~= cell_seq(old(self)).update(idx as int, v),
    {
        self.inner[(idx / 9, idx % 9)] = v;
    }
}

impl Clone for GridCells {
    /// Relies on ndarray's `Clone` impl for `Array2`, which copies every
    /// element.
    #[verifier::external_body]
    fn clone(&self) -> (r: Self)
        ensures
            cell_seq(&r) == cell_seq(self),
    {
        GridCells { inner: self.inner.clone() }
    }
}

} // verus!
