//! A read-only window onto the entries of a matrix.
use vstd::prelude::*;

use super::mat::MatrixError;

verus! {

/// A `rows` by `cols` window onto a borrowed buffer, whose entry `(i, j)` is
/// `data[i * stride + j]`.
#[derive(Debug, Clone, Copy, PartialEq)]
pub struct MatrixView<'a, T> {
    pub rows: usize,
    pub cols: usize,
    pub(crate) stride: usize,
    pub(crate) data: &'a [T],
}

impl<'a, T> View for MatrixView<'a, T> {
    type V = Seq<Seq<T>>;

    open(crate) spec fn view(&self) -> Seq<Seq<T>> {
        Seq::new(
            self.rows as nat,
            |i: int| Seq::new(self.cols as nat, |j: int| self.data@[i * self.stride + j]),
        )
    }
}

impl<'a, T> MatrixView<'a, T> {
    pub open(crate) spec fn spec_rows(&self) -> usize {
        self.rows
    }

    pub open(crate) spec fn spec_cols(&self) -> usize {
        self.cols
    }

    /// Distance in the buffer from one row to the next.
    pub open(crate) spec fn spec_stride(&self) -> usize {
        self.stride
    }

    /// The borrowed buffer.
    pub open(crate) spec fn spec_data(&self) -> Seq<T> {
        self.data@
    }

    /// Every entry of the window lies inside the buffer.
    pub open(crate) spec fn in_bounds(&self) -> bool {
        forall|i: int, j: int|
            0 <= i < self.spec_rows() && 0 <= j < self.spec_cols() ==> #[trigger] (i * self.spec_stride() + j)
                < self.spec_data().len()
    }

    /// A `rows` by `cols` window onto `data`, read row after row.
    pub fn new(rows: usize, cols: usize, data: &'a [T]) -> (r: Self)
        ensures
            r.spec_rows() == rows,
            r.spec_cols() == cols,
            r.spec_stride() == cols,
            r.spec_data() == data@,
    {
        MatrixView { rows, cols, stride: cols, data }
    }

    pub(crate) fn strided(rows: usize, cols: usize, stride: usize, data: &'a [T]) -> (r: Self)
        ensures
            r.rows == rows,
            r.cols == cols,
            r.stride == stride,
            r.data@ == data@,
    {
        MatrixView { rows, cols, stride, data }
    }

    /// The borrowed buffer.
    pub fn data(&self) -> (r: &'a [T])
        ensures
            r@ == self.spec_data(),
    {
        self.data
    }

    /// The entry at `(row, col)`.
    pub fn get(&self, row: usize, col: usize) -> (r: Result<&'a T, MatrixError>)
        ensures
            r is Ok <==> row < self.spec_rows() && col < self.spec_cols() && row * self.spec_stride() + col
                < self.spec_data().len(),
            r is Err ==> r->Err_0 == MatrixError::IndexOutOfRange,
            r matches Ok(v) ==> *v == self@[row as int][col as int],
    {
        if row >= self.rows || col >= self.cols {
            return Err(MatrixError::IndexOutOfRange);
        }
        match row.checked_mul(self.stride) {
            Some(start) => {
                if col < self.data.len() && start < self.data.len() - col {
                    Ok(&self.data[start + col])
                } else {
                    Err(MatrixError::IndexOutOfRange)
                }
            },
            None => Err(MatrixError::IndexOutOfRange),
        }
    }
}

} // verus!
