//! Transposition and the extraction of owned sub-blocks.
use vstd::prelude::*;

use super::mat::{lemma_flat_index, lemma_view_of_flat, Matrix};
use super::model::{block, transposed};
use super::simd::SimdOps;

verus! {

impl<T: SimdOps> Matrix<T> {
    /// The `cols` by `rows` matrix whose entry `(j, i)` is entry `(i, j)` of `self`.
    pub fn transpose(&self) -> (r: Matrix<T>)
        requires
            self.wf(),
        ensures
            r.wf(),
            r.rows() == self.cols(),
            r.cols() == self.rows(),
            r.entries() == transposed(self.entries(), self.cols() as nat),
    {
        let rows = self.rows;
        let cols = self.cols;
        let mut data: Vec<T> = Vec::with_capacity(rows * cols);
        let mut j: usize = 0;
        while j < cols
            invariant
                self.wf(),
                rows == self.rows,
                cols == self.cols,
                j <= cols,
                data@.len() == j * rows,
                forall|x: int|
                    0 <= x < data@.len() ==> #[trigger] data@[x] == self.entries()[x % rows as int][x
                        / rows as int],
            decreases cols - j,
        {
            let mut i: usize = 0;
            while i < rows
                invariant
                    self.wf(),
                    rows == self.rows,
                    cols == self.cols,
                    j < cols,
                    i <= rows,
                    data@.len() == j * rows + i,
                    forall|x: int|
                        0 <= x < data@.len() ==> #[trigger] data@[x] == self.entries()[x
                            % rows as int][x / rows as int],
                decreases rows - i,
            {
                proof {
                    lemma_flat_index(i as int, j as int, rows as int, cols as int);
                    lemma_flat_index(j as int, i as int, cols as int, rows as int);
                    assert(j * rows + i < rows * cols) by (nonlinear_arith)
                        requires
                            j * rows + i < cols * rows,
                    ;
                }
                data.push(self.data[i * cols + j]);
                i += 1;
            }
            proof {
                if rows > 0 {
                    lemma_flat_index(j as int, 0, cols as int, rows as int);
                } else {
                    assert((j + 1) * rows == 0 && j * rows == 0) by (nonlinear_arith)
                        requires
                            rows == 0,
                    ;
                }
            }
            j += 1;
        }
        proof {
            assert(cols * rows == rows * cols) by (nonlinear_arith);
        }
        let r = Matrix { rows: cols, cols: rows, data };
        proof {
            lemma_view_of_flat(r, |a: int, b: int| self.entries()[b][a]);
            assert(r.entries() =~~= transposed(self.entries(), cols as nat));
        }
        r
    }

    /// An owned copy of the `rows` by `cols` block whose top left entry is
    /// `(row, col)`.
    pub fn submatrix(&self, row: usize, col: usize, rows: usize, cols: usize) -> (r: Matrix<T>)
        requires
            self.wf(),
            row + rows <= self.rows(),
            col + cols <= self.cols(),
        ensures
            r.wf(),
            r.rows() == rows,
            r.cols() == cols,
            r.entries() == block(self.entries(), row as int, col as int, rows as nat, cols as nat),
    {
        proof {
            assert(rows * cols <= self.rows * self.cols) by (nonlinear_arith)
                requires
                    rows <= self.rows,
                    cols <= self.cols,
            ;
        }
        let mut data: Vec<T> = Vec::with_capacity(rows * cols);
        let mut i: usize = 0;
        while i < rows
            invariant
                self.wf(),
                row + rows <= self.rows,
                col + cols <= self.cols,
                rows * cols <= self.rows * self.cols,
                i <= rows,
                data@.len() == i * cols,
                forall|x: int|
                    0 <= x < data@.len() ==> #[trigger] data@[x] == self.entries()[row + x
                        / cols as int][col + x % cols as int],
            decreases rows - i,
        {
            let mut j: usize = 0;
            while j < cols
                invariant
                    self.wf(),
                    row + rows <= self.rows,
                    col + cols <= self.cols,
                    rows * cols <= self.rows * self.cols,
                    i < rows,
                    j <= cols,
                    data@.len() == i * cols + j,
                    forall|x: int|
                        0 <= x < data@.len() ==> #[trigger] data@[x] == self.entries()[row + x
                            / cols as int][col + x % cols as int],
                decreases cols - j,
            {
                proof {
                    lemma_flat_index(i as int, j as int, rows as int, cols as int);
                    lemma_flat_index(
                        (row + i) as int,
                        (col + j) as int,
                        self.rows as int,
                        self.cols as int,
                    );
                }
                data.push(self.data[(row + i) * self.cols + (col + j)]);
                j += 1;
            }
            proof {
                if cols > 0 {
                    lemma_flat_index(i as int, 0, rows as int, cols as int);
                } else {
                    assert((i + 1) * cols == 0 && i * cols == 0) by (nonlinear_arith)
                        requires
                            cols == 0,
                    ;
                }
            }
            i += 1;
        }
        let r = Matrix { rows, cols, data };
        proof {
            lemma_view_of_flat(r, |a: int, b: int| self.entries()[row + a][col + b]);
            assert(r.entries() =~~= block(
                self.entries(),
                row as int,
                col as int,
                rows as nat,
                cols as nat,
            ));
        }
        r
    }
}

} // verus!
