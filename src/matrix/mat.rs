//! The dense row-major matrix, its construction and element access.
use vstd::prelude::*;

use super::mat_view::MatrixView;
use super::model::block;
use super::simd::SimdOps;

verus! {

/// Why an operation refused its operands.
#[derive(Clone, Copy, PartialEq, Eq, Debug, Structural)]
pub enum MatrixError {
    /// Entry-wise operands differ in rows or columns.
    DimensionMismatch,
    /// The left factor's columns differ from the right factor's rows.
    IncompatibleDimensions,
    /// A flat buffer's length is not rows times columns.
    DataLengthMismatch,
    /// A position or range lies outside the matrix.
    IndexOutOfRange,
}

/// A `rows` by `cols` matrix whose entry `(i, j)` is `data[i * cols + j]`.
#[derive(Clone, Debug, PartialEq, Eq)]
pub struct Matrix<T> {
    pub(crate) rows: usize,
    pub(crate) cols: usize,
    pub(crate) data: Vec<T>,
}

/// Position `i * cols + j` of a row-major buffer holds row `i`, column `j`.
pub proof fn lemma_flat_index(i: int, j: int, rows: int, cols: int)
    requires
        0 <= i < rows,
        0 <= j < cols,
    ensures
        0 <= i * cols + j < rows * cols,
        (i * cols + j) / cols == i,
        (i * cols + j) % cols == j,
        (i + 1) * cols == i * cols + cols,
{
    assert(0 <= i * cols) by (nonlinear_arith)
        requires
            0 <= i,
            0 <= cols,
    ;
    assert(i * cols + cols <= rows * cols) by (nonlinear_arith)
        requires
            i + 1 <= rows,
            0 <= cols,
    ;
    assert((i + 1) * cols == i * cols + cols) by (nonlinear_arith);
    vstd::arithmetic::div_mod::lemma_fundamental_div_mod_converse(i * cols + j, cols, i, j);
}

/// A buffer whose position `x` holds `f(x / cols, x % cols)` is the matrix of `f`.
pub(crate) proof fn lemma_view_of_flat<T>(m: Matrix<T>, f: spec_fn(int, int) -> T)
    requires
        m.wf(),
        forall|x: int|
            0 <= x < m.data@.len() ==> #[trigger] m.data@[x] == f(x / m.cols as int, x % m.cols as int),
    ensures
        m.entries() == Seq::new(m.rows as nat, |i: int| Seq::new(m.cols as nat, |j: int| f(i, j))),
{
    let g = Seq::new(m.rows as nat, |i: int| Seq::new(m.cols as nat, |j: int| f(i, j)));
    assert forall|i: int| 0 <= i < m.rows implies #[trigger] m.entries()[i] == g[i] by {
        assert forall|j: int| 0 <= j < m.cols implies m.entries()[i][j] == g[i][j] by {
            lemma_flat_index(i, j, m.rows as int, m.cols as int);
            assert(m.data@[i * m.cols + j] == f(i, j));
        }
        assert(m.entries()[i] =~= g[i]);
    }
    assert(m.entries() =~= g);
}

impl<T> Matrix<T> {
    /// The rows of the matrix, each a sequence of its entries.
    pub open(crate) spec fn entries(&self) -> Seq<Seq<T>> {
        Seq::new(
            self.rows as nat,
            |i: int| Seq::new(self.cols as nat, |j: int| self.data@[i * self.cols + j]),
        )
    }

    /// The buffer holds exactly `rows * cols` entries.
    pub open(crate) spec fn wf(&self) -> bool {
        &&& self.data@.len() == self.rows * self.cols
        &&& self.rows * self.cols <= usize::MAX
    }

    /// The entries in row-major order.
    pub open(crate) spec fn flat(&self) -> Seq<T> {
        self.data@
    }

    pub open(crate) spec fn spec_rows(&self) -> usize {
        self.rows
    }

    pub open(crate) spec fn spec_cols(&self) -> usize {
        self.cols
    }

    /// The entries in row-major order.
    pub fn as_slice(&self) -> (r: &[T])
        ensures
            r@ == self.flat(),
    {
        self.data.as_slice()
    }

    #[verifier::when_used_as_spec(spec_rows)]
    pub fn rows(&self) -> (r: usize)
        ensures
            r == self.spec_rows(),
    {
        self.rows
    }

    #[verifier::when_used_as_spec(spec_cols)]
    pub fn cols(&self) -> (r: usize)
        ensures
            r == self.spec_cols(),
    {
        self.cols
    }

    /// The entry at `(row, col)`.
    pub fn get(&self, row: usize, col: usize) -> (r: Result<&T, MatrixError>)
        requires
            self.wf(),
        ensures
            r is Ok <==> row < self.rows() && col < self.cols(),
            r is Err ==> r->Err_0 == MatrixError::IndexOutOfRange,
            r matches Ok(v) ==> *v == self.entries()[row as int][col as int],
    {
        if row < self.rows && col < self.cols {
            proof {
                lemma_flat_index(row as int, col as int, self.rows as int, self.cols as int);
            }
            Ok(&self.data[row * self.cols + col])
        } else {
            Err(MatrixError::IndexOutOfRange)
        }
    }

    /// The entry at `(row, col)`, to be written in place.
    pub fn get_mut(&mut self, row: usize, col: usize) -> (r: Result<&mut T, MatrixError>)
        requires
            old(self).wf(),
        ensures
            r is Ok <==> row < old(self).rows() && col < old(self).cols(),
            r is Err ==> r->Err_0 == MatrixError::IndexOutOfRange && *final(self) == *old(self),
            r matches Ok(v) ==> *v == old(self).entries()[row as int][col as int],
            r matches Ok(v) ==> final(self).rows() == old(self).rows() && final(self).cols()
                == old(self).cols() && final(self).flat() == old(self).flat().update(
                row * old(self).cols() + col,
                *final(v),
            ),
    {
        if row < self.rows && col < self.cols {
            proof {
                lemma_flat_index(row as int, col as int, self.rows as int, self.cols as int);
            }
            let idx = row * self.cols + col;
            Ok(&mut self.data[idx])
        } else {
            Err(MatrixError::IndexOutOfRange)
        }
    }

    /// Writes `value` at `(row, col)`.
    pub fn set(&mut self, row: usize, col: usize, value: T) -> (r: Result<(), MatrixError>)
        requires
            old(self).wf(),
        ensures
            final(self).wf(),
            final(self).rows() == old(self).rows(),
            final(self).cols() == old(self).cols(),
            r is Ok <==> row < old(self).rows() && col < old(self).cols(),
            r is Err ==> r->Err_0 == MatrixError::IndexOutOfRange && final(self).entries() == old(self).entries(),
            r is Ok ==> final(self).entries() == old(self).entries().update(
                row as int,
                old(self).entries()[row as int].update(col as int, value),
            ),
    {
        if row < self.rows && col < self.cols {
            proof {
                lemma_flat_index(row as int, col as int, self.rows as int, self.cols as int);
            }
            let idx = row * self.cols + col;
            self.data.set(idx, value);
            proof {
                let u = old(self).entries().update(row as int, old(self).entries()[row as int].update(col as int, value));
                assert forall|i: int| 0 <= i < self.rows implies #[trigger] self.entries()[i] == u[i] by {
                    assert forall|j: int| 0 <= j < self.cols implies self.entries()[i][j] == u[i][j] by {
                        lemma_flat_index(i, j, self.rows as int, self.cols as int);
                        if i != row {
                            assert(i * self.cols + j != idx) by {
                                lemma_flat_index(row as int, col as int, self.rows as int, self.cols as int);
                            }
                        }
                    }
                    assert(self.entries()[i] =~= u[i]);
                }
                assert(self.entries() =~= u);
            }
            Ok(())
        } else {
            Err(MatrixError::IndexOutOfRange)
        }
    }

    /// A read-only window onto the rows `row_range` and columns `col_range`.
    pub fn view(&self, row_range: std::ops::Range<usize>, col_range: std::ops::Range<usize>) -> (r:
        Result<MatrixView<'_, T>, MatrixError>)
        requires
            self.wf(),
        ensures
            r is Ok <==> row_range.start <= row_range.end <= self.rows() && col_range.start
                <= col_range.end <= self.cols(),
            r is Err ==> r->Err_0 == MatrixError::IndexOutOfRange,
            r matches Ok(v) ==> v.spec_rows() == row_range.end - row_range.start && v.spec_cols()
                == col_range.end - col_range.start && v.in_bounds() && v@ == block(
                self.entries(),
                row_range.start as int,
                col_range.start as int,
                (row_range.end - row_range.start) as nat,
                (col_range.end - col_range.start) as nat,
            ),
    {
        if !(row_range.start <= row_range.end && row_range.end <= self.rows
            && col_range.start <= col_range.end && col_range.end <= self.cols) {
            return Err(MatrixError::IndexOutOfRange);
        }
        let h = row_range.end - row_range.start;
        let w = col_range.end - col_range.start;
        let r0 = row_range.start;
        let c0 = col_range.start;
        if h == 0 || w == 0 {
            let v = MatrixView::strided(h, w, self.cols, &self.data.as_slice()[0..0]);
            proof {
                assert(v@ =~~= block(self.entries(), r0 as int, c0 as int, h as nat, w as nat));
            }
            return Ok(v);
        }
        proof {
            lemma_flat_index(r0 as int, c0 as int, self.rows as int, self.cols as int);
        }
        let offset = r0 * self.cols + c0;
        let len = self.data.len();
        let v = MatrixView::strided(h, w, self.cols, &self.data.as_slice()[offset..len]);
        proof {
            let b = block(self.entries(), r0 as int, c0 as int, h as nat, w as nat);
            assert forall|i: int, j: int| 0 <= i < h && 0 <= j < w implies #[trigger] (i
                * v.spec_stride() + j) < v.spec_data().len() by {
                lemma_flat_index(r0 + i, c0 + j, self.rows as int, self.cols as int);
                assert((r0 + i) * self.cols == r0 * self.cols + i * self.cols) by (nonlinear_arith);
            }
            assert forall|i: int| 0 <= i < h implies #[trigger] v@[i] == b[i] by {
                assert forall|j: int| 0 <= j < w implies v@[i][j] == b[i][j] by {
                    lemma_flat_index(r0 + i, c0 + j, self.rows as int, self.cols as int);
                    assert((r0 + i) * self.cols == r0 * self.cols + i * self.cols) by (nonlinear_arith);
                }
                assert(v@[i] =~= b[i]);
            }
            assert(v@ =~= b);
        }
        Ok(v)
    }
}

impl<T: SimdOps> Matrix<T> {
    /// The matrix whose rows are the rows of `data`.
    pub fn new<const R: usize, const C: usize>(data: [[T; C]; R]) -> (r: Self)
        requires
            R * C <= usize::MAX,
        ensures
            r.wf(),
            r.rows() == R,
            r.cols() == C,
            r.entries() == Seq::new(R as nat, |i: int| data@[i]@),
    {
        let mut flat: Vec<T> = Vec::with_capacity(R * C);
        let mut i: usize = 0;
        while i < R
            invariant
                i <= R,
                R * C <= usize::MAX,
                flat@.len() == i * C,
                forall|x: int| 0 <= x < flat@.len() ==> #[trigger] flat@[x] == data@[x / C as int]@[x % C as int],
            decreases R - i,
        {
            let row = data[i];
            let mut j: usize = 0;
            while j < C
                invariant
                    i < R,
                    j <= C,
                    R * C <= usize::MAX,
                    row@ == data@[i as int]@,
                    flat@.len() == i * C + j,
                    forall|x: int| 0 <= x < flat@.len() ==> #[trigger] flat@[x] == data@[x / C as int]@[x % C as int],
                decreases C - j,
            {
                proof {
                    lemma_flat_index(i as int, j as int, R as int, C as int);
                }
                flat.push(row[j]);
                j += 1;
            }
            proof {
                if C > 0 {
                    lemma_flat_index(i as int, 0, R as int, C as int);
                } else {
                    assert((i + 1) * C == 0) by (nonlinear_arith) requires C == 0;
                }
            }
            i += 1;
        }
        let r = Matrix { rows: R, cols: C, data: flat };
        proof {
            lemma_view_of_flat(r, |x: int, y: int| data@[x]@[y]);
            assert(r.entries() =~~= Seq::new(R as nat, |i: int| data@[i]@));
        }
        r
    }

    /// A `rows` by `cols` matrix of zeros.
    pub fn empty(rows: usize, cols: usize) -> (r: Self)
        requires
            rows * cols <= usize::MAX,
        ensures
            r.wf(),
            r.rows() == rows,
            r.cols() == cols,
            r.entries() == Seq::new(rows as nat, |i: int| Seq::new(cols as nat, |j: int| T::wrap(0))),
    {
        let n = rows * cols;
        let z = T::zero();
        let mut data: Vec<T> = Vec::with_capacity(n);
        let mut k: usize = 0;
        while k < n
            invariant
                k <= n,
                data@.len() == k,
                z == T::wrap(0),
                forall|x: int| 0 <= x < k ==> #[trigger] data@[x] == z,
            decreases n - k,
        {
            data.push(z);
            k += 1;
        }
        let r = Matrix { rows, cols, data };
        proof {
            lemma_view_of_flat(r, |x: int, y: int| T::wrap(0));
            assert(r.entries() =~~= Seq::new(rows as nat, |i: int| Seq::new(cols as nat, |j: int| T::wrap(0))));
        }
        r
    }

    /// Wraps a row-major buffer, which must hold exactly `rows * cols` entries.
    pub fn from_vec(rows: usize, cols: usize, data: Vec<T>) -> (r: Result<Self, MatrixError>)
        ensures
            r is Ok <==> data@.len() == rows * cols,
            r is Err ==> r->Err_0 == MatrixError::DataLengthMismatch,
            r matches Ok(m) ==> m.wf() && m.rows() == rows && m.cols() == cols
                && m.flat() == data@,
    {
        let len = data.len();
        match rows.checked_mul(cols) {
            Some(n) => {
                if n == len {
                    Ok(Matrix { rows, cols, data })
                } else {
                    Err(MatrixError::DataLengthMismatch)
                }
            },
            None => Err(MatrixError::DataLengthMismatch),
        }
    }
}

} // verus!
