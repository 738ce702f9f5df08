//! Matrix products: the plain triple loop, the lane-parallel row pass and
//! Strassen's recursive scheme, with the dispatcher that picks among them.
use vstd::prelude::*;

use super::mat::{lemma_flat_index, lemma_view_of_flat, Matrix, MatrixError};
use super::model::{
    congruent,
    dot,
    lemma_cong_add,
    lemma_cong_trans,
    lemma_sum_ext,
    mat_mul,
    mat_scale,
    sum,
    transposed,
};
use super::parallel::par_map_range;
use super::simd::{dot_lanes, SimdOps};
use super::strassen::strassen_with;

verus! {

/// Output sizes from which a product takes the lane-parallel row pass.
pub const MUL_SIMD_THRESHOLD: usize = 65536;

/// Shortest inner dimension for which the lane-parallel row pass pays off.
pub const MUL_SIMD_MIN_INNER: usize = 16;

/// Smallest square size that Strassen's scheme splits.
pub const STRASSEN_CUTOVER: usize = 128;

/// The algorithm that computes a product.
#[derive(Clone, Copy, PartialEq, Eq, Debug, Structural)]
pub enum MulStrategy {
    Strassen,
    Simd,
    Scalar,
}

/// Whether `n` is a power of two.
pub open spec fn is_power_of_two(n: nat) -> bool
    decreases n,
{
    if n <= 1 {
        n == 1
    } else {
        n % 2 == 0 && is_power_of_two(n / 2)
    }
}

/// The strategy for an `m` by `k` times `k2` by `n` product.
pub open spec fn strategy_for(m: nat, k: nat, k2: nat, n: nat, hardware: bool) -> MulStrategy {
    if m == k && k == k2 && k2 == n && is_power_of_two(m) && m >= STRASSEN_CUTOVER {
        MulStrategy::Strassen
    } else if m * n >= MUL_SIMD_THRESHOLD && k >= MUL_SIMD_MIN_INNER && hardware {
        MulStrategy::Simd
    } else {
        MulStrategy::Scalar
    }
}

/// Whether `n` is a power of two, by halving.
pub fn power_of_two(n: usize) -> (r: bool)
    ensures
        r == is_power_of_two(n as nat),
{
    let mut x = n;
    while x > 1 && x % 2 == 0
        invariant
            x <= n,
            is_power_of_two(n as nat) == is_power_of_two(x as nat),
        decreases x,
    {
        x = x / 2;
    }
    x == 1
}

/// Picks the algorithm for an `m` by `k` times `k2` by `n` product: Strassen
/// for square powers of two from the cutover on, the lane-parallel row pass
/// for large outputs with a long inner dimension, the triple loop otherwise.
pub fn select_strategy(m: usize, k: usize, k2: usize, n: usize, hardware: bool) -> (r: MulStrategy)
    ensures
        r == strategy_for(m as nat, k as nat, k2 as nat, n as nat, hardware),
{
    if m == k && k == k2 && k2 == n && m >= STRASSEN_CUTOVER && power_of_two(m) {
        MulStrategy::Strassen
    } else if k >= MUL_SIMD_MIN_INNER && hardware && match m.checked_mul(n) {
        Some(size) => size >= MUL_SIMD_THRESHOLD,
        None => true,
    } {
        MulStrategy::Simd
    } else {
        MulStrategy::Scalar
    }
}

/// A product's entries as computed: each is the entry of the model product.
pub open spec fn is_product_of<T: SimdOps>(r: Matrix<T>, lhs: Matrix<T>, rhs: Matrix<T>) -> bool {
    &&& r.wf()
    &&& r.rows() == lhs.rows()
    &&& r.cols() == rhs.cols()
    &&& r.entries() == mat_mul(lhs.entries(), rhs.entries(), rhs.cols() as nat)
}

/// Shapes that a product accepts, with an output that fits in memory.
pub open spec fn can_multiply<T: SimdOps>(lhs: Matrix<T>, rhs: Matrix<T>) -> bool {
    &&& lhs.wf()
    &&& rhs.wf()
    &&& lhs.cols() == rhs.rows()
    &&& lhs.rows() * rhs.cols() <= usize::MAX
}

proof fn lemma_entry_row_col<T: SimdOps>(lhs: Matrix<T>, rhs: Matrix<T>, i: int, j: int, p: int)
    requires
        can_multiply(lhs, rhs),
        0 <= i < lhs.rows(),
        0 <= j < rhs.cols(),
        0 <= p < lhs.cols(),
    ensures
        lhs.entries()[i][p] == lhs.data@[i * lhs.cols + p],
        rhs.entries()[p][j] == rhs.data@[p * rhs.cols + j],
        0 <= i * lhs.cols + p < lhs.data@.len(),
        0 <= p * rhs.cols + j < rhs.data@.len(),
{
    lemma_flat_index(i, p, lhs.rows as int, lhs.cols as int);
    lemma_flat_index(p, j, rhs.rows as int, rhs.cols as int);
}

/// The triple loop: each entry accumulates its products from zero.
pub fn multiply_scalar<T: SimdOps>(lhs: &Matrix<T>, rhs: &Matrix<T>) -> (r: Matrix<T>)
    requires
        can_multiply(*lhs, *rhs),
    ensures
        is_product_of(r, *lhs, *rhs),
{
    let m = lhs.rows;
    let k = lhs.cols;
    let n = rhs.cols;
    let ghost want = mat_mul(lhs.entries(), rhs.entries(), n as nat);
    let ghost md = T::modulus();
    proof {
        T::lemma_modulus();
    }
    let mut data: Vec<T> = Vec::with_capacity(m * n);
    let mut i: usize = 0;
    while i < m
        invariant
            can_multiply(*lhs, *rhs),
            m == lhs.rows,
            k == lhs.cols,
            n == rhs.cols,
            md == T::modulus(),
            md > 1,
            want == mat_mul(lhs.entries(), rhs.entries(), n as nat),
            i <= m,
            data@.len() == i * n,
            forall|x: int|
                0 <= x < data@.len() ==> #[trigger] data@[x] == want[x / n as int][x % n as int],
        decreases m - i,
    {
        let mut j: usize = 0;
        while j < n
            invariant
                can_multiply(*lhs, *rhs),
                m == lhs.rows,
                k == lhs.cols,
                n == rhs.cols,
                md == T::modulus(),
                md > 1,
                want == mat_mul(lhs.entries(), rhs.entries(), n as nat),
                i < m,
                j <= n,
                data@.len() == i * n + j,
                forall|x: int|
                    0 <= x < data@.len() ==> #[trigger] data@[x] == want[x / n as int][x % n as int],
            decreases n - j,
        {
            let ghost f = |p: int| lhs.entries()[i as int][p].val() * rhs.entries()[p][j as int].val();
            proof {
                T::lemma_wrap(0);
            }
            let mut acc = T::zero();
            let mut p: usize = 0;
            while p < k
                invariant
                    can_multiply(*lhs, *rhs),
                    m == lhs.rows,
                    k == lhs.cols,
                    n == rhs.cols,
                    i < m,
                    j < n,
                    md == T::modulus(),
                    md > 1,
                    p <= k,
                    f == (|p: int| lhs.entries()[i as int][p].val() * rhs.entries()[p][j as int].val()),
                    congruent(acc.val(), sum(f, p as nat), md),
                decreases k - p,
            {
                proof {
                    lemma_entry_row_col(*lhs, *rhs, i as int, j as int, p as int);
                }
                let x = lhs.data[i * k + p];
                let y = rhs.data[p * n + j];
                let prod = x.times(y);
                let next = acc.plus(prod);
                proof {
                    assert(lhs.entries()[i as int][p as int] == x);
                    T::lemma_wrap(x.val() * y.val());
                    T::lemma_wrap(acc.val() + prod.val());
                    lemma_cong_add(
                        acc.val(),
                        sum(f, p as nat),
                        prod.val(),
                        x.val() * y.val(),
                        md,
                    );
                    lemma_cong_trans(
                        next.val(),
                        acc.val() + prod.val(),
                        sum(f, (p + 1) as nat),
                        md,
                    );
                }
                acc = next;
                p += 1;
            }
            proof {
                lemma_flat_index(i as int, j as int, m as int, n as int);
                T::lemma_wrap_val(acc);
                T::lemma_wrap_congruent(acc.val(), sum(f, k as nat));
                assert(sum(f, k as nat) == dot(lhs.entries(), rhs.entries(), i as int, j as int));
            }
            data.push(acc);
            j += 1;
        }
        proof {
            if n > 0 {
                lemma_flat_index(i as int, 0, m as int, n as int);
            } else {
                assert((i + 1) * n == 0 && i * n == 0) by (nonlinear_arith)
                    requires
                        n == 0,
                ;
            }
        }
        i += 1;
    }
    let r = Matrix { rows: m, cols: n, data };
    proof {
        lemma_view_of_flat(r, |a: int, b: int| want[a][b]);
        assert(r.entries() =~~= want);
    }
    r
}

/// One output row of the lane-parallel pass: row `i` of `lhs` against every
/// row of the transposed right factor.
fn simd_row<T: SimdOps>(lhs: &Matrix<T>, rhs: &Matrix<T>, rhs_t: &Matrix<T>, i: usize) -> (r: Vec<T>)
    requires
        can_multiply(*lhs, *rhs),
        rhs_t.wf(),
        rhs_t.rows() == rhs.cols(),
        rhs_t.cols() == rhs.rows(),
        rhs_t.entries() == transposed(rhs.entries(), rhs.cols() as nat),
        i < lhs.rows(),
    ensures
        r@ == mat_mul(lhs.entries(), rhs.entries(), rhs.cols() as nat)[i as int],
{
    let k = lhs.cols;
    let n = rhs.cols;
    let ghost want = mat_mul(lhs.entries(), rhs.entries(), n as nat);
    let mut row: Vec<T> = Vec::with_capacity(n);
    let mut j: usize = 0;
    proof {
        assert(i * k + k <= lhs.rows * k) by (nonlinear_arith)
            requires
                i < lhs.rows,
        ;
    }
    while j < n
        invariant
            can_multiply(*lhs, *rhs),
            rhs_t.wf(),
            rhs_t.rows == n,
            rhs_t.cols == k,
            rhs_t.entries() == transposed(rhs.entries(), n as nat),
            k == lhs.cols,
            n == rhs.cols,
            i < lhs.rows,
            i * k + k <= lhs.data@.len(),
            want == mat_mul(lhs.entries(), rhs.entries(), n as nat),
            j <= n,
            row@.len() == j,
            forall|x: int| 0 <= x < j ==> #[trigger] row@[x] == want[i as int][x],
        decreases n - j,
    {
        proof {
            assert(j * k + k <= n * k) by (nonlinear_arith)
                requires
                    j < n,
            ;
            assert forall|p: int| 0 <= p < k implies lhs.data@[i * k + p] == lhs.entries()[i as int][p]
                && rhs_t.data@[j * k + p] == rhs.entries()[p][j as int] by {
                lemma_entry_row_col(*lhs, *rhs, i as int, j as int, p);
                lemma_flat_index(j as int, p, n as int, k as int);
                assert(rhs_t.entries()[j as int][p] == rhs_t.data@[j * k + p]);
            }
            lemma_sum_ext(
                |p: int| lhs.data@[i * k + p].val() * rhs_t.data@[j * k + p].val(),
                |p: int| lhs.entries()[i as int][p].val() * rhs.entries()[p][j as int].val(),
                k as nat,
            );
        }
        let v = dot_lanes(lhs.data.as_slice(), i * k, rhs_t.data.as_slice(), j * k, k);
        row.push(v);
        j += 1;
    }
    assert(row@ =~= want[i as int]);
    row
}

/// The lane-parallel row pass: transposes `rhs` so that both factors are read
/// along rows, then computes the output rows as independent tasks.
pub fn multiply_simd<T: SimdOps>(lhs: &Matrix<T>, rhs: &Matrix<T>) -> (r: Matrix<T>)
    requires
        can_multiply(*lhs, *rhs),
    ensures
        is_product_of(r, *lhs, *rhs),
{
    let m = lhs.rows;
    let n = rhs.cols;
    let ghost want = mat_mul(lhs.entries(), rhs.entries(), n as nat);
    let rhs_t = rhs.transpose();
    let rt = &rhs_t;
    let task = |i: usize| -> (row: Vec<T>)
        requires
            i < m,
        ensures
            row@ == mat_mul(lhs.entries(), rhs.entries(), n as nat)[i as int],
        { simd_row(lhs, rhs, rt, i) };
    let rows = par_map_range(m, task);
    assert forall|i: int| 0 <= i < m implies #[trigger] rows@[i]@ == want[i] by {
        assert(task.ensures((i as usize,), rows@[i]));
    }
    let mut data: Vec<T> = Vec::with_capacity(m * n);
    let mut i: usize = 0;
    while i < m
        invariant
            can_multiply(*lhs, *rhs),
            m == lhs.rows,
            n == rhs.cols,
            want == mat_mul(lhs.entries(), rhs.entries(), n as nat),
            rows@.len() == m,
            forall|i: int| 0 <= i < m ==> #[trigger] rows@[i]@ == want[i],
            i <= m,
            data@.len() == i * n,
            forall|x: int|
                0 <= x < data@.len() ==> #[trigger] data@[x] == want[x / n as int][x % n as int],
        decreases m - i,
    {
        let row = &rows[i];
        let mut j: usize = 0;
        while j < n
            invariant
                can_multiply(*lhs, *rhs),
                m == lhs.rows,
                n == rhs.cols,
                want == mat_mul(lhs.entries(), rhs.entries(), n as nat),
                row@ == want[i as int],
                i < m,
                j <= n,
                data@.len() == i * n + j,
                forall|x: int|
                    0 <= x < data@.len() ==> #[trigger] data@[x] == want[x / n as int][x % n as int],
            decreases n - j,
        {
            proof {
                lemma_flat_index(i as int, j as int, m as int, n as int);
            }
            data.push(row[j]);
            j += 1;
        }
        proof {
            if n > 0 {
                lemma_flat_index(i as int, 0, m as int, n as int);
            } else {
                assert((i + 1) * n == 0 && i * n == 0) by (nonlinear_arith)
                    requires
                        n == 0,
                ;
            }
        }
        i += 1;
    }
    let r = Matrix { rows: m, cols: n, data };
    proof {
        lemma_view_of_flat(r, |a: int, b: int| want[a][b]);
        assert(r.entries() =~~= want);
    }
    r
}

/// Computes a product by the strategy that `select_strategy` picks.
fn multiply_matrices_impl<T: SimdOps>(lhs: &Matrix<T>, rhs: &Matrix<T>, hardware: bool) -> (r: Matrix<T>)
    requires
        can_multiply(*lhs, *rhs),
    ensures
        is_product_of(r, *lhs, *rhs),
{
    match select_strategy(lhs.rows, lhs.cols, rhs.rows, rhs.cols, hardware) {
        MulStrategy::Strassen => strassen_with(lhs, rhs, hardware),
        MulStrategy::Simd => multiply_simd(lhs, rhs),
        MulStrategy::Scalar => multiply_scalar(lhs, rhs),
    }
}

impl<T: SimdOps> Matrix<T> {
    /// The product of `self` and `rhs`, where `hardware` tells whether the
    /// lane-parallel pass pays off on this machine.
    pub fn multiply_with(&self, rhs: &Matrix<T>, hardware: bool) -> (r: Result<Matrix<T>, MatrixError>)
        requires
            self.wf(),
            rhs.wf(),
            self.rows() * rhs.cols() <= usize::MAX,
        ensures
            r is Ok <==> self.cols() == rhs.rows(),
            r is Err ==> r->Err_0 == MatrixError::IncompatibleDimensions,
            r matches Ok(m) ==> is_product_of(m, *self, *rhs),
    {
        if self.cols != rhs.rows {
            return Err(MatrixError::IncompatibleDimensions);
        }
        Ok(multiply_matrices_impl(self, rhs, hardware))
    }

    /// The product of `self` and `rhs`; the columns of `self` must match the
    /// rows of `rhs`.
    pub fn mul(&self, rhs: &Matrix<T>) -> (r: Result<Matrix<T>, MatrixError>)
        requires
            self.wf(),
            rhs.wf(),
            self.rows() * rhs.cols() <= usize::MAX,
        ensures
            r is Ok <==> self.cols() == rhs.rows(),
            r is Err ==> r->Err_0 == MatrixError::IncompatibleDimensions,
            r matches Ok(m) ==> is_product_of(m, *self, *rhs),
    {
        self.multiply_with(rhs, T::has_hardware_support())
    }

    /// Every entry multiplied by `s`.
    pub fn mul_scalar(&self, s: T) -> (r: Matrix<T>)
        requires
            self.wf(),
        ensures
            r.wf(),
            r.rows() == self.rows(),
            r.cols() == self.cols(),
            r.entries() == mat_scale(self.entries(), s),
    {
        let n = self.data.len();
        let mut data: Vec<T> = Vec::with_capacity(n);
        let mut k: usize = 0;
        while k < n
            invariant
                self.wf(),
                n == self.data@.len(),
                k <= n,
                data@.len() == k,
                forall|x: int| 0 <= x < k ==> #[trigger] data@[x] == T::wrap(self.data@[x].val() * s.val()),
            decreases n - k,
        {
            data.push(self.data[k].times(s));
            k += 1;
        }
        let r = Matrix { rows: self.rows, cols: self.cols, data };
        proof {
            let want = mat_scale(self.entries(), s);
            assert forall|i: int| 0 <= i < r.rows implies #[trigger] r.entries()[i] == want[i] by {
                assert forall|j: int| 0 <= j < r.cols implies r.entries()[i][j] == want[i][j] by {
                    lemma_flat_index(i, j, r.rows as int, r.cols as int);
                }
                assert(r.entries()[i] =~= want[i]);
            }
            assert(r.entries() =~= want);
        }
        r
    }
}

} // verus!
