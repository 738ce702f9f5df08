//! Entry-wise addition, and the engine that entry-wise operations share.
use vstd::prelude::*;

use super::mat::{lemma_flat_index, Matrix, MatrixError};
use super::model::{mat_add, mat_sub};
use super::parallel::par_map_range;
use super::simd::{apply, combine_block, lane_op, LaneOp, SimdOps};

verus! {

/// Entry counts from which entry-wise operations take the lane-parallel path.
pub const ELEMENTWISE_SIMD_THRESHOLD: usize = 262144;

/// Lanes in each block that the lane-parallel path hands to one task.
pub const BLOCK_LANES: usize = 128;

/// `op` applied position by position to two buffers.
pub open spec fn flat_op<T: SimdOps>(op: LaneOp, a: Seq<T>, b: Seq<T>) -> Seq<T> {
    Seq::new(a.len(), |k: int| lane_op(op, a[k], b[k]))
}

/// `op` applied entry by entry to two matrices.
pub open spec fn mat_op<T: SimdOps>(op: LaneOp, a: Seq<Seq<T>>, b: Seq<Seq<T>>) -> Seq<Seq<T>> {
    match op {
        LaneOp::Add => mat_add(a, b),
        LaneOp::Sub => mat_sub(a, b),
    }
}

/// Number of blocks of `block` entries that cover `total` entries.
pub open spec fn block_count(total: int, block: int) -> int {
    total / block + if total % block == 0 {
        0int
    } else {
        1int
    }
}

proof fn lemma_blocks(total: int, block: int, bi: int)
    requires
        total >= 0,
        block > 0,
        0 <= bi < block_count(total, block),
    ensures
        0 <= bi * block < total,
        bi + 1 < block_count(total, block) ==> bi * block + block < total,
        bi + 1 == block_count(total, block) ==> total <= bi * block + block,
{
    let q = total / block;
    let r = total % block;
    vstd::arithmetic::div_mod::lemma_fundamental_div_mod(total, block);
    assert(total == block * q + r);
    assert(0 <= r < block);
    assert(0 <= bi * block) by (nonlinear_arith)
        requires
            0 <= bi,
            block > 0,
    ;
    if bi < q {
        assert(bi * block + block <= q * block) by (nonlinear_arith)
            requires
                bi + 1 <= q,
                block > 0,
        ;
        assert(block * q == q * block) by (nonlinear_arith);
    } else {
        assert(bi == q);
        assert(bi * block == block * q) by (nonlinear_arith)
            requires
                bi == q,
        ;
    }
    if bi + 1 < block_count(total, block) {
        if bi + 1 < q {
            assert(bi * block + block < q * block) by (nonlinear_arith)
                requires
                    bi + 2 <= q,
                    block > 0,
            ;
        } else {
            assert(bi + 1 == q && r != 0);
            assert(bi * block + block == q * block) by (nonlinear_arith)
                requires
                    bi + 1 == q,
            ;
        }
        assert(block * q == q * block) by (nonlinear_arith);
    }
    if bi + 1 == block_count(total, block) {
        assert(bi * block + block == (bi + 1) * block) by (nonlinear_arith);
        if r == 0 {
            assert(bi + 1 == q);
            assert((bi + 1) * block == block * q) by (nonlinear_arith)
                requires
                    bi + 1 == q,
            ;
        } else {
            assert(bi == q);
            assert((bi + 1) * block == block * q + block) by (nonlinear_arith)
                requires
                    bi == q,
            ;
        }
    }
}

/// `op` on every position, one position after another.
fn combine_scalar<T: SimdOps>(op: LaneOp, a: &[T], b: &[T]) -> (r: Vec<T>)
    requires
        a@.len() == b@.len(),
    ensures
        r@ == flat_op(op, a@, b@),
{
    let n = a.len();
    let mut r: Vec<T> = Vec::with_capacity(n);
    let mut k: usize = 0;
    while k < n
        invariant
            n == a@.len(),
            a@.len() == b@.len(),
            k <= n,
            r@.len() == k,
            forall|x: int| 0 <= x < k ==> #[trigger] r@[x] == lane_op(op, a@[x], b@[x]),
        decreases n - k,
    {
        r.push(apply(op, a[k], b[k]));
        k += 1;
    }
    assert(r@ =~= flat_op(op, a@, b@));
    r
}

/// `op` on every position, in blocks of whole lanes that run in parallel.
fn combine_lanes<T: SimdOps>(op: LaneOp, a: &[T], b: &[T]) -> (r: Vec<T>)
    requires
        a@.len() == b@.len(),
    ensures
        r@ == flat_op(op, a@, b@),
{
    let total = a.len();
    let block = T::lane_size() * BLOCK_LANES;
    proof {
        if total > 0 {
            vstd::arithmetic::div_mod::lemma_div_decreases(total as int, block as int);
        }
    }
    let nblocks = total / block + if total % block == 0 {
        0
    } else {
        1
    };
    let ghost whole = flat_op(op, a@, b@);
    let task = |bi: usize| -> (part: Vec<T>)
        requires
            bi < nblocks,
        ensures
            0 <= bi * block < total,
            part@.len() == if total - bi * block > block {
                block as int
            } else {
                total - bi * block
            },
            part@ == flat_op(op, a@, b@).subrange(bi * block, bi * block + part@.len()),
        {
            proof {
                lemma_blocks(total as int, block as int, bi as int);
            }
            let start = bi * block;
            let end = if total - start > block {
                start + block
            } else {
                total
            };
            let part = combine_block(op, a, b, start, end);
            assert(part@ =~= flat_op(op, a@, b@).subrange(start as int, end as int));
            part
        };
    let parts = par_map_range(nblocks, task);
    proof {
        if nblocks == 0 {
            vstd::arithmetic::div_mod::lemma_fundamental_div_mod(total as int, block as int);
            assert(total == 0) by (nonlinear_arith)
                requires
                    total == block * (total / block) + total % block,
                    total / block == 0,
                    total % block == 0,
            ;
        }
    }
    assert forall|i: int| 0 <= i < nblocks implies {
        &&& #[trigger] parts@[i]@.len() == if total - i * block > block {
            block as int
        } else {
            total - i * block
        }
        &&& parts@[i]@ == whole.subrange(i * block, i * block + parts@[i]@.len())
    } by {
        assert(task.ensures((i as usize,), parts@[i]));
    }
    let mut out: Vec<T> = Vec::with_capacity(total);
    let mut bi: usize = 0;
    while bi < nblocks
        invariant
            bi <= nblocks,
            nblocks == block_count(total as int, block as int),
            block > 0,
            total == a@.len(),
            whole.len() == total,
            parts@.len() == nblocks,
            forall|i: int|
                0 <= i < nblocks ==> {
                    &&& #[trigger] parts@[i]@.len() == if total - i * block > block {
                        block as int
                    } else {
                        total - i * block
                    }
                    &&& parts@[i]@ == whole.subrange(i * block, i * block + parts@[i]@.len())
                },
            bi < nblocks ==> out@.len() == bi * block,
            bi == nblocks ==> out@.len() == total,
            out@ == whole.subrange(0, out@.len() as int),
        decreases nblocks - bi,
    {
        let part = &parts[bi];
        proof {
            lemma_blocks(total as int, block as int, bi as int);
        }
        let mut k: usize = 0;
        while k < part.len()
            invariant
                k <= part@.len(),
                part@ == whole.subrange(bi * block, bi * block + part@.len()),
                bi * block + part@.len() <= total,
                whole.len() == total,
                out@.len() == bi * block + k,
                out@ == whole.subrange(0, out@.len() as int),
            decreases part@.len() - k,
        {
            out.push(part[k]);
            k += 1;
            assert(out@ =~= whole.subrange(0, out@.len() as int));
        }
        assert((bi + 1) * block == bi * block + block) by (nonlinear_arith);
        bi += 1;
    }
    assert(out@ =~= whole);
    out
}

/// Picks the lane-parallel path for large buffers when the hardware is
/// worth it, and the plain loop otherwise.
pub(crate) fn combine_flat<T: SimdOps>(op: LaneOp, a: &[T], b: &[T]) -> (r: Vec<T>)
    requires
        a@.len() == b@.len(),
    ensures
        r@ == flat_op(op, a@, b@),
{
    if a.len() >= ELEMENTWISE_SIMD_THRESHOLD && T::has_hardware_support() {
        combine_lanes(op, a, b)
    } else {
        combine_scalar(op, a, b)
    }
}

/// A buffer made position by position from two matrices' buffers is the
/// entry-wise matrix of the same operation.
pub(crate) proof fn lemma_entries_of_flat_op<T: SimdOps>(
    op: LaneOp,
    r: Matrix<T>,
    a: Matrix<T>,
    b: Matrix<T>,
)
    requires
        a.wf(),
        b.wf(),
        r.rows == a.rows && r.cols == a.cols,
        b.rows == a.rows && b.cols == a.cols,
        r.data@ == flat_op(op, a.data@, b.data@),
    ensures
        r.wf(),
        r.entries() == mat_op(op, a.entries(), b.entries()),
{
    let want = mat_op(op, a.entries(), b.entries());
    assert forall|i: int| 0 <= i < r.rows implies #[trigger] r.entries()[i] == want[i] by {
        assert forall|j: int| 0 <= j < r.cols implies r.entries()[i][j] == want[i][j] by {
            lemma_flat_index(i, j, r.rows as int, r.cols as int);
        }
        assert(r.entries()[i] =~= want[i]);
    }
    assert(r.entries() =~= want);
}

/// Applies `op` entry by entry, after checking that the shapes agree.
pub(crate) fn combine_matrices<T: SimdOps>(op: LaneOp, a: &Matrix<T>, b: &Matrix<T>) -> (r: Result<
    Matrix<T>,
    MatrixError,
>)
    requires
        a.wf(),
        b.wf(),
    ensures
        r is Ok <==> a.rows() == b.rows() && a.cols() == b.cols(),
        r is Err ==> r->Err_0 == MatrixError::DimensionMismatch,
        r matches Ok(m) ==> m.wf() && m.rows() == a.rows() && m.cols() == a.cols() && m.entries()
            == mat_op(op, a.entries(), b.entries()),
{
    if a.rows != b.rows || a.cols != b.cols {
        return Err(MatrixError::DimensionMismatch);
    }
    let data = combine_flat(op, a.data.as_slice(), b.data.as_slice());
    let m = Matrix { rows: a.rows, cols: a.cols, data };
    proof {
        lemma_entries_of_flat_op(op, m, *a, *b);
    }
    Ok(m)
}

/// Applies `op` entry by entry into `a`, after checking that the shapes agree.
pub(crate) fn combine_in_place<T: SimdOps>(op: LaneOp, a: &mut Matrix<T>, b: &Matrix<T>) -> (r:
    Result<(), MatrixError>)
    requires
        old(a).wf(),
        b.wf(),
    ensures
        final(a).wf(),
        final(a).rows() == old(a).rows(),
        final(a).cols() == old(a).cols(),
        r is Ok <==> old(a).rows() == b.rows() && old(a).cols() == b.cols(),
        r is Err ==> r->Err_0 == MatrixError::DimensionMismatch && final(a).entries()
            == old(a).entries(),
        r is Ok ==> final(a).entries() == mat_op(op, old(a).entries(), b.entries()),
{
    if a.rows != b.rows || a.cols != b.cols {
        return Err(MatrixError::DimensionMismatch);
    }
    let ghost before = a.data@;
    let n = a.data.len();
    let mut k: usize = 0;
    while k < n
        invariant
            n == a.data@.len(),
            before.len() == n,
            b.data@.len() == n,
            a.rows == old(a).rows && a.cols == old(a).cols,
            before == old(a).data@,
            k <= n,
            forall|x: int| 0 <= x < k ==> #[trigger] a.data@[x] == lane_op(op, before[x], b.data@[x]),
            forall|x: int| k <= x < n ==> #[trigger] a.data@[x] == before[x],
        decreases n - k,
    {
        let v = apply(op, a.data[k], b.data[k]);
        a.data.set(k, v);
        k += 1;
    }
    proof {
        assert(a.data@ =~= flat_op(op, before, b.data@));
        lemma_entries_of_flat_op(op, *a, *old(a), *b);
    }
    Ok(())
}

impl<T: SimdOps> Matrix<T> {
    /// The entry-wise sum of `self` and `other`, which must have the same shape.
    pub fn add(&self, other: &Matrix<T>) -> (r: Result<Matrix<T>, MatrixError>)
        requires
            self.wf(),
            other.wf(),
        ensures
            r is Ok <==> self.rows() == other.rows() && self.cols() == other.cols(),
            r is Err ==> r->Err_0 == MatrixError::DimensionMismatch,
            r matches Ok(m) ==> m.wf() && m.rows() == self.rows() && m.cols() == self.cols()
                && m.entries() == mat_add(self.entries(), other.entries()),
    {
        combine_matrices(LaneOp::Add, self, other)
    }

    /// Adds `other`, which must have the same shape, into `self`.
    pub fn add_assign(&mut self, other: &Matrix<T>) -> (r: Result<(), MatrixError>)
        requires
            old(self).wf(),
            other.wf(),
        ensures
            final(self).wf(),
            final(self).rows() == old(self).rows(),
            final(self).cols() == old(self).cols(),
            r is Ok <==> old(self).rows() == other.rows() && old(self).cols() == other.cols(),
            r is Err ==> r->Err_0 == MatrixError::DimensionMismatch && final(self).entries()
                == old(self).entries(),
            r is Ok ==> final(self).entries() == mat_add(old(self).entries(), other.entries()),
    {
        combine_in_place(LaneOp::Add, self, other)
    }
}

} // verus!
