//! Entry-wise subtraction.
use vstd::prelude::*;

use super::add::{combine_in_place, combine_matrices};
use super::mat::{Matrix, MatrixError};
use super::model::mat_sub;
use super::simd::{LaneOp, SimdOps};

verus! {

impl<T: SimdOps> Matrix<T> {
    /// The entry-wise difference of `self` and `other`, which must have the
    /// same shape.
    pub fn sub(&self, other: &Matrix<T>) -> (r: Result<Matrix<T>, MatrixError>)
        requires
            self.wf(),
            other.wf(),
        ensures
            r is Ok <==> self.rows() == other.rows() && self.cols() == other.cols(),
            r is Err ==> r->Err_0 == MatrixError::DimensionMismatch,
            r matches Ok(m) ==> m.wf() && m.rows() == self.rows() && m.cols() == self.cols()
                && m.entries() == mat_sub(self.entries(), other.entries()),
    {
        combine_matrices(LaneOp::Sub, self, other)
    }

    /// Subtracts `other`, which must have the same shape, from `self`.
    pub fn sub_assign(&mut self, other: &Matrix<T>) -> (r: Result<(), MatrixError>)
        requires
            old(self).wf(),
            other.wf(),
        ensures
            final(self).wf(),
            final(self).rows() == old(self).rows(),
            final(self).cols() == old(self).cols(),
            r is Ok <==> old(self).rows() == other.rows() && old(self).cols() == other.cols(),
            r is Err ==> r->Err_0 == MatrixError::DimensionMismatch && final(self).entries()
                == old(self).entries(),
            r is Ok ==> final(self).entries() == mat_sub(old(self).entries(), other.entries()),
    {
        combine_in_place(LaneOp::Sub, self, other)
    }
}

} // verus!
