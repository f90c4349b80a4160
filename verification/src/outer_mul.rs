//! The outer product: the same index bookkeeping as the tensor product,
//! offered under the name the composition operations use.

use vstd::prelude::*;

verus! {

/// Combine operand A of size N and operand B of size M into a value of size
/// N * M whose entry at combined index `(i, j)` is `A[i] * B[j]`.
pub trait OuterMul<Rhs>: Sized {
    type Output;

    /// The operand shapes and bounds for which the product is defined.
    spec fn outer_mul_req(self, rhs: Rhs) -> bool;

    /// The exact relation between the operands and their product.
    spec fn is_outer_mul(self, rhs: Rhs, r: Self::Output) -> bool;

    fn outer_mul(self, rhs: Rhs) -> (r: Self::Output)
        requires
            self.outer_mul_req(rhs),
        ensures
            self.is_outer_mul(rhs, r),
    ;
}

/// Two scalars combine by multiplication.
impl OuterMul<i64> for i64 {
    type Output = i64;

    open spec fn outer_mul_req(self, rhs: i64) -> bool {
        i64::MIN <= self * rhs <= i64::MAX
    }

    open spec fn is_outer_mul(self, rhs: i64, r: i64) -> bool {
        r == self * rhs
    }

    fn outer_mul(self, rhs: i64) -> (r: i64) {
        self * rhs
    }
}

} // verus!
