//! The tensor (Kronecker) product as a trait over the algebra's value kinds.

use vstd::prelude::*;

verus! {

/// Combine two values into their tensor product; for containers of size N
/// and M the result has size N * M and entry `(i, j)` lands at flat index
/// `i * M + j`.
pub trait TensorMul<Rhs>: Sized {
    type Output;

    /// The operand shapes and bounds for which the product is defined.
    spec fn tensor_mul_req(self, rhs: Rhs) -> bool;

    /// The exact relation between the operands and their product.
    spec fn is_tensor_mul(self, rhs: Rhs, r: Self::Output) -> bool;

    fn tensor_mul(self, rhs: Rhs) -> (r: Self::Output)
        requires
            self.tensor_mul_req(rhs),
        ensures
            self.is_tensor_mul(rhs, r),
    ;
}

/// Two scalars combine by multiplication.
impl TensorMul<i64> for i64 {
    type Output = i64;

    open spec fn tensor_mul_req(self, rhs: i64) -> bool {
        i64::MIN <= self * rhs <= i64::MAX
    }

    open spec fn is_tensor_mul(self, rhs: i64, r: i64) -> bool {
        r == self * rhs
    }

    fn tensor_mul(self, rhs: i64) -> (r: i64) {
        self * rhs
    }
}

} // verus!
