//! A rectangular matrix held row-major.  Its tensor product is the same
//! Kronecker index bookkeeping as for bases, applied to rows instead of
//! columns.

use vstd::prelude::*;
use crate::{AMP_MAX, MAX_DIM};
use crate::arith::is_kron_mat;
use crate::braket::{Bra, Ket, uniform_width, bounded_mat};
use crate::kronecker::Kronecker;
use crate::tensor_mul::TensorMul;

verus! {

/// An N by M matrix of amplitudes; each row is held as a fixed-length
/// amplitude vector.
#[derive(Debug, PartialEq)]
pub struct Matrix {
    pub rows: Vec<Ket>,
}

impl View for Matrix {
    type V = Seq<Seq<i64>>;

    open spec fn view(&self) -> Seq<Seq<i64>> {
        self.rows@.map_values(|k: Ket| k@)
    }
}

impl Matrix {
    pub fn new(rows: Vec<Ket>) -> (r: Matrix)
        ensures
            r.rows@ == rows@,
            r@.len() == rows@.len(),
            forall|i: int| 0 <= i < rows@.len() ==> #[trigger] r@[i] == rows@[i]@,
    {
        Matrix { rows }
    }
}

/// The Kronecker product of an N x M and an X x Y matrix: the (N*X) x (M*Y)
/// matrix whose row `i * X + k` is the Kronecker product of rows `i` and
/// `k`, so its entry `j * Y + l` is `A[i][j] * B[k][l]`.
impl TensorMul<Matrix> for Matrix {
    type Output = Matrix;

    open spec fn tensor_mul_req(self, rhs: Matrix) -> bool {
        &&& self@.len() >= 1
        &&& rhs@.len() >= 1
        &&& uniform_width(self@, self@[0].len() as int)
        &&& uniform_width(rhs@, rhs@[0].len() as int)
        &&& self@.len() * rhs@.len() <= MAX_DIM
        &&& self@[0].len() * rhs@[0].len() <= MAX_DIM
        &&& bounded_mat(self@, AMP_MAX as int)
        &&& bounded_mat(rhs@, AMP_MAX as int)
    }

    open spec fn is_tensor_mul(self, rhs: Matrix, r: Matrix) -> bool {
        is_kron_mat(r@, self@, rhs@)
    }

    fn tensor_mul(self, rhs: Matrix) -> (r: Matrix) {
        let lhs = Bra::new(self.rows);
        let other = Bra::new(rhs.rows);
        proof {
            assert(lhs@ =~= self@);
            assert(other@ =~= rhs@);
        }
        let out = lhs.kron(&other);
        let r = Matrix { rows: out.kets };
        proof {
            assert(r@ =~= out@);
        }
        r
    }
}

} // verus!
