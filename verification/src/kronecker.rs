//! The Kronecker product of two whole bases: how composite measurement
//! bases and composite gates are built from smaller ones.

use vstd::prelude::*;
use crate::{bounded, AMP_MAX, MAX_DIM};
use crate::arith::{is_kron_mat, kron_vec};
use crate::braket::{Bra, Ket, uniform_width, bounded_mat};

verus! {

/// Combine two operators of N and P columns into one of N * P columns:
/// column `(i, j)` of the result lands at index `i * P + j` and is the
/// Kronecker product of columns `i` and `j` of the operands.
pub trait Kronecker<Rhs>: Sized {
    type Output;

    /// The operand shapes and bounds for which the product is defined.
    spec fn kron_req(&self, rhs: &Rhs) -> bool;

    /// The exact relation between the operands and their product.
    spec fn is_kron_of(&self, rhs: &Rhs, r: &Self::Output) -> bool;

    fn kron(&self, rhs: &Rhs) -> (r: Self::Output)
        requires
            self.kron_req(rhs),
        ensures
            self.is_kron_of(rhs, &r),
    ;
}

impl Kronecker<Bra> for Bra {
    type Output = Bra;

    open spec fn kron_req(&self, rhs: &Bra) -> bool {
        &&& self@.len() >= 1
        &&& rhs@.len() >= 1
        &&& uniform_width(self@, self@[0].len() as int)
        &&& uniform_width(rhs@, rhs@[0].len() as int)
        &&& self@.len() * rhs@.len() <= MAX_DIM
        &&& self@[0].len() * rhs@[0].len() <= MAX_DIM
        &&& bounded_mat(self@, AMP_MAX as int)
        &&& bounded_mat(rhs@, AMP_MAX as int)
    }

    open spec fn is_kron_of(&self, rhs: &Bra, r: &Bra) -> bool {
        is_kron_mat(r@, self@, rhs@)
    }

    fn kron(&self, rhs: &Bra) -> (r: Bra) {
        let n = self.kets.len();
        let p = rhs.kets.len();
        let mut out: Vec<Ket> = Vec::new();
        let mut i: usize = 0;
        while i < n
            invariant
                0 <= i <= n,
                n == self.kets@.len(),
                p == rhs.kets@.len(),
                n * p <= MAX_DIM,
                self@[0].len() * rhs@[0].len() <= MAX_DIM,
                uniform_width(self@, self@[0].len() as int),
                uniform_width(rhs@, rhs@[0].len() as int),
                bounded_mat(self@, AMP_MAX as int),
                bounded_mat(rhs@, AMP_MAX as int),
                out@.len() == i * p,
                forall|a: int, b: int|
                    0 <= a < i && 0 <= b < p ==> crate::arith::is_kron(
                        (#[trigger] out@[a * p + b])@,
                        self@[a],
                        rhs@[b],
                    ),
            decreases n - i,
        {
            proof {
                assert((i + 1) * p <= n * p) by (nonlinear_arith)
                    requires
                        i < n,
                        0 <= p,
                ;
            }
            let mut j: usize = 0;
            while j < p
                invariant
                    0 <= j <= p,
                    0 <= i < n,
                    n == self.kets@.len(),
                    p == rhs.kets@.len(),
                    (i + 1) * p <= n * p,
                    n * p <= MAX_DIM,
                    self@[0].len() * rhs@[0].len() <= MAX_DIM,
                    uniform_width(self@, self@[0].len() as int),
                    uniform_width(rhs@, rhs@[0].len() as int),
                    bounded_mat(self@, AMP_MAX as int),
                    bounded_mat(rhs@, AMP_MAX as int),
                    out@.len() == i * p + j,
                    forall|a: int, b: int|
                        0 <= a < i && 0 <= b < p ==> crate::arith::is_kron(
                            (#[trigger] out@[a * p + b])@,
                            self@[a],
                            rhs@[b],
                        ),
                    forall|b: int|
                        0 <= b < j ==> crate::arith::is_kron(
                            (#[trigger] out@[i * p + b])@,
                            self@[i as int],
                            rhs@[b],
                        ),
                decreases p - j,
            {
                proof {
                    assert(i * p + j < (i + 1) * p) by (nonlinear_arith)
                        requires
                            0 <= j < p,
                    ;
                    assert(self@[i as int] == self.kets@[i as int]@);
                    assert(rhs@[j as int] == rhs.kets@[j as int]@);
                }
                let amps = kron_vec(&self.kets[i].amps, &rhs.kets[j].amps);
                out.push(Ket::new(amps));
                j = j + 1;
                proof {
                    assert forall|a: int, b: int| 0 <= a < i && 0 <= b < p implies crate::arith::is_kron(
                        (#[trigger] out@[a * p + b])@,
                        self@[a],
                        rhs@[b],
                    ) by {
                        assert(a * p + b < i * p) by (nonlinear_arith)
                            requires
                                0 <= a < i,
                                0 <= b < p,
                        ;
                    }
                }
            }
            proof {
                assert((i + 1) * p == i * p + p) by (nonlinear_arith);
            }
            i = i + 1;
        }
        let r = Bra { kets: out };
        proof {
            assert forall|a: int, b: int| 0 <= a < n && 0 <= b < p implies crate::arith::is_kron(
                #[trigger] r@[a * p + b],
                self@[a],
                rhs@[b],
            ) by {
                assert(a * p + b < n * p) by (nonlinear_arith)
                    requires
                        0 <= a < n,
                        0 <= b < p,
                ;
                assert(r@[a * p + b] == out@[a * p + b]@);
            }
        }
        r
    }
}

} // verus!
