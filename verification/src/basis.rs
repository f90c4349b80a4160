//! A measurement basis: two eigenvectors of dimension two, the "off"
//! direction first.  The 0 degree and 90 degree bases are exact; a rotated
//! basis built from trigonometry lives outside the exact core.

use vstd::prelude::*;
use crate::{bounded, AMP_MAX};
use crate::arith::{dot, norm_sq};
use crate::braket::{Bra, Ket, bounded_mat};

verus! {

/// A change-of-basis operator: a `Bra` of two eigenkets of dimension two.
#[derive(Debug, PartialEq)]
pub struct Basis {
    pub bra: Bra,
}

impl View for Basis {
    type V = Seq<Seq<i64>>;

    open spec fn view(&self) -> Seq<Seq<i64>> {
        self.bra@
    }
}

impl Clone for Basis {
    fn clone(&self) -> (r: Self)
        ensures
            r@ == self@,
    {
        Basis { bra: self.bra.clone() }
    }
}

impl Basis {
    /// Two eigenvectors of dimension two, each a usable (nonzero, in-bound)
    /// state vector.
    pub open spec fn wf(&self) -> bool {
        &&& self@.len() == 2
        &&& self@[0].len() == 2
        &&& self@[1].len() == 2
        &&& bounded_mat(self@, AMP_MAX as int)
        &&& norm_sq(self@[0]) > 0
        &&& norm_sq(self@[1]) > 0
    }

    /// Orthonormal in the exact model: both eigenvectors have squared norm
    /// one and are orthogonal.
    pub open spec fn orthonormal(&self) -> bool {
        &&& norm_sq(self@[0]) == 1
        &&& norm_sq(self@[1]) == 1
        &&& dot(self@[0], self@[1]) == 0
    }

    /// The eigenvector of the `false` ("off") outcome.
    pub open spec fn off_ket(&self) -> Seq<i64> {
        self@[0]
    }

    /// The eigenvector of the `true` ("on") outcome.
    pub open spec fn on_ket(&self) -> Seq<i64> {
        self@[1]
    }

    /// Build a basis from two supplied eigenkets.  No orthonormality check
    /// is performed: projections through a skew basis are reported as
    /// `NormalizationDrift` where they matter.
    pub fn new(x: Ket, y: Ket) -> (r: Basis)
        requires
            x@.len() == 2,
            y@.len() == 2,
            bounded(x@, AMP_MAX as int),
            bounded(y@, AMP_MAX as int),
            norm_sq(x@) > 0,
            norm_sq(y@) > 0,
        ensures
            r.wf(),
            r.off_ket() == x@,
            r.on_ket() == y@,
    {
        let mut kets: Vec<Ket> = Vec::new();
        kets.push(x);
        kets.push(y);
        let r = Basis { bra: Bra::new(kets) };
        proof {
            assert(r@.len() == 2);
            assert(r@[0] =~= r.bra.kets@[0]@);
            assert(r@[1] =~= r.bra.kets@[1]@);
        }
        r
    }

    pub fn as_bra(&self) -> (r: &Bra)
        ensures
            r@ == self@,
    {
        &self.bra
    }

    pub fn into_bra(self) -> (r: Bra)
        ensures
            r@ == self@,
    {
        self.bra
    }

    /// The computational (0 degree) basis: the exact identity operator.
    pub fn deg_0() -> (r: Basis)
        ensures
            r.wf(),
            r.orthonormal(),
            r.off_ket() == seq![1i64, 0i64],
            r.on_ket() == seq![0i64, 1i64],
    {
        let mut x: Vec<i64> = Vec::new();
        x.push(1);
        x.push(0);
        let mut y: Vec<i64> = Vec::new();
        y.push(0);
        y.push(1);
        proof {
            assert(x@ =~= seq![1i64, 0i64]);
            assert(y@ =~= seq![0i64, 1i64]);
            crate::arith::lemma_dot_pair(x@, x@);
            crate::arith::lemma_dot_pair(y@, y@);
        }
        let r = Basis::new(Ket::new(x), Ket::new(y));
        proof {
            crate::arith::lemma_dot_pair(r.off_ket(), r.on_ket());
        }
        r
    }

    /// The 90 degree basis: the exact quarter-turn rotation.
    pub fn deg_90() -> (r: Basis)
        ensures
            r.wf(),
            r.orthonormal(),
            r.off_ket() == seq![0i64, 1i64],
            r.on_ket() == seq![1i64, 0i64],
    {
        let mut x: Vec<i64> = Vec::new();
        x.push(0);
        x.push(1);
        let mut y: Vec<i64> = Vec::new();
        y.push(1);
        y.push(0);
        proof {
            assert(x@ =~= seq![0i64, 1i64]);
            assert(y@ =~= seq![1i64, 0i64]);
            crate::arith::lemma_dot_pair(x@, x@);
            crate::arith::lemma_dot_pair(y@, y@);
        }
        let r = Basis::new(Ket::new(x), Ket::new(y));
        proof {
            crate::arith::lemma_dot_pair(r.off_ket(), r.on_ket());
        }
        r
    }
}

} // verus!
