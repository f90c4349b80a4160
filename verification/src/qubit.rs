//! A single qubit: a two-dimensional nonzero state vector, read
//! projectively.  The probability of an outcome is the exact rational
//! `num / den` reported by `get_probabilities`.

use vstd::prelude::*;
use crate::{bounded, AMP_MAX};
use crate::arith::{dot, norm_sq, norm_sq_vec, dot_vec, lemma_dot_pair, lemma_dot_bound, lemma_square_bound};
use crate::basis::Basis;
use crate::braket::Ket;
use crate::sample::sample_below;

verus! {

/// The two outcome weights of a projective measurement, as one exact
/// rational pair: the "off" outcome has probability `off_num / den` and the
/// "on" outcome `on_num / den`.
#[derive(Clone, Copy, Debug, PartialEq, Eq, Structural)]
pub struct ProbabilityPair {
    pub off_num: i128,
    pub on_num: i128,
    pub den: i128,
}

/// A two-dimensional quantum state with a nonzero amplitude vector.
#[derive(Debug, PartialEq)]
pub struct Qubit {
    pub state: Ket,
}

impl View for Qubit {
    type V = Seq<i64>;

    open spec fn view(&self) -> Seq<i64> {
        self.state@
    }
}

impl Qubit {
    /// A usable qubit: two in-bound amplitudes, not both zero.
    pub open spec fn wf(&self) -> bool {
        &&& self@.len() == 2
        &&& bounded(self@, AMP_MAX as int)
        &&& norm_sq(self@) > 0
    }

    /// The projection of the state onto the `false` eigenvector of a basis.
    pub open spec fn proj_off(&self, basis: &Basis) -> int {
        dot(basis.off_ket(), self@)
    }

    /// The projection of the state onto the `true` eigenvector of a basis.
    pub open spec fn proj_on(&self, basis: &Basis) -> int {
        dot(basis.on_ket(), self@)
    }

    /// Construct from explicit amplitudes.  The caller supplies a usable
    /// (nonzero) amplitude pair; no normalization is performed.
    pub fn new(a: i64, b: i64) -> (r: Qubit)
        requires
            -AMP_MAX <= a <= AMP_MAX,
            -AMP_MAX <= b <= AMP_MAX,
            a != 0 || b != 0,
        ensures
            r@ == seq![a, b],
            r.wf(),
    {
        let mut amps: Vec<i64> = Vec::new();
        amps.push(a);
        amps.push(b);
        proof {
            assert(amps@ =~= seq![a, b]);
            lemma_dot_pair(amps@, amps@);
            assert(a != 0 ==> a * a > 0) by (nonlinear_arith);
            assert(b != 0 ==> b * b > 0) by (nonlinear_arith);
            assert(a * a >= 0 && b * b >= 0) by (nonlinear_arith);
        }
        Qubit { state: Ket::new(amps) }
    }

    pub fn get_state(&self) -> (r: &Ket)
        ensures
            r@ == self@,
    {
        &self.state
    }

    /// The projection of the state onto the two eigenvectors of the basis:
    /// the unnormalized probability amplitudes of the two outcomes.
    pub fn get_probability_amplitudes(&self, basis: &Basis) -> (r: Ket)
        requires
            self.wf(),
            basis.wf(),
        ensures
            r@.len() == 2,
            r@[0] == self.proj_off(basis),
            r@[1] == self.proj_on(basis),
    {
        proof {
            assert(basis@[0] == basis.bra.kets@[0]@);
            assert(basis@[1] == basis.bra.kets@[1]@);
        }
        let p0 = dot_vec(&basis.bra.kets[0].amps, &self.state.amps);
        let p1 = dot_vec(&basis.bra.kets[1].amps, &self.state.amps);
        let mut amps: Vec<i64> = Vec::new();
        amps.push(p0);
        amps.push(p1);
        Ket::new(amps)
    }

    /// The Born rule, exactly: the probability of each outcome is the
    /// squared projection divided by the squared norm of the state.
    pub fn get_probabilities(&self, basis: &Basis) -> (r: ProbabilityPair)
        requires
            self.wf(),
            basis.wf(),
        ensures
            r.off_num == self.proj_off(basis) * self.proj_off(basis),
            r.on_num == self.proj_on(basis) * self.proj_on(basis),
            r.den == norm_sq(self@),
            0 < r.den,
            0 <= r.off_num,
            0 <= r.on_num,
    {
        let amps = self.get_probability_amplitudes(basis);
        let p0 = amps.amps[0];
        let p1 = amps.amps[1];
        proof {
            assert(basis@[0].len() == 2 && basis@[1].len() == 2);
            lemma_dot_bound(basis@[0], self@, AMP_MAX as int, AMP_MAX as int);
            lemma_dot_bound(basis@[1], self@, AMP_MAX as int, AMP_MAX as int);
            assert(-0x20000000000int <= p0 as int <= 0x20000000000int);
            assert(-0x20000000000int <= p1 as int <= 0x20000000000int);
            lemma_square_bound(p0 as int, 0x20000000000int);
            lemma_square_bound(p1 as int, 0x20000000000int);
        }
        let off_num = (p0 as i128) * (p0 as i128);
        let on_num = (p1 as i128) * (p1 as i128);
        let den = norm_sq_vec(&self.state.amps) as i128;
        ProbabilityPair { off_num, on_num, den }
    }

    /// The deterministic core of measurement: given the uniform draw below
    /// the squared norm of the state, decide the outcome by the Born rule
    /// and collapse the state to the chosen eigenvector.
    pub fn measure_with_draw(&mut self, basis: &Basis, draw: u128) -> (r: bool)
        requires
            old(self).wf(),
            basis.wf(),
            draw < norm_sq(old(self)@),
        ensures
            r == ((draw as int) < old(self).proj_on(basis) * old(self).proj_on(basis)),
            r ==> final(self)@ == basis.on_ket(),
            !r ==> final(self)@ == basis.off_ket(),
            final(self).wf(),
    {
        let probs = self.get_probabilities(basis);
        proof {
            lemma_dot_bound(self@, self@, AMP_MAX as int, AMP_MAX as int);
        }
        let is_on = (draw as i128) < probs.on_num;
        if is_on {
            self.state = basis.bra.kets[1].clone();
        } else {
            self.state = basis.bra.kets[0].clone();
        }
        proof {
            assert(basis@[0] == basis.bra.kets@[0]@);
            assert(basis@[1] == basis.bra.kets@[1]@);
        }
        is_on
    }

    /// Measure in the given basis: sample an outcome with the exact Born
    /// weights, collapse the state to the matching eigenvector, and report
    /// the outcome.  A subsequent measurement in the same orthonormal basis
    /// is deterministic.
    pub fn measure(&mut self, basis: &Basis) -> (r: bool)
        requires
            old(self).wf(),
            basis.wf(),
        ensures
            r ==> final(self)@ == basis.on_ket() && old(self).proj_on(basis) != 0,
            !r ==> final(self)@ == basis.off_ket()
                && old(self).proj_on(basis) * old(self).proj_on(basis) < norm_sq(old(self)@),
            final(self).wf(),
    {
        let den = norm_sq_vec(&self.state.amps);
        let draw = sample_below(den as u128);
        let r = self.measure_with_draw(basis, draw);
        proof {
            if r {
                let p = old(self).proj_on(basis);
                assert(p * p > draw as int >= 0);
                assert(p == 0 ==> p * p == 0) by (nonlinear_arith);
            }
        }
        r
    }
}

} // verus!
