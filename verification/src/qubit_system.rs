//! The joint state of k qubits: a nonzero amplitude vector of length 2^k in
//! the computational tensor-product ordering, qubit 0 outermost.  Systems
//! compose by Kronecker product and shrink by single-qubit measurement.

use vstd::prelude::*;
use vstd::math::abs;
use vstd::arithmetic::div_mod::lemma_fundamental_div_mod;
use vstd::arithmetic::div_mod::lemma_fundamental_div_mod_converse;
use crate::{bounded, AMP_MAX, MAX_DIM};
use crate::arith::{
    norm_sq, sum_abs, is_kron, kron_vec, norm_sq_vec, PROD_MAX, lemma_kron_norm_sq,
    lemma_norm_sq_bounds_entries, lemma_norm_sq_nonneg, lemma_norm_sq_pos_has_nonzero,
    lemma_nonzero_entry_sum_abs_pos, lemma_mul_bound, lemma_square_bound,
};
use crate::basis::Basis;
use crate::braket::Ket;
use crate::errors::QError;
use crate::qubit::{ProbabilityPair, Qubit};
use crate::sample::sample_below;

verus! {

/// Two to the power `e`.
pub open spec fn pow2(e: nat) -> int
    decreases e,
{
    if e == 0 {
        1
    } else {
        2 * pow2((e - 1) as nat)
    }
}

/// `n` is a positive power of two.
pub open spec fn is_pow2(n: int) -> bool
    decreases n,
{
    if n < 1 {
        false
    } else if n == 1 {
        true
    } else {
        n % 2 == 0 && is_pow2(n / 2)
    }
}

/// A power of two exceeds its exponent.
pub proof fn lemma_pow2_exceeds_exponent(e: nat)
    ensures
        pow2(e) > e,
    decreases e,
{
    if e > 0 {
        lemma_pow2_exceeds_exponent((e - 1) as nat);
    }
}

pub proof fn lemma_pow2_pos(e: nat)
    ensures
        pow2(e) >= 1,
    decreases e,
{
    if e > 0 {
        lemma_pow2_pos((e - 1) as nat);
    }
}

/// Powers of two grow with the exponent.
pub proof fn lemma_pow2_increases(e1: nat, e2: nat)
    requires
        e1 <= e2,
    ensures
        pow2(e1) <= pow2(e2),
    decreases e2,
{
    if e1 < e2 {
        lemma_pow2_increases(e1, (e2 - 1) as nat);
        lemma_pow2_pos(e1);
    }
}

/// A product of two powers of two is a power of two.
pub proof fn lemma_is_pow2_mul(a: int, b: int)
    requires
        is_pow2(a),
        is_pow2(b),
    ensures
        is_pow2(a * b),
    decreases a,
{
    if a == 1 {
        assert(a * b == b) by (nonlinear_arith)
            requires
                a == 1,
        ;
    } else {
        lemma_is_pow2_mul(a / 2, b);
        assert(a * b == 2 * ((a / 2) * b) && (a * b) / 2 == (a / 2) * b && (a * b) % 2 == 0) by (nonlinear_arith)
            requires
                a % 2 == 0,
                a >= 2,
                b >= 1,
        ;
        assert(a * b >= 2) by (nonlinear_arith)
            requires
                a >= 2,
                b >= 1,
        ;
    }
}

/// A smaller power of two divides a power of two exactly.
pub proof fn lemma_pow2_divides(n: int, e: nat)
    requires
        is_pow2(n),
        pow2(e) <= n,
    ensures
        n == (n / pow2(e)) * pow2(e),
    decreases e,
{
    if e == 0 {
        lemma_fundamental_div_mod_converse(n, 1, n, 0);
    } else {
        lemma_pow2_pos((e - 1) as nat);
        assert(pow2(e) == 2 * pow2((e - 1) as nat));
        assert(n >= 2);
        assert(n % 2 == 0 && is_pow2(n / 2));
        assert(n == 2 * (n / 2)) by {
            lemma_fundamental_div_mod(n, 2);
        }
        assert(pow2((e - 1) as nat) <= n / 2) by (nonlinear_arith)
            requires
                2 * pow2((e - 1) as nat) <= n,
                n == 2 * (n / 2),
        ;
        lemma_pow2_divides(n / 2, (e - 1) as nat);
        let q = (n / 2) / pow2((e - 1) as nat);
        assert(n == q * pow2(e)) by (nonlinear_arith)
            requires
                n == 2 * (n / 2),
                n / 2 == q * pow2((e - 1) as nat),
                pow2(e) == 2 * pow2((e - 1) as nat),
        ;
        assert(0 <= q) by (nonlinear_arith)
            requires
                n == q * pow2(e),
                n >= 2,
                pow2(e) >= 1,
        ;
        lemma_fundamental_div_mod_converse(n, pow2(e), q, 0);
    }
}

/// The measurement group of flat index `t` for bit stride `d`: 0 when the
/// selected bit of `t` is clear, 1 when it is set.
pub open spec fn group_bit(t: int, d: int) -> int {
    (t / d) % 2
}

/// Sum of the absolute amplitudes at the indices of group `g`.
pub open spec fn sum_abs_group(s: Seq<i64>, d: int, g: int) -> int
    decreases s.len(),
{
    if s.len() == 0 {
        0
    } else {
        sum_abs_group(s.drop_last(), d, g) + if group_bit(s.len() - 1, d) == g {
            abs(s.last() as int)
        } else {
            0
        }
    }
}

/// A prefix group sum grows by the magnitude of the new entry when that
/// entry is in the group, and is unchanged otherwise.
pub proof fn lemma_sum_abs_group_prefix(s: Seq<i64>, d: int, g: int, t: int)
    requires
        0 <= t < s.len(),
    ensures
        sum_abs_group(s.subrange(0, t + 1), d, g) == sum_abs_group(s.subrange(0, t), d, g) + if group_bit(t, d)
            == g {
            abs(s[t] as int)
        } else {
            0
        },
{
    assert(s.subrange(0, t + 1).drop_last() =~= s.subrange(0, t));
}

pub proof fn lemma_sum_abs_group_nonneg(s: Seq<i64>, d: int, g: int)
    ensures
        0 <= sum_abs_group(s, d, g),
    decreases s.len(),
{
    if s.len() > 0 {
        lemma_sum_abs_group_nonneg(s.drop_last(), d, g);
    }
}

pub proof fn lemma_sum_abs_group_bound(s: Seq<i64>, d: int, g: int, p: int)
    requires
        0 <= p,
        bounded(s, p),
    ensures
        sum_abs_group(s, d, g) <= s.len() * p,
    decreases s.len(),
{
    if s.len() == 0 {
    } else {
        assert(bounded(s.drop_last(), p));
        lemma_sum_abs_group_bound(s.drop_last(), d, g, p);
        assert(s.drop_last().len() * p + p == s.len() * p) by (nonlinear_arith)
            requires
                s.drop_last().len() == s.len() - 1,
        ;
    }
}

/// Every index is in exactly one of the two groups, so the two group sums
/// add up to the full absolute sum.
pub proof fn lemma_sum_abs_group_total(s: Seq<i64>, d: int)
    requires
        d >= 1,
    ensures
        sum_abs_group(s, d, 0) + sum_abs_group(s, d, 1) == sum_abs(s),
    decreases s.len(),
{
    if s.len() > 0 {
        lemma_sum_abs_group_total(s.drop_last(), d);
        let t = s.len() - 1;
        assert(0 <= t / d) by (nonlinear_arith)
            requires
                d >= 1,
                t >= 0,
        ;
        assert(group_bit(t, d) == 0 || group_bit(t, d) == 1);
    }
}

/// The flat index of the `j`-th amplitude of group `g` under stride `d`, in
/// increasing order: the selected bit is pinned to `g` and `j` supplies the
/// bits around it.
pub open spec fn gather_index(j: int, d: int, g: int) -> int {
    (j / d) * (2 * d) + g * d + j % d
}

/// The amplitudes of group `g`, in increasing index order: the sub-state
/// consistent with outcome `g` of a measurement with stride `d`.
pub open spec fn gather_spec(s: Seq<i64>, d: int, g: int) -> Seq<i64> {
    Seq::new((s.len() / 2) as nat, |j: int| s[gather_index(j, d, g)])
}

/// A gather index stays inside a vector of `2 * d * m` amplitudes.
pub proof fn lemma_gather_index_in_range(j: int, d: int, g: int, m: int)
    requires
        1 <= d,
        1 <= m,
        0 <= j < d * m,
        0 <= g <= 1,
    ensures
        0 <= gather_index(j, d, g) < 2 * (d * m),
{
    lemma_fundamental_div_mod(j, d);
    let a = j / d;
    let b = j % d;
    assert(a * d <= j) by (nonlinear_arith)
        requires
            j == a * d + b,
            0 <= b,
    ;
    assert(a < m) by (nonlinear_arith)
        requires
            a * d <= j,
            j < d * m,
            d >= 1,
            a >= 0,
    ;
    assert(0 <= a * (2 * d)) by (nonlinear_arith)
        requires
            a >= 0,
            d >= 1,
    ;
    assert(a * (2 * d) + g * d + b < 2 * (d * m)) by (nonlinear_arith)
        requires
            a <= m - 1,
            0 <= b,
            b < d,
            1 <= d,
            0 <= g <= 1,
    ;
}

/// A positive group sum comes from some nonzero amplitude in that group.
pub proof fn lemma_sum_abs_group_pos_has_nonzero(s: Seq<i64>, d: int, g: int)
    requires
        sum_abs_group(s, d, g) > 0,
    ensures
        exists|t: int| 0 <= t < s.len() && group_bit(t, d) == g && s[t] != 0,
    decreases s.len(),
{
    if s.len() == 0 {
    } else if group_bit(s.len() - 1, d) == g && s.last() != 0 {
        assert(s[s.len() - 1] != 0);
    } else {
        lemma_sum_abs_group_nonneg(s.drop_last(), d, g);
        lemma_sum_abs_group_pos_has_nonzero(s.drop_last(), d, g);
        let t = choose|t: int|
            0 <= t < s.drop_last().len() && group_bit(t, d) == g && s.drop_last()[t] != 0;
        assert(s[t] != 0);
    }
}

/// Every index of group `g` is reached by a gather index: the member at
/// flat index `t` appears in the gathered half at position
/// `(t / (2 d)) * d + t % d`.
pub proof fn lemma_group_member_is_gathered(t: int, d: int, g: int, m: int)
    requires
        1 <= d,
        1 <= m,
        0 <= t < 2 * (d * m),
        0 <= g <= 1,
        group_bit(t, d) == g,
    ensures
        0 <= (t / (2 * d)) * d + t % d < d * m,
        gather_index((t / (2 * d)) * d + t % d, d, g) == t,
{
    let q = t / (2 * d);
    let r = t % (2 * d);
    lemma_fundamental_div_mod(t, 2 * d);
    assert(t == q * (2 * d) + r);
    assert(0 <= r < 2 * d);
    assert(0 <= q) by (nonlinear_arith)
        requires
            t == q * (2 * d) + r,
            0 <= t,
            r < 2 * d,
            1 <= d,
    ;
    // The selected bit of t is the bit of r at weight d.
    let h = if r >= d {
        1int
    } else {
        0int
    };
    assert(0 <= r - h * d < d && t == (2 * q + h) * d + (r - h * d)) by (nonlinear_arith)
        requires
            t == q * (2 * d) + r,
            0 <= r < 2 * d,
            1 <= d,
            h == (if r >= d {
                1int
            } else {
                0int
            }),
    ;
    lemma_fundamental_div_mod_converse(t, d, 2 * q + h, r - h * d);
    assert(group_bit(t, d) == (2 * q + h) % 2);
    assert((2 * q + h) % 2 == h) by (nonlinear_arith)
        requires
            0 <= h <= 1,
            0 <= q,
    ;
    assert(h == g);
    let j = q * d + (r - g * d);
    lemma_fundamental_div_mod_converse(j, d, q, r - g * d);
    assert(t % d == r - g * d);
    assert(j / d == q);
    assert(j % d == r - g * d);
    assert(t / (2 * d) == q);
    assert(gather_index(j, d, g) == q * (2 * d) + g * d + (r - g * d));
    assert(q * (2 * d) + g * d + (r - g * d) == t);
    assert(q < m) by (nonlinear_arith)
        requires
            t == q * (2 * d) + r,
            t < 2 * (d * m),
            0 <= r,
            1 <= d,
            0 <= q,
    ;
    assert(j < d * m) by (nonlinear_arith)
        requires
            j == q * d + (r - g * d),
            q <= m - 1,
            r - g * d < d,
            1 <= d,
            0 <= q,
    ;
}

/// The joint state vector of k qubits: 2^k nonzero, in-bound amplitudes.
#[derive(Debug, PartialEq)]
pub struct QubitSystem {
    pub state: Ket,
}

impl View for QubitSystem {
    type V = Seq<i64>;

    open spec fn view(&self) -> Seq<i64> {
        self.state@
    }
}

impl QubitSystem {
    /// A usable joint state: a power-of-two number of in-bound amplitudes,
    /// not all zero.
    pub open spec fn wf(&self) -> bool {
        &&& is_pow2(self@.len() as int)
        &&& self@.len() <= MAX_DIM
        &&& bounded(self@, AMP_MAX as int)
        &&& norm_sq(self@) > 0
    }

    /// Qubit index `qubit` exists in a system of `len` amplitudes.
    pub open spec fn valid_index(len: int, qubit: u32) -> bool {
        pow2(qubit as nat + 1) <= len
    }

    /// The index stride that separates the two halves of qubit `qubit`:
    /// `len / 2^(qubit + 1)`.
    pub open spec fn stride(&self, qubit: u32) -> int {
        self@.len() as int / pow2(qubit as nat + 1)
    }

    /// The total absolute amplitude of the half where qubit `qubit` is `g`.
    pub open spec fn abs_weight(&self, qubit: u32, g: int) -> int {
        sum_abs_group(self@, self.stride(qubit), g)
    }

    /// The projection of the absolute-weight pair of qubit `qubit` onto
    /// eigenvector `which` of the basis.
    pub open spec fn proj(&self, qubit: u32, basis: &Basis, which: int) -> int {
        basis@[which][0] * self.abs_weight(qubit, 0) + basis@[which][1] * self.abs_weight(qubit, 1)
    }

    /// The exact denominator of the outcome probabilities of qubit `qubit`:
    /// the squared norm of its absolute-weight pair.
    pub open spec fn prob_den(&self, qubit: u32) -> int {
        self.abs_weight(qubit, 0) * self.abs_weight(qubit, 0) + self.abs_weight(qubit, 1) * self.abs_weight(
            qubit,
            1,
        )
    }

    /// Lift a single qubit into a one-qubit system.
    pub fn from_qubit(q: Qubit) -> (r: QubitSystem)
        requires
            q.wf(),
        ensures
            r@ == q@,
            r.wf(),
    {
        proof {
            assert(is_pow2(1));
            assert(is_pow2(2));
        }
        QubitSystem { state: q.state }
    }

    /// The state a qubit lifts to.
    pub open spec fn lift_spec(q: Qubit) -> QubitSystem {
        QubitSystem { state: q.state }
    }

    pub fn get_state(&self) -> (r: &Ket)
        ensures
            r@ == self@,
    {
        &self.state
    }

    /// Consume both systems and return their tensor-product composition;
    /// this system's qubits precede the other's, so the amplitude at flat
    /// index `i * M + j` is `self[i] * other[j]`.
    pub fn add_system(self, other: QubitSystem) -> (r: QubitSystem)
        requires
            self.wf(),
            other.wf(),
            self@.len() * other@.len() <= MAX_DIM,
            norm_sq(self@) * norm_sq(other@) <= PROD_MAX,
        ensures
            r.wf(),
            r@.len() == self@.len() * other@.len(),
            is_kron(r@, self@, other@),
            norm_sq(r@) == norm_sq(self@) * norm_sq(other@),
    {
        let out = kron_vec(&self.state.amps, &other.state.amps);
        proof {
            lemma_kron_norm_sq(out@, self@, other@);
            assert(PROD_MAX == (AMP_MAX as int) * (AMP_MAX as int));
            lemma_norm_sq_bounds_entries(out@, AMP_MAX as int);
            lemma_is_pow2_mul(self@.len() as int, other@.len() as int);
            assert(norm_sq(self@) * norm_sq(other@) > 0) by (nonlinear_arith)
                requires
                    norm_sq(self@) > 0,
                    norm_sq(other@) > 0,
            ;
        }
        QubitSystem { state: Ket::new(out) }
    }

    /// The index stride of qubit `qubit`, `len / 2^(qubit + 1)`, computed
    /// by halving; fails exactly on a qubit index the system does not have.
    fn stride_len(&self, qubit: u32) -> (r: Result<usize, QError>)
        requires
            self.wf(),
        ensures
            r is Ok <==> Self::valid_index(self@.len() as int, qubit),
            r matches Err(e) ==> e == QError::InvalidQubitIndex,
            r matches Ok(d) ==> {
                &&& d as int == self.stride(qubit)
                &&& d >= 1
                &&& self@.len() == d * pow2(qubit as nat + 1)
            },
    {
        let n = self.state.amps.len();
        // Halve the length qubit + 1 times; the stride survives exactly
        // when the system has that many qubits.
        let mut d = n;
        let mut e: u32 = 0;
        proof {
            assert(pow2(0) == 1);
            assert(n == d * pow2(0)) by (nonlinear_arith)
                requires
                    d == n,
                    pow2(0) == 1,
            ;
        }
        while e <= qubit && d > 1
            invariant
                0 <= e <= qubit + 1,
                is_pow2(d as int),
                n == d * pow2(e as nat),
                pow2(e as nat) <= n,
                n == self@.len(),
                n <= MAX_DIM,
            decreases qubit + 1 - e,
        {
            proof {
                lemma_pow2_exceeds_exponent(e as nat);
                lemma_pow2_pos(e as nat);
                assert(e < MAX_DIM);
                assert(d % 2 == 0 && is_pow2(d as int / 2));
                assert(d as int / 2 == (d / 2) as int);
                assert(n == (d / 2) * (2 * pow2(e as nat))) by (nonlinear_arith)
                    requires
                        n == d * pow2(e as nat),
                        d % 2 == 0,
                        d >= 2,
                ;
                assert(pow2(e as nat + 1) == 2 * pow2(e as nat));
                assert(pow2(e as nat + 1) <= n) by (nonlinear_arith)
                    requires
                        n == (d as int / 2) * pow2(e as nat + 1),
                        d as int / 2 >= 1,
                        pow2(e as nat + 1) >= 1,
                ;
            }
            d = d / 2;
            e = e + 1;
        }
        if e <= qubit {
            // d reached 1 before the requested bit: the index is out of
            // range.
            proof {
                assert(d == 1);
                assert(n == pow2(e as nat)) by (nonlinear_arith)
                    requires
                        n == d * pow2(e as nat),
                        d == 1,
                ;
                lemma_pow2_increases(e as nat + 1, qubit as nat + 1);
                assert(pow2(e as nat + 1) == 2 * pow2(e as nat));
                lemma_pow2_pos(e as nat);
            }
            return Err(QError::InvalidQubitIndex);
        }
        proof {
            assert(e == qubit + 1);
            assert(d >= 1);
            lemma_pow2_pos(qubit as nat + 1);
            assert(pow2(qubit as nat + 1) <= n);
            lemma_fundamental_div_mod_converse(n as int, pow2(qubit as nat + 1), d as int, 0);
            assert(d as int == self.stride(qubit));
        }
        Ok(d)
    }

    /// Partition the amplitudes into the "qubit is 0" and "qubit is 1"
    /// halves and return the two total absolute amplitudes, unnormalized;
    /// dividing by the squared norm of this pair turns them into the exact
    /// outcome weights.  Fails exactly on a qubit index the system does not
    /// have.
    pub fn sum_abs_probability_amplitudes(&self, qubit: u32) -> (r: Result<Ket, QError>)
        requires
            self.wf(),
        ensures
            r is Ok <==> Self::valid_index(self@.len() as int, qubit),
            r matches Err(e) ==> e == QError::InvalidQubitIndex,
            r matches Ok(k) ==> {
                &&& k@.len() == 2
                &&& k@[0] == self.abs_weight(qubit, 0)
                &&& k@[1] == self.abs_weight(qubit, 1)
                &&& self.stride(qubit) >= 1
            },
    {
        let n = self.state.amps.len();
        let d = match self.stride_len(qubit) {
            Ok(d) => d,
            Err(e) => {
                return Err(e);
            },
        };
        let mut s0: i64 = 0;
        let mut s1: i64 = 0;
        let mut t: usize = 0;
        while t < n
            invariant
                0 <= t <= n,
                n == self@.len() <= MAX_DIM,
                1 <= d,
                d as int == self.stride(qubit),
                bounded(self@, AMP_MAX as int),
                s0 == sum_abs_group(self@.subrange(0, t as int), d as int, 0),
                s1 == sum_abs_group(self@.subrange(0, t as int), d as int, 1),
                0 <= s0 <= (t as int) * (AMP_MAX as int),
                0 <= s1 <= (t as int) * (AMP_MAX as int),
            decreases n - t,
        {
            proof {
                lemma_sum_abs_group_prefix(self@, d as int, 0, t as int);
                lemma_sum_abs_group_prefix(self@, d as int, 1, t as int);
                assert(0 <= (t as int) / (d as int)) by (nonlinear_arith)
                    requires
                        d >= 1,
                        t >= 0,
                ;
            }
            let x = self.state.amps[t];
            let a = if x < 0 {
                -x
            } else {
                x
            };
            if (t / d) % 2 == 0 {
                s0 = s0 + a;
            } else {
                s1 = s1 + a;
            }
            t = t + 1;
        }
        proof {
            assert(self@.subrange(0, n as int) =~= self@);
        }
        let mut amps: Vec<i64> = Vec::new();
        amps.push(s0);
        amps.push(s1);
        Ok(Ket::new(amps))
    }

    /// The absolute amplitudes of the two outcomes and their in-bound range.
    proof fn lemma_weight_bounds(&self, qubit: u32)
        requires
            self.wf(),
        ensures
            0 <= self.abs_weight(qubit, 0) <= 0x1000000000int,
            0 <= self.abs_weight(qubit, 1) <= 0x1000000000int,
    {
        lemma_sum_abs_group_nonneg(self@, self.stride(qubit), 0);
        lemma_sum_abs_group_nonneg(self@, self.stride(qubit), 1);
        lemma_sum_abs_group_bound(self@, self.stride(qubit), 0, AMP_MAX as int);
        lemma_sum_abs_group_bound(self@, self.stride(qubit), 1, AMP_MAX as int);
        assert(self@.len() * (AMP_MAX as int) <= (MAX_DIM as int) * (AMP_MAX as int)) by (nonlinear_arith)
            requires
                self@.len() <= MAX_DIM as int,
                0 <= AMP_MAX as int,
        ;
    }

    /// Project the absolute-weight pair of qubit `qubit` into the requested
    /// measurement basis: the unnormalized probability amplitudes of the two
    /// outcomes.  Fails exactly on a qubit index the system does not have.
    pub fn get_probability_amplitudes(&self, qubit: u32, basis: &Basis) -> (r: Result<Ket, QError>)
        requires
            self.wf(),
            basis.wf(),
        ensures
            r is Ok <==> Self::valid_index(self@.len() as int, qubit),
            r matches Err(e) ==> e == QError::InvalidQubitIndex,
            r matches Ok(k) ==> {
                &&& k@.len() == 2
                &&& k@[0] == self.proj(qubit, basis, 0)
                &&& k@[1] == self.proj(qubit, basis, 1)
            },
    {
        let pair = match self.sum_abs_probability_amplitudes(qubit) {
            Ok(p) => p,
            Err(e) => {
                return Err(e);
            },
        };
        let s0 = pair.amps[0];
        let s1 = pair.amps[1];
        proof {
            self.lemma_weight_bounds(qubit);
            assert(basis@[0] == basis.bra.kets@[0]@);
            assert(basis@[1] == basis.bra.kets@[1]@);
            lemma_mul_bound(basis@[0][0] as int, AMP_MAX as int, s0 as int, 0x1000000000int);
            lemma_mul_bound(basis@[0][1] as int, AMP_MAX as int, s1 as int, 0x1000000000int);
            lemma_mul_bound(basis@[1][0] as int, AMP_MAX as int, s0 as int, 0x1000000000int);
            lemma_mul_bound(basis@[1][1] as int, AMP_MAX as int, s1 as int, 0x1000000000int);
        }
        let p0 = basis.bra.kets[0].amps[0] * s0 + basis.bra.kets[0].amps[1] * s1;
        let p1 = basis.bra.kets[1].amps[0] * s0 + basis.bra.kets[1].amps[1] * s1;
        let mut amps: Vec<i64> = Vec::new();
        amps.push(p0);
        amps.push(p1);
        Ok(Ket::new(amps))
    }

    /// The Born rule, exactly: the probability of each outcome of measuring
    /// qubit `qubit` in the basis is the squared projection divided by the
    /// squared norm of the absolute-weight pair.  Fails exactly on a qubit
    /// index the system does not have.
    pub fn get_probabilities(&self, qubit: u32, basis: &Basis) -> (r: Result<ProbabilityPair, QError>)
        requires
            self.wf(),
            basis.wf(),
        ensures
            r is Ok <==> Self::valid_index(self@.len() as int, qubit),
            r matches Err(e) ==> e == QError::InvalidQubitIndex,
            r matches Ok(pp) ==> {
                &&& pp.off_num == self.proj(qubit, basis, 0) * self.proj(qubit, basis, 0)
                &&& pp.on_num == self.proj(qubit, basis, 1) * self.proj(qubit, basis, 1)
                &&& pp.den == self.prob_den(qubit)
                &&& 0 < pp.den <= 0x2000000000000000000int
                &&& 0 <= pp.off_num <= 0x40000000000000000000000000000int
                &&& 0 <= pp.on_num <= 0x40000000000000000000000000000int
            },
    {
        let amps = match self.get_probability_amplitudes(qubit, basis) {
            Ok(a) => a,
            Err(e) => {
                return Err(e);
            },
        };
        let pair = match self.sum_abs_probability_amplitudes(qubit) {
            Ok(p) => p,
            Err(e) => {
                return Err(e);
            },
        };
        let p0 = amps.amps[0];
        let p1 = amps.amps[1];
        let s0 = pair.amps[0];
        let s1 = pair.amps[1];
        proof {
            self.lemma_weight_bounds(qubit);
            lemma_mul_bound(basis@[0][0] as int, AMP_MAX as int, self.abs_weight(qubit, 0), 0x1000000000int);
            lemma_mul_bound(basis@[0][1] as int, AMP_MAX as int, self.abs_weight(qubit, 1), 0x1000000000int);
            lemma_mul_bound(basis@[1][0] as int, AMP_MAX as int, self.abs_weight(qubit, 0), 0x1000000000int);
            lemma_mul_bound(basis@[1][1] as int, AMP_MAX as int, self.abs_weight(qubit, 1), 0x1000000000int);
            lemma_square_bound(p0 as int, 0x200000000000000int);
            lemma_square_bound(p1 as int, 0x200000000000000int);
            lemma_square_bound(s0 as int, 0x1000000000int);
            lemma_square_bound(s1 as int, 0x1000000000int);
            // The denominator is positive: some amplitude is nonzero, so
            // one of the two group sums is positive.
            lemma_norm_sq_pos_has_nonzero(self@);
            let i = choose|i: int| 0 <= i < self@.len() && self@[i] != 0;
            lemma_nonzero_entry_sum_abs_pos(self@, i);
            lemma_sum_abs_group_total(self@, self.stride(qubit));
            assert(s0 > 0 || s1 > 0);
            assert(s0 > 0 ==> (s0 as int) * (s0 as int) > 0) by (nonlinear_arith);
            assert(s1 > 0 ==> (s1 as int) * (s1 as int) > 0) by (nonlinear_arith);
        }
        let off_num = (p0 as i128) * (p0 as i128);
        let on_num = (p1 as i128) * (p1 as i128);
        let den = (s0 as i128) * (s0 as i128) + (s1 as i128) * (s1 as i128);
        Ok(ProbabilityPair { off_num, on_num, den })
    }

    /// The deterministic core of the composite collapse: given the uniform
    /// draw below the probability denominator of qubit `qubit`, decide the
    /// outcome by the Born rule, gather the half of the amplitudes
    /// consistent with it, and return the smaller system together with the
    /// resolved single-qubit state.  Fails only when the selected half
    /// carries no amplitude, which a skew basis can cause.
    pub fn measure_with_draw(self, qubit: u32, basis: &Basis, draw: u128) -> (r: Result<
        (QubitSystem, Qubit),
        QError,
    >)
        requires
            self.wf(),
            basis.wf(),
            Self::valid_index(self@.len() as int, qubit),
            draw < self.prob_den(qubit),
        ensures
            r is Ok <==> norm_sq(
                gather_spec(
                    self@,
                    self.stride(qubit),
                    if (draw as int) < self.proj(qubit, basis, 1) * self.proj(qubit, basis, 1) {
                        1int
                    } else {
                        0int
                    },
                ),
            ) > 0,
            r matches Err(e) ==> e == QError::NormalizationDrift,
            r matches Ok(pair) ==> {
                &&& pair.0@ == gather_spec(
                    self@,
                    self.stride(qubit),
                    if (draw as int) < self.proj(qubit, basis, 1) * self.proj(qubit, basis, 1) {
                        1int
                    } else {
                        0int
                    },
                )
                &&& pair.0@.len() * 2 == self@.len()
                &&& pair.0.wf()
                &&& pair.1.wf()
                &&& ((draw as int) < self.proj(qubit, basis, 1) * self.proj(qubit, basis, 1) ==> pair.1@
                    == basis.on_ket())
                &&& (!((draw as int) < self.proj(qubit, basis, 1) * self.proj(qubit, basis, 1)) ==> pair.1@
                    == basis.off_ket())
            },
    {
        let n = self.state.amps.len();
        let d = match self.stride_len(qubit) {
            Ok(d) => d,
            Err(_) => {
                // Unreachable: the index was required to be valid.
                proof {
                    assert(false);
                }
                return Err(QError::NormalizationDrift);
            },
        };
        let probs = match self.get_probabilities(qubit, basis) {
            Ok(p) => p,
            Err(_) => {
                // Unreachable: the index was required to be valid.
                proof {
                    assert(false);
                }
                return Err(QError::NormalizationDrift);
            },
        };
        let is_on = (draw as i128) < probs.on_num;
        let ghost g: int = if is_on {
            1
        } else {
            0
        };
        let offset: usize = if is_on {
            d
        } else {
            0
        };
        proof {
            assert(pow2(qubit as nat + 1) == 2 * pow2(qubit as nat));
            lemma_pow2_pos(qubit as nat);
            assert(n == (d * pow2(qubit as nat)) * 2 && d * pow2(qubit as nat) >= d >= 1) by (nonlinear_arith)
                requires
                    n == d * (2 * pow2(qubit as nat)),
                    d >= 1,
                    pow2(qubit as nat) >= 1,
            ;
        }
        let half = n / 2;
        proof {
            assert(half == d * pow2(qubit as nat));
            assert(half == gather_spec(self@, d as int, g).len());
            assert(g * (d as int) == if is_on {
                d as int
            } else {
                0int
            }) by (nonlinear_arith)
                requires
                    g == (if is_on {
                        1int
                    } else {
                        0int
                    }),
            ;
        }
        let mut out: Vec<i64> = Vec::new();
        let mut j: usize = 0;
        while j < half
            invariant
                0 <= j <= half,
                n == self@.len(),
                n == 2 * half,
                1 <= d,
                half == d * pow2(qubit as nat),
                offset == g * d,
                g == if is_on {
                    1int
                } else {
                    0int
                },
                bounded(self@, AMP_MAX as int),
                out@.len() == j,
                forall|p: int| 0 <= p < j ==> #[trigger] out@[p] == self@[gather_index(p, d as int, g)],
            decreases half - j,
        {
            let a = j / d;
            let b = j % d;
            proof {
                lemma_pow2_pos(qubit as nat);
                lemma_gather_index_in_range(j as int, d as int, g, pow2(qubit as nat));
                lemma_fundamental_div_mod(j as int, d as int);
                assert(2 * ((d as int) * pow2(qubit as nat)) == n);
                assert((d as int) * 2 <= n) by (nonlinear_arith)
                    requires
                        n as int == 2 * ((d as int) * pow2(qubit as nat)),
                        d >= 1,
                        pow2(qubit as nat) >= 1,
                ;
                assert((a as int) * (2 * (d as int)) + (offset as int) + (b as int) == gather_index(
                    j as int,
                    d as int,
                    g,
                ));
            }
            let idx = a * (2 * d) + offset + b;
            proof {
                assert(idx as int == gather_index(j as int, d as int, g));
            }
            out.push(self.state.amps[idx]);
            j = j + 1;
        }
        proof {
            assert(out@ =~= gather_spec(self@, d as int, g));
            assert forall|p: int| 0 <= p < out@.len() implies -(AMP_MAX as int) <= #[trigger] out@[p]
                <= AMP_MAX as int by {
                lemma_pow2_pos(qubit as nat);
                lemma_gather_index_in_range(p, d as int, g, pow2(qubit as nat));
            }
        }
        let norm = norm_sq_vec(&out);
        if norm == 0 {
            return Err(QError::NormalizationDrift);
        }
        proof {
            lemma_norm_sq_nonneg(out@);
            assert(is_pow2(half as int)) by {
                assert(is_pow2(n as int));
                assert(n >= 2);
                assert(n as int / 2 == half as int);
            }
            assert(basis@[0] == basis.bra.kets@[0]@);
            assert(basis@[1] == basis.bra.kets@[1]@);
        }
        let new_qubit = Qubit { state: if is_on {
            basis.bra.kets[1].clone()
        } else {
            basis.bra.kets[0].clone()
        } };
        let system = QubitSystem { state: Ket::new(out) };
        Ok((system, new_qubit))
    }

    /// Measure qubit `qubit` in the given basis: check that the two outcome
    /// weights exhaust the whole (else the basis is skew and the call fails
    /// with `NormalizationDrift`), sample an outcome with the exact Born
    /// weights, and collapse to the consistent half, a system of half the
    /// dimension, paired with the resolved single-qubit state.  Consumes the
    /// measured system.  Fails with `InvalidQubitIndex` exactly on a qubit
    /// index the system does not have.
    pub fn measure(self, qubit: u32, basis: &Basis) -> (r: Result<(QubitSystem, Qubit), QError>)
        requires
            self.wf(),
            basis.wf(),
        ensures
            !Self::valid_index(self@.len() as int, qubit) <==> r == Err::<(QubitSystem, Qubit), QError>(
                QError::InvalidQubitIndex,
            ),
            Self::valid_index(self@.len() as int, qubit) && self.proj(qubit, basis, 0) * self.proj(
                qubit,
                basis,
                0,
            ) + self.proj(qubit, basis, 1) * self.proj(qubit, basis, 1) != self.prob_den(qubit) ==> r
                == Err::<(QubitSystem, Qubit), QError>(QError::NormalizationDrift),
            Self::valid_index(self@.len() as int, qubit) && self.proj(qubit, basis, 0) * self.proj(
                qubit,
                basis,
                0,
            ) + self.proj(qubit, basis, 1) * self.proj(qubit, basis, 1) == self.prob_den(qubit) && norm_sq(
                gather_spec(self@, self.stride(qubit), 0),
            ) > 0 && norm_sq(gather_spec(self@, self.stride(qubit), 1)) > 0 ==> r is Ok,
            r == Err::<(QubitSystem, Qubit), QError>(QError::NormalizationDrift) ==> self.proj(
                qubit,
                basis,
                0,
            ) * self.proj(qubit, basis, 0) + self.proj(qubit, basis, 1) * self.proj(qubit, basis, 1)
                != self.prob_den(qubit) || norm_sq(gather_spec(self@, self.stride(qubit), 0)) == 0
                || norm_sq(gather_spec(self@, self.stride(qubit), 1)) == 0,
            r matches Ok(pair) ==> {
                &&& Self::valid_index(self@.len() as int, qubit)
                &&& pair.0@.len() * 2 == self@.len()
                &&& pair.0.wf()
                &&& pair.1.wf()
                &&& norm_sq(pair.0@) > 0
                &&& ((pair.1@ == basis.on_ket() && pair.0@ == gather_spec(self@, self.stride(qubit), 1)) || (
                pair.1@ == basis.off_ket() && pair.0@ == gather_spec(self@, self.stride(qubit), 0)))
            },
    {
        let probs = match self.get_probabilities(qubit, basis) {
            Ok(p) => p,
            Err(_) => {
                return Err(QError::InvalidQubitIndex);
            },
        };
        if probs.off_num + probs.on_num != probs.den {
            return Err(QError::NormalizationDrift);
        }
        let draw = sample_below(probs.den as u128);
        proof {
            lemma_norm_sq_nonneg(gather_spec(self@, self.stride(qubit), 0));
            lemma_norm_sq_nonneg(gather_spec(self@, self.stride(qubit), 1));
        }
        self.measure_with_draw(qubit, basis, draw)
    }
}

/// A single qubit is a one-qubit system.
impl From<Qubit> for QubitSystem {
    fn from(value: Qubit) -> (r: QubitSystem) {
        QubitSystem { state: value.state }
    }
}

impl vstd::std_specs::convert::FromSpecImpl<Qubit> for QubitSystem {
    open spec fn obeys_from_spec() -> bool {
        true
    }

    open spec fn from_spec(value: Qubit) -> QubitSystem {
        QubitSystem::lift_spec(value)
    }
}

} // verus!
