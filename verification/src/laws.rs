//! The global laws of the simulator, each proved once and for all inputs:
//! the exact unit-norm reading of probabilities under an orthonormal basis,
//! the involution of transposition, the determinism of measuring an
//! eigenstate, and the involution of the controlled-not gate.

use vstd::prelude::*;
use crate::arith::{dot, norm_sq, lemma_dot_pair};
use crate::basis::Basis;
use crate::braket::{Bra, Ket};
use crate::qubit::Qubit;
use crate::qubit_system::{
    QubitSystem, gather_spec, group_bit, pow2, lemma_pow2_pos, lemma_pow2_divides,
    lemma_sum_abs_group_nonneg, lemma_sum_abs_group_pos_has_nonzero, lemma_group_member_is_gathered,
};
use crate::tensor::Tensor;
use crate::transposable::Transposable;

verus! {

/// An integer vector of squared norm one has a single nonzero entry, and it
/// is a sign.
pub proof fn lemma_unit_pair(a: int, b: int)
    requires
        a * a + b * b == 1,
    ensures
        (a == 0 && (b == 1 || b == -1)) || (b == 0 && (a == 1 || a == -1)),
{
    assert((a == 0 && (b == 1 || b == -1)) || (b == 0 && (a == 1 || a == -1))) by (nonlinear_arith)
        requires
            a * a + b * b == 1,
    ;
}

/// Projecting a two-dimensional vector onto an orthonormal pair preserves
/// its squared norm.
pub proof fn lemma_projection_preserves_norm(x0: int, x1: int, y0: int, y1: int, s0: int, s1: int)
    requires
        x0 * x0 + x1 * x1 == 1,
        y0 * y0 + y1 * y1 == 1,
        x0 * y0 + x1 * y1 == 0,
    ensures
        (x0 * s0 + x1 * s1) * (x0 * s0 + x1 * s1) + (y0 * s0 + y1 * s1) * (y0 * s0 + y1 * s1) == s0 * s0 + s1
            * s1,
{
    lemma_unit_pair(x0, x1);
    lemma_unit_pair(y0, y1);
    assert((x0 * s0 + x1 * s1) * (x0 * s0 + x1 * s1) + (y0 * s0 + y1 * s1) * (y0 * s0 + y1 * s1) == s0 * s0
        + s1 * s1) by (nonlinear_arith)
        requires
            (x0 == 0 && (x1 == 1 || x1 == -1)) || (x1 == 0 && (x0 == 1 || x0 == -1)),
            (y0 == 0 && (y1 == 1 || y1 == -1)) || (y1 == 0 && (y0 == 1 || y0 == -1)),
            x0 * y0 + x1 * y1 == 0,
    ;
}

/// Unit-norm reading of a qubit's outcome weights: in an orthonormal basis
/// the two squared projections add up to the squared norm of the state, so
/// the two probabilities reported by `Qubit::get_probabilities` sum to one
/// exactly.
pub proof fn lemma_qubit_probabilities_sum_to_one(q: &Qubit, basis: &Basis)
    requires
        q.wf(),
        basis.wf(),
        basis.orthonormal(),
    ensures
        q.proj_off(basis) * q.proj_off(basis) + q.proj_on(basis) * q.proj_on(basis) == norm_sq(q@),
{
    let x = basis.off_ket();
    let y = basis.on_ket();
    let s = q@;
    lemma_dot_pair(x, x);
    lemma_dot_pair(y, y);
    lemma_dot_pair(x, y);
    lemma_dot_pair(x, s);
    lemma_dot_pair(y, s);
    lemma_dot_pair(s, s);
    lemma_projection_preserves_norm(
        x[0] as int,
        x[1] as int,
        y[0] as int,
        y[1] as int,
        s[0] as int,
        s[1] as int,
    );
}

/// Unit-norm reading of a composite measurement: in an orthonormal basis
/// the two squared projections of the absolute-weight pair of any qubit add
/// up to that pair's squared norm, so the two probabilities reported by
/// `QubitSystem::get_probabilities` sum to one exactly and the measurement
/// never reports `NormalizationDrift` at its weight check.
pub proof fn lemma_system_probabilities_sum_to_one(sys: &QubitSystem, qubit: u32, basis: &Basis)
    requires
        sys.wf(),
        basis.wf(),
        basis.orthonormal(),
    ensures
        sys.proj(qubit, basis, 0) * sys.proj(qubit, basis, 0) + sys.proj(qubit, basis, 1) * sys.proj(
            qubit,
            basis,
            1,
        ) == sys.prob_den(qubit),
{
    let x = basis.off_ket();
    let y = basis.on_ket();
    lemma_dot_pair(x, x);
    lemma_dot_pair(y, y);
    lemma_dot_pair(x, y);
    lemma_projection_preserves_norm(
        x[0] as int,
        x[1] as int,
        y[0] as int,
        y[1] as int,
        sys.abs_weight(qubit, 0),
        sys.abs_weight(qubit, 1),
    );
}

/// Transpose involution for columns: transposing a `Ket` and transposing
/// the result yields the original column exactly.
pub proof fn lemma_transpose_involution_ket(x: &Ket, t: &Bra, u: &Ket)
    requires
        x.is_transpose(t),
        t.is_transpose(u),
    ensures
        u@ == x@,
{
    assert forall|i: int| 0 <= i < x@.len() implies #[trigger] u@[i] == x@[i] by {
        assert(t@[i] == seq![x@[i]]);
    }
    assert(u@ =~= x@);
}

/// Transpose involution for rows of scalars: transposing a `Bra` of
/// singleton columns and transposing the result yields the original row
/// exactly.
pub proof fn lemma_transpose_involution_bra(x: &Bra, t: &Ket, u: &Bra)
    requires
        x.t_req(),
        x.is_transpose(t),
        t.is_transpose(u),
    ensures
        u@ == x@,
{
    assert forall|i: int| 0 <= i < x@.len() implies #[trigger] u@[i] == x@[i] by {
        assert(u@[i] == seq![t@[i]]);
        assert(x@[i].len() == 1);
        assert(x@[i] =~= seq![x@[i][0]]);
    }
    assert(u@ =~= x@);
}

/// Transpose involution for rank-one tensors: a column dualizes to a column
/// of singletons and back to itself exactly.
pub proof fn lemma_transpose_involution_tensor(x: &Tensor, t: &Tensor, u: &Tensor)
    requires
        x.wf(),
        x.order() == 1,
        x.is_transpose(t),
        t.is_transpose(u),
    ensures
        u.elems@ == x.elems@,
        u.shape@ == x.shape@,
{
    assert(t.shape@ == seq![x.shape@[0], 1usize]);
    assert(t.shape@[1] == 1usize);
    assert(u.shape@ == seq![t.shape@[0]]);
    assert(u.shape@ =~= x.shape@);
}

/// Measuring an eigenstate of an orthonormal basis is deterministic: when
/// the state is the "off" eigenvector, the projection onto the "on"
/// eigenvector is zero, so every draw yields the outcome `false` and the
/// collapsed state is the original one.
pub proof fn lemma_measurement_deterministic_in_eigenbasis(q: &Qubit, basis: &Basis)
    requires
        q.wf(),
        basis.wf(),
        q@ == basis.off_ket(),
        dot(basis.off_ket(), basis.on_ket()) == 0,
    ensures
        q.proj_on(basis) == 0,
        q.proj_on(basis) * q.proj_on(basis) == 0,
{
    lemma_dot_pair(basis.off_ket(), basis.on_ket());
    lemma_dot_pair(basis.on_ket(), q@);
    assert(q.proj_on(basis) == basis.on_ket()[0] * basis.off_ket()[0] + basis.on_ket()[1] * basis.off_ket()[1]);
    assert(basis.off_ket()[0] * basis.on_ket()[0] + basis.off_ket()[1] * basis.on_ket()[1] == basis.on_ket()[0]
        * basis.off_ket()[0] + basis.on_ket()[1] * basis.off_ket()[1]) by (nonlinear_arith);
}

/// A composite measurement in the computational basis always succeeds: for
/// every valid draw, the half of the amplitudes selected by the Born rule
/// carries amplitude, so `measure` returns a system of half the dimension
/// with positive squared norm, for both possible outcomes.
pub proof fn lemma_computational_measurement_succeeds(
    sys: &QubitSystem,
    qubit: u32,
    basis: &Basis,
    draw: u128,
)
    requires
        sys.wf(),
        basis.off_ket() == seq![1i64, 0i64],
        basis.on_ket() == seq![0i64, 1i64],
        QubitSystem::valid_index(sys@.len() as int, qubit),
        draw < sys.prob_den(qubit),
    ensures
        norm_sq(
            gather_spec(
                sys@,
                sys.stride(qubit),
                if (draw as int) < sys.proj(qubit, basis, 1) * sys.proj(qubit, basis, 1) {
                    1int
                } else {
                    0int
                },
            ),
        ) > 0,
{
    let n = sys@.len() as int;
    let e = qubit as nat + 1;
    let d = sys.stride(qubit);
    let w0 = sys.abs_weight(qubit, 0);
    let w1 = sys.abs_weight(qubit, 1);
    lemma_pow2_pos(e);
    lemma_pow2_pos(qubit as nat);
    lemma_pow2_divides(n, e);
    assert(n == d * pow2(e));
    assert(d >= 1) by (nonlinear_arith)
        requires
            n == d * pow2(e),
            pow2(e) <= n,
            pow2(e) >= 1,
            n >= 1,
    ;
    let m = pow2(qubit as nat);
    assert(pow2(e) == 2 * m);
    assert(n == 2 * (d * m)) by (nonlinear_arith)
        requires
            n == d * pow2(e),
            pow2(e) == 2 * m,
    ;
    // In the computational basis the projections are the weights themselves.
    assert(sys.proj(qubit, basis, 0) == w0 && sys.proj(qubit, basis, 1) == w1) by (nonlinear_arith)
        requires
            sys.proj(qubit, basis, 0) == basis.off_ket()[0] * w0 + basis.off_ket()[1] * w1,
            sys.proj(qubit, basis, 1) == basis.on_ket()[0] * w0 + basis.on_ket()[1] * w1,
            basis.off_ket()[0] == 1,
            basis.off_ket()[1] == 0,
            basis.on_ket()[0] == 0,
            basis.on_ket()[1] == 1,
    ;
    lemma_sum_abs_group_nonneg(sys@, d, 0);
    lemma_sum_abs_group_nonneg(sys@, d, 1);
    let g: int = if (draw as int) < w1 * w1 {
        1
    } else {
        0
    };
    if g == 1 {
        assert(w1 > 0) by (nonlinear_arith)
            requires
                0 <= w1,
                (draw as int) < w1 * w1,
                draw >= 0,
        ;
    } else {
        assert(w0 > 0) by (nonlinear_arith)
            requires
                0 <= w0,
                w1 * w1 <= (draw as int),
                (draw as int) < w0 * w0 + w1 * w1,
        ;
    }
    lemma_sum_abs_group_pos_has_nonzero(sys@, d, g);
    let t = choose|t: int| 0 <= t < sys@.len() && group_bit(t, d) == g && sys@[t] != 0;
    lemma_group_member_is_gathered(t, d, g, m);
    let j = (t / (2 * d)) * d + t % d;
    let target = gather_spec(sys@, d, g);
    assert(target.len() == d * m) by (nonlinear_arith)
        requires
            target.len() == sys@.len() as int / 2,
            sys@.len() as int == 2 * (d * m),
    ;
    assert(target[j] == sys@[t]);
    crate::arith::lemma_nonzero_entry_norm_sq_pos(target, j);
}

/// Applying the controlled-not permutation twice is the identity on every
/// four-dimensional state.
pub proof fn lemma_cnot_involution(a: Seq<i64>, b: Seq<i64>, c: Seq<i64>)
    requires
        a.len() == 4,
        b == seq![a[0], a[1], a[3], a[2]],
        c == seq![b[0], b[1], b[3], b[2]],
    ensures
        c == a,
{
    assert(c =~= a);
}

} // verus!
