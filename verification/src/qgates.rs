//! Fixed gates, expressed as operators applied through the algebra's
//! `Bra * Ket` multiply.

use vstd::prelude::*;
use crate::{bounded, AMP_MAX};
use crate::arith::{lemma_nonzero_entry_norm_sq_pos, lemma_norm_sq_pos_has_nonzero};
use crate::braket::{Bra, Ket, lemma_col_dot_four};
use crate::qubit_system::QubitSystem;

verus! {

/// The controlled-not gate on a two-qubit system: the 4 x 4 permutation
/// that swaps the last two basis amplitudes, applied as a `Bra * Ket`
/// multiply.  On the computational basis it flips the target qubit exactly
/// when the control qubit is set.
pub fn cnot(system: QubitSystem) -> (r: QubitSystem)
    requires
        system.wf(),
        system@.len() == 4,
    ensures
        r.wf(),
        r@ == seq![system@[0], system@[1], system@[3], system@[2]],
{
    let gate = Bra::new(vec![
        Ket::new(vec![1i64, 0, 0, 0]),
        Ket::new(vec![0i64, 1, 0, 0]),
        Ket::new(vec![0i64, 0, 0, 1]),
        Ket::new(vec![0i64, 0, 1, 0]),
    ]);
    proof {
        assert(gate@.len() == 4);
        assert(gate@[0] =~= seq![1i64, 0i64, 0i64, 0i64]);
        assert(gate@[1] =~= seq![0i64, 1i64, 0i64, 0i64]);
        assert(gate@[2] =~= seq![0i64, 0i64, 0i64, 1i64]);
        assert(gate@[3] =~= seq![0i64, 0i64, 1i64, 0i64]);
        assert forall|i: int| 0 <= i < gate@.len() implies bounded(#[trigger] gate@[i], AMP_MAX as int) by {
            assert(gate@[i].len() == 4);
        }
    }
    let ghost v = system@;
    let out = gate.mul(system.state);
    proof {
        lemma_col_dot_four(gate@, v, 0);
        lemma_col_dot_four(gate@, v, 1);
        lemma_col_dot_four(gate@, v, 2);
        lemma_col_dot_four(gate@, v, 3);
        assert(out@ =~= seq![v[0], v[1], v[3], v[2]]);
        // The permuted state is nonzero because the original is.
        lemma_norm_sq_pos_has_nonzero(v);
        let i = choose|i: int| 0 <= i < v.len() && v[i] != 0;
        if i == 2 {
            lemma_nonzero_entry_norm_sq_pos(out@, 3);
        } else if i == 3 {
            lemma_nonzero_entry_norm_sq_pos(out@, 2);
        } else {
            lemma_nonzero_entry_norm_sq_pos(out@, i);
        }
    }
    QubitSystem { state: out }
}

} // verus!
