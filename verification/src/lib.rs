//! A small quantum-state simulator built on an exact tensor-algebra core.
//!
//! Amplitudes are exact integers; a state is read projectively, so the
//! probability of an outcome is the exact rational `num / den` computed from
//! sums of squared amplitudes.  Shapes are runtime values guarded by
//! contracts instead of compile-time constants.

pub mod arith;
pub mod basis;
pub mod braket;
pub mod errors;
pub mod filter;
pub mod kronecker;
pub mod laws;
pub mod matrix;
pub mod outer_mul;
pub mod qgates;
pub mod qubit;
pub mod qubit_system;
mod sample;
pub mod tensor;
pub mod tensor_mul;
pub mod transposable;
pub mod util;

use vstd::prelude::*;

verus! {

/// Largest magnitude an amplitude may have when it enters an arithmetic
/// operation; keeps every product of two amplitudes, and every sum of at
/// most `MAX_DIM` such products, inside `i64`.
pub const AMP_MAX: i64 = 0x100000;

/// Largest number of amplitudes a vector handled by the algebra may have.
pub const MAX_DIM: usize = 0x10000;

/// All entries of the sequence have magnitude at most `b`.
pub open spec fn bounded(s: Seq<i64>, b: int) -> bool {
    forall|i: int| 0 <= i < s.len() ==> -b <= #[trigger] s[i] <= b
}

} // verus!
