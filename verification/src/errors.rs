//! The error taxonomy of the simulator.

use vstd::prelude::*;

verus! {

/// What can go wrong when reading or measuring a state.
#[derive(Clone, Copy, Debug, PartialEq, Eq, Structural)]
pub enum QError {
    /// The requested qubit index is at least the number of qubits of the
    /// system.
    InvalidQubitIndex,
    /// A projection produced an outcome distribution that does not add up to
    /// the whole, or a collapse that would leave the zero vector: the basis
    /// is skew for this operation.
    NormalizationDrift,
}

} // verus!
