//! The injected randomness: one draw of a uniform value below a bound.
//! Everything the simulator concludes from a draw is proved for every value
//! the draw can take.

use vstd::prelude::*;
use rand::Rng;

verus! {

/// Relies on rand's `Rng::gen_range` over the half-open range `0..den`: the
/// sampled value is always strictly below `den`, and the range is nonempty
/// because `den > 0`.
#[verifier::external_body]
pub(crate) fn sample_below(den: u128) -> (r: u128)
    requires
        den > 0,
    ensures
        r < den,
{
    rand::thread_rng().gen_range(0..den)
}

} // verus!
