//! Flattening a rectangular collection of rows into one flat buffer.

use vstd::prelude::*;

verus! {

/// Concatenate N rows of M amplitudes each into one buffer of N * M
/// amplitudes; entry `(i, j)` lands at flat index `i * M + j`.
pub fn flatten_arrays(arrays: Vec<Vec<i64>>, m: usize) -> (r: Vec<i64>)
    requires
        forall|i: int| 0 <= i < arrays@.len() ==> (#[trigger] arrays@[i])@.len() == m,
    ensures
        r@.len() == arrays@.len() * m,
        forall|i: int, j: int|
            0 <= i < arrays@.len() && 0 <= j < m ==> #[trigger] r@[i * m + j] == arrays@[i]@[j],
{
    let n = arrays.len();
    let mut out: Vec<i64> = Vec::new();
    let mut i: usize = 0;
    while i < n
        invariant
            0 <= i <= n,
            n == arrays@.len(),
            forall|p: int| 0 <= p < n ==> (#[trigger] arrays@[p])@.len() == m,
            out@.len() == i * m,
            forall|p: int, q: int|
                0 <= p < i && 0 <= q < m ==> #[trigger] out@[p * m + q] == arrays@[p]@[q],
        decreases n - i,
    {
        let mut j: usize = 0;
        while j < m
            invariant
                0 <= j <= m,
                0 <= i < n,
                n == arrays@.len(),
                forall|p: int| 0 <= p < n ==> (#[trigger] arrays@[p])@.len() == m,
                out@.len() == i * m + j,
                forall|p: int, q: int|
                    0 <= p < i && 0 <= q < m ==> #[trigger] out@[p * m + q] == arrays@[p]@[q],
                forall|q: int| 0 <= q < j ==> #[trigger] out@[i * m + q] == arrays@[i as int]@[q],
            decreases m - j,
        {
            out.push(arrays[i][j]);
            j = j + 1;
            proof {
                assert forall|p: int, q: int| 0 <= p < i && 0 <= q < m implies #[trigger] out@[p * m + q]
                    == arrays@[p]@[q] by {
                    assert(p * m + q < i * m) by (nonlinear_arith)
                        requires
                            0 <= p < i,
                            0 <= q < m,
                    ;
                }
            }
        }
        proof {
            assert((i + 1) * m == i * m + m) by (nonlinear_arith);
        }
        i = i + 1;
    }
    proof {
        assert forall|p: int, q: int| 0 <= p < n && 0 <= q < m implies #[trigger] out@[p * m + q]
            == arrays@[p]@[q] by {
            assert(p * m + q < n * m) by (nonlinear_arith)
                requires
                    0 <= p < n,
                    0 <= q < m,
            ;
        }
    }
    out
}

} // verus!
