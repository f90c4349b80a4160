//! Mathematical model of the amplitude arithmetic: contraction, squared
//! norm, absolute sums and the Kronecker index law, together with the lemmas
//! the executable operations are proved against.

use vstd::prelude::*;
use vstd::math::abs;
use crate::{bounded, AMP_MAX, MAX_DIM};

verus! {

/// Largest product of two in-bound amplitudes: `AMP_MAX * AMP_MAX`.
pub const PROD_MAX: i64 = 0x10000000000;

/// Sum over `i` of `a[i] * b[i]`: the contraction of two equal-length
/// amplitude vectors.
pub open spec fn dot(a: Seq<i64>, b: Seq<i64>) -> int
    recommends
        a.len() == b.len(),
    decreases a.len(),
{
    if a.len() == 0 {
        0
    } else {
        dot(a.drop_last(), b.drop_last()) + a.last() * b.last()
    }
}

/// Sum of squared amplitudes: the squared L2 norm.
pub open spec fn norm_sq(s: Seq<i64>) -> int {
    dot(s, s)
}

/// Sum of absolute amplitudes.
pub open spec fn sum_abs(s: Seq<i64>) -> int
    decreases s.len(),
{
    if s.len() == 0 {
        0
    } else {
        sum_abs(s.drop_last()) + abs(s.last() as int)
    }
}

/// `c` is the Kronecker product of `a` (size N) and `b` (size M): the entry
/// at combined index `i * M + j` is `a[i] * b[j]`.
pub open spec fn is_kron(c: Seq<i64>, a: Seq<i64>, b: Seq<i64>) -> bool {
    &&& c.len() == a.len() * b.len()
    &&& forall|i: int, j: int|
        0 <= i < a.len() && 0 <= j < b.len() ==> #[trigger] c[i * b.len() + j] == a[i] * b[j]
}

/// `c` is the Kronecker product of the two collections of columns `a` (N
/// columns of height M) and `b` (P columns of height Q): column `i * P + j`
/// of the result is the Kronecker product of columns `a[i]` and `b[j]`, so
/// its entry `x * Q + y` is `a[i][x] * b[j][y]`.
pub open spec fn is_kron_mat(c: Seq<Seq<i64>>, a: Seq<Seq<i64>>, b: Seq<Seq<i64>>) -> bool {
    &&& c.len() == a.len() * b.len()
    &&& forall|i: int, j: int|
        0 <= i < a.len() && 0 <= j < b.len() ==> is_kron(#[trigger] c[i * b.len() + j], a[i], b[j])
}

/// A prefix contraction grows by one product per entry.
pub proof fn lemma_dot_prefix(a: Seq<i64>, b: Seq<i64>, i: int)
    requires
        a.len() == b.len(),
        0 <= i < a.len(),
    ensures
        dot(a.subrange(0, i + 1), b.subrange(0, i + 1)) == dot(a.subrange(0, i), b.subrange(0, i)) + a[i] * b[i],
{
    assert(a.subrange(0, i + 1).drop_last() =~= a.subrange(0, i));
    assert(b.subrange(0, i + 1).drop_last() =~= b.subrange(0, i));
}

/// A prefix absolute sum grows by one magnitude per entry.
pub proof fn lemma_sum_abs_prefix(s: Seq<i64>, i: int)
    requires
        0 <= i < s.len(),
    ensures
        sum_abs(s.subrange(0, i + 1)) == sum_abs(s.subrange(0, i)) + abs(s[i] as int),
{
    assert(s.subrange(0, i + 1).drop_last() =~= s.subrange(0, i));
}

/// A contraction of entries of magnitude at most `p` and `q` lies within
/// `len * p * q` of zero.
pub proof fn lemma_dot_bound(a: Seq<i64>, b: Seq<i64>, p: int, q: int)
    requires
        a.len() == b.len(),
        0 <= p,
        0 <= q,
        bounded(a, p),
        bounded(b, q),
    ensures
        -(a.len() * p * q) <= dot(a, b) <= a.len() * p * q,
    decreases a.len(),
{
    if a.len() == 0 {
    } else {
        assert(bounded(a.drop_last(), p));
        assert(bounded(b.drop_last(), q));
        lemma_dot_bound(a.drop_last(), b.drop_last(), p, q);
        assert(-(p * q) <= a.last() * b.last() <= p * q) by (nonlinear_arith)
            requires
                -p <= a.last() <= p,
                -q <= b.last() <= q,
                0 <= p,
                0 <= q,
        ;
        assert(a.drop_last().len() * p * q + p * q == a.len() * p * q) by (nonlinear_arith)
            requires
                a.drop_last().len() == a.len() - 1,
        ;
    }
}

/// A squared norm is never negative.
pub proof fn lemma_norm_sq_nonneg(s: Seq<i64>)
    ensures
        0 <= norm_sq(s),
    decreases s.len(),
{
    if s.len() == 0 {
    } else {
        assert(norm_sq(s) == norm_sq(s.drop_last()) + s.last() * s.last());
        lemma_norm_sq_nonneg(s.drop_last());
        assert(0 <= s.last() * s.last()) by (nonlinear_arith);
    }
}

/// Each squared entry is at most the squared norm of the whole vector.
pub proof fn lemma_entry_sq_le_norm_sq(s: Seq<i64>, i: int)
    requires
        0 <= i < s.len(),
    ensures
        s[i] * s[i] <= norm_sq(s),
    decreases s.len(),
{
    assert(0 <= s.last() * s.last()) by (nonlinear_arith);
    if i == s.len() - 1 {
        lemma_norm_sq_nonneg(s.drop_last());
    } else {
        lemma_entry_sq_le_norm_sq(s.drop_last(), i);
    }
}

/// A vector whose squared norm is at most `b * b` has no entry of magnitude
/// above `b`.
pub proof fn lemma_norm_sq_bounds_entries(s: Seq<i64>, b: int)
    requires
        0 <= b,
        norm_sq(s) <= b * b,
    ensures
        bounded(s, b),
{
    assert forall|i: int| 0 <= i < s.len() implies -b <= #[trigger] s[i] <= b by {
        lemma_entry_sq_le_norm_sq(s, i);
        assert(s[i] * s[i] <= b * b ==> -b <= s[i] <= b) by (nonlinear_arith)
            requires
                0 <= b,
        ;
    }
}

/// A nonzero entry makes the squared norm positive.
pub proof fn lemma_nonzero_entry_norm_sq_pos(s: Seq<i64>, i: int)
    requires
        0 <= i < s.len(),
        s[i] != 0,
    ensures
        norm_sq(s) > 0,
    decreases s.len(),
{
    lemma_norm_sq_nonneg(s.drop_last());
    assert(0 <= s.last() * s.last()) by (nonlinear_arith);
    if i == s.len() - 1 {
        assert(s.last() * s.last() > 0) by (nonlinear_arith)
            requires
                s.last() != 0,
        ;
    } else {
        lemma_nonzero_entry_norm_sq_pos(s.drop_last(), i);
    }
}

/// A positive squared norm comes from some nonzero entry.
pub proof fn lemma_norm_sq_pos_has_nonzero(s: Seq<i64>)
    requires
        norm_sq(s) > 0,
    ensures
        exists|i: int| 0 <= i < s.len() && s[i] != 0,
    decreases s.len(),
{
    if s.len() == 0 {
    } else if s.last() != 0 {
        assert(s[s.len() - 1] != 0);
    } else {
        assert(norm_sq(s) == norm_sq(s.drop_last()));
        lemma_norm_sq_pos_has_nonzero(s.drop_last());
        let i = choose|i: int| 0 <= i < s.drop_last().len() && s.drop_last()[i] != 0;
        assert(s[i] != 0);
    }
}

/// A product of in-bound values is bounded by the product of the bounds.
pub proof fn lemma_mul_bound(x: int, p: int, y: int, q: int)
    requires
        0 <= p,
        0 <= q,
        -p <= x <= p,
        -q <= y <= q,
    ensures
        -(p * q) <= x * y <= p * q,
{
    assert(-(p * q) <= x * y <= p * q) by (nonlinear_arith)
        requires
            0 <= p,
            0 <= q,
            -p <= x <= p,
            -q <= y <= q,
    ;
}

/// A nonzero entry makes the absolute sum positive.
pub proof fn lemma_nonzero_entry_sum_abs_pos(s: Seq<i64>, i: int)
    requires
        0 <= i < s.len(),
        s[i] != 0,
    ensures
        sum_abs(s) > 0,
    decreases s.len(),
{
    if i == s.len() - 1 {
        lemma_sum_abs_nonneg(s.drop_last());
    } else {
        lemma_nonzero_entry_sum_abs_pos(s.drop_last(), i);
    }
}

/// An absolute sum is never negative.
pub proof fn lemma_sum_abs_nonneg(s: Seq<i64>)
    ensures
        0 <= sum_abs(s),
    decreases s.len(),
{
    if s.len() > 0 {
        lemma_sum_abs_nonneg(s.drop_last());
    }
}

/// A square of an in-bound value is bounded by the square of the bound.
pub proof fn lemma_square_bound(x: int, b: int)
    requires
        0 <= b,
        -b <= x <= b,
    ensures
        0 <= x * x <= b * b,
{
    assert(0 <= x * x <= b * b) by (nonlinear_arith)
        requires
            0 <= b,
            -b <= x <= b,
    ;
}

/// A contraction of two-entry vectors, written out.
pub proof fn lemma_dot_pair(a: Seq<i64>, b: Seq<i64>)
    requires
        a.len() == 2,
        b.len() == 2,
    ensures
        dot(a, b) == a[0] * b[0] + a[1] * b[1],
{
    let a1 = a.drop_last();
    let b1 = b.drop_last();
    assert(a1.drop_last() =~= Seq::<i64>::empty());
    assert(b1.drop_last() =~= Seq::<i64>::empty());
    assert(dot(Seq::<i64>::empty(), Seq::<i64>::empty()) == 0);
    assert(dot(a1, b1) == dot(a1.drop_last(), b1.drop_last()) + a1.last() * b1.last());
    assert(a1.last() == a[0]);
    assert(b1.last() == b[0]);
    assert(dot(a, b) == dot(a1, b1) + a.last() * b.last());
}

/// Contraction is symmetric in its operands.
pub proof fn lemma_dot_comm(a: Seq<i64>, b: Seq<i64>)
    requires
        a.len() == b.len(),
    ensures
        dot(a, b) == dot(b, a),
    decreases a.len(),
{
    if a.len() > 0 {
        lemma_dot_comm(a.drop_last(), b.drop_last());
        assert(a.last() * b.last() == b.last() * a.last()) by (nonlinear_arith);
    }
}

/// Contraction distributes over concatenation of aligned halves.
pub proof fn lemma_dot_concat(a: Seq<i64>, b: Seq<i64>, c: Seq<i64>, d: Seq<i64>)
    requires
        a.len() == c.len(),
        b.len() == d.len(),
    ensures
        dot(a + b, c + d) == dot(a, c) + dot(b, d),
    decreases b.len(),
{
    if b.len() == 0 {
        assert(a + b =~= a);
        assert(c + d =~= c);
    } else {
        assert((a + b).drop_last() =~= a + b.drop_last());
        assert((c + d).drop_last() =~= c + d.drop_last());
        assert((a + b).last() == b.last());
        assert((c + d).last() == d.last());
        lemma_dot_concat(a, b.drop_last(), c, d.drop_last());
    }
}

/// Scaling one operand of a contraction scales the contraction.
pub proof fn lemma_dot_scale(k: i64, a: Seq<i64>, b: Seq<i64>, sa: Seq<i64>)
    requires
        a.len() == b.len(),
        sa.len() == a.len(),
        forall|i: int| 0 <= i < a.len() ==> #[trigger] sa[i] == k * a[i],
    ensures
        dot(sa, b) == k * dot(a, b),
    decreases a.len(),
{
    if a.len() == 0 {
        assert(k * dot(a, b) == 0) by (nonlinear_arith)
            requires
                dot(a, b) == 0,
        ;
    } else {
        assert(sa.drop_last() =~= sa.subrange(0, a.len() - 1));
        assert(forall|i: int| 0 <= i < a.len() - 1 ==> #[trigger] sa.drop_last()[i] == k * a.drop_last()[i]);
        lemma_dot_scale(k, a.drop_last(), b.drop_last(), sa.drop_last());
        assert(sa.last() == k * a.last());
        assert((k * a.last()) * b.last() == k * (a.last() * b.last())) by (nonlinear_arith);
        assert(k * dot(a.drop_last(), b.drop_last()) + k * (a.last() * b.last()) == k * dot(a, b)) by (nonlinear_arith)
            requires
                dot(a, b) == dot(a.drop_last(), b.drop_last()) + a.last() * b.last(),
        ;
    }
}

/// The squared norm of a Kronecker product is the product of the squared
/// norms of its factors.
pub proof fn lemma_kron_norm_sq(c: Seq<i64>, a: Seq<i64>, b: Seq<i64>)
    requires
        is_kron(c, a, b),
    ensures
        norm_sq(c) == norm_sq(a) * norm_sq(b),
    decreases a.len(),
{
    let m = b.len() as int;
    if a.len() == 0 {
        assert(c.len() == 0) by (nonlinear_arith)
            requires
                c.len() == a.len() * b.len(),
                a.len() == 0,
        ;
    } else {
        let n = a.len() as int;
        let head = c.subrange(0, (n - 1) * m);
        let tail = c.subrange((n - 1) * m, n * m);
        assert((n - 1) * m + m == n * m) by (nonlinear_arith);
        assert(0 <= (n - 1) * m <= c.len()) by (nonlinear_arith)
            requires
                c.len() == n * m,
                1 <= n,
                0 <= m,
        ;
        assert(c =~= head + tail);

        // The head is the Kronecker product of a without its last entry and b.
        assert forall|i: int, j: int| 0 <= i < n - 1 && 0 <= j < m implies #[trigger] head[i * m + j]
            == a.drop_last()[i] * b[j] by {
            assert(0 <= i * m + j < (n - 1) * m) by (nonlinear_arith)
                requires
                    0 <= i < n - 1,
                    0 <= j < m,
            ;
            assert(c[i * m + j] == a[i] * b[j]);
        }
        assert(is_kron(head, a.drop_last(), b)) by {
            assert(head.len() == (n - 1) * m);
            assert(a.drop_last().len() * b.len() == (n - 1) * m) by (nonlinear_arith)
                requires
                    a.drop_last().len() == n - 1,
                    b.len() == m,
            ;
        }
        lemma_kron_norm_sq(head, a.drop_last(), b);

        // The tail is b scaled by the last entry of a.
        assert forall|j: int| 0 <= j < m implies #[trigger] tail[j] == a.last() * b[j] by {
            assert(tail[j] == c[(n - 1) * m + j]);
            assert(c[(n - 1) * m + j] == a[n - 1] * b[j]);
        }
        lemma_dot_scale(a.last(), b, b, tail);
        lemma_dot_comm(tail, b);
        lemma_dot_scale(a.last(), b, tail, tail);
        assert(dot(tail, tail) == a.last() * (a.last() * dot(b, b)));

        lemma_dot_concat(head, tail, head, tail);
        assert(norm_sq(a.drop_last()) * norm_sq(b) + a.last() * (a.last() * norm_sq(b)) == norm_sq(a) * norm_sq(b))
            by (nonlinear_arith)
            requires
                norm_sq(a) == norm_sq(a.drop_last()) + a.last() * a.last(),
        ;
    }
}

/// Exact contraction of two equal-length amplitude vectors.
pub(crate) fn dot_vec(a: &Vec<i64>, b: &Vec<i64>) -> (r: i64)
    requires
        a@.len() == b@.len(),
        a@.len() <= MAX_DIM,
        bounded(a@, AMP_MAX as int),
        bounded(b@, AMP_MAX as int),
    ensures
        r == dot(a@, b@),
{
    let n = a.len();
    let mut acc: i64 = 0;
    let mut i: usize = 0;
    while i < n
        invariant
            0 <= i <= n,
            n == a@.len() == b@.len(),
            n <= MAX_DIM,
            bounded(a@, AMP_MAX as int),
            bounded(b@, AMP_MAX as int),
            acc == dot(a@.subrange(0, i as int), b@.subrange(0, i as int)),
            -(i as int) * (PROD_MAX as int) <= acc <= (i as int) * (PROD_MAX as int),
        decreases n - i,
    {
        proof {
            lemma_dot_prefix(a@, b@, i as int);
            assert(-(PROD_MAX as int) <= a@[i as int] * b@[i as int] <= PROD_MAX as int) by (nonlinear_arith)
                requires
                    -(AMP_MAX as int) <= a@[i as int] <= AMP_MAX as int,
                    -(AMP_MAX as int) <= b@[i as int] <= AMP_MAX as int,
                    PROD_MAX == AMP_MAX * AMP_MAX,
            ;
        }
        acc = acc + a[i] * b[i];
        i = i + 1;
    }
    proof {
        assert(a@.subrange(0, n as int) =~= a@);
        assert(b@.subrange(0, n as int) =~= b@);
    }
    acc
}

/// Exact squared L2 norm of an amplitude vector.
pub(crate) fn norm_sq_vec(s: &Vec<i64>) -> (r: i64)
    requires
        s@.len() <= MAX_DIM,
        bounded(s@, AMP_MAX as int),
    ensures
        r == norm_sq(s@),
{
    dot_vec(s, s)
}

/// Exact sum of absolute amplitudes.
pub(crate) fn sum_abs_vec(s: &Vec<i64>) -> (r: i64)
    requires
        s@.len() <= MAX_DIM,
        bounded(s@, AMP_MAX as int),
    ensures
        r == sum_abs(s@),
        0 <= r,
{
    let n = s.len();
    let mut acc: i64 = 0;
    let mut i: usize = 0;
    while i < n
        invariant
            0 <= i <= n,
            n == s@.len() <= MAX_DIM,
            bounded(s@, AMP_MAX as int),
            acc == sum_abs(s@.subrange(0, i as int)),
            0 <= acc <= (i as int) * (AMP_MAX as int),
        decreases n - i,
    {
        proof {
            lemma_sum_abs_prefix(s@, i as int);
        }
        let x = s[i];
        acc = acc + if x < 0 { -x } else { x };
        i = i + 1;
    }
    proof {
        assert(s@.subrange(0, n as int) =~= s@);
    }
    acc
}

/// Element-wise sum of two equal-length amplitude vectors.
pub(crate) fn add_vec(a: &Vec<i64>, b: &Vec<i64>) -> (r: Vec<i64>)
    requires
        a@.len() == b@.len(),
        bounded(a@, AMP_MAX as int),
        bounded(b@, AMP_MAX as int),
    ensures
        r@.len() == a@.len(),
        forall|i: int| 0 <= i < a@.len() ==> #[trigger] r@[i] == a@[i] + b@[i],
{
    let n = a.len();
    let mut out: Vec<i64> = Vec::new();
    let mut i: usize = 0;
    while i < n
        invariant
            0 <= i <= n,
            n == a@.len() == b@.len(),
            bounded(a@, AMP_MAX as int),
            bounded(b@, AMP_MAX as int),
            out@.len() == i,
            forall|j: int| 0 <= j < i ==> #[trigger] out@[j] == a@[j] + b@[j],
        decreases n - i,
    {
        out.push(a[i] + b[i]);
        i = i + 1;
    }
    out
}

/// Every amplitude multiplied by the scalar `k`.
pub(crate) fn scale_vec(k: i64, s: &Vec<i64>) -> (r: Vec<i64>)
    requires
        -AMP_MAX <= k <= AMP_MAX,
        bounded(s@, AMP_MAX as int),
    ensures
        r@.len() == s@.len(),
        forall|i: int| 0 <= i < s@.len() ==> #[trigger] r@[i] == k * s@[i],
{
    let n = s.len();
    let mut out: Vec<i64> = Vec::new();
    let mut i: usize = 0;
    while i < n
        invariant
            0 <= i <= n,
            n == s@.len(),
            -AMP_MAX <= k <= AMP_MAX,
            bounded(s@, AMP_MAX as int),
            out@.len() == i,
            forall|j: int| 0 <= j < i ==> #[trigger] out@[j] == k * s@[j],
        decreases n - i,
    {
        proof {
            assert(-(PROD_MAX as int) <= k * s@[i as int] <= PROD_MAX as int) by (nonlinear_arith)
                requires
                    -(AMP_MAX as int) <= k <= AMP_MAX as int,
                    -(AMP_MAX as int) <= s@[i as int] <= AMP_MAX as int,
                    PROD_MAX == AMP_MAX * AMP_MAX,
            ;
        }
        out.push(k * s[i]);
        i = i + 1;
    }
    out
}

/// The Kronecker product of two amplitude vectors: entry `i * M + j` of the
/// result is `a[i] * b[j]`.
pub(crate) fn kron_vec(a: &Vec<i64>, b: &Vec<i64>) -> (r: Vec<i64>)
    requires
        a@.len() * b@.len() <= MAX_DIM,
        bounded(a@, AMP_MAX as int),
        bounded(b@, AMP_MAX as int),
    ensures
        is_kron(r@, a@, b@),
        r@.len() == a@.len() * b@.len(),
{
    let n = a.len();
    let m = b.len();
    let mut out: Vec<i64> = Vec::new();
    let mut i: usize = 0;
    while i < n
        invariant
            0 <= i <= n,
            n == a@.len(),
            m == b@.len(),
            n * m <= MAX_DIM,
            bounded(a@, AMP_MAX as int),
            bounded(b@, AMP_MAX as int),
            out@.len() == i * m,
            forall|p: int, q: int|
                0 <= p < i && 0 <= q < m ==> #[trigger] out@[p * m + q] == a@[p] * b@[q],
        decreases n - i,
    {
        proof {
            assert((i + 1) * m <= n * m) by (nonlinear_arith)
                requires
                    i < n,
                    0 <= m,
            ;
        }
        let mut j: usize = 0;
        while j < m
            invariant
                0 <= j <= m,
                0 <= i < n,
                n == a@.len(),
                m == b@.len(),
                n * m <= MAX_DIM,
                (i + 1) * m <= n * m,
                bounded(a@, AMP_MAX as int),
                bounded(b@, AMP_MAX as int),
                out@.len() == i * m + j,
                forall|p: int, q: int|
                    0 <= p < i && 0 <= q < m ==> #[trigger] out@[p * m + q] == a@[p] * b@[q],
                forall|q: int| 0 <= q < j ==> #[trigger] out@[i * m + q] == a@[i as int] * b@[q],
            decreases m - j,
        {
            proof {
                assert(i * m + j < (i + 1) * m) by (nonlinear_arith)
                    requires
                        0 <= j < m,
                ;
                assert(-(PROD_MAX as int) <= a@[i as int] * b@[j as int] <= PROD_MAX as int) by (nonlinear_arith)
                    requires
                        -(AMP_MAX as int) <= a@[i as int] <= AMP_MAX as int,
                        -(AMP_MAX as int) <= b@[j as int] <= AMP_MAX as int,
                        PROD_MAX == AMP_MAX * AMP_MAX,
                ;
            }
            out.push(a[i] * b[j]);
            j = j + 1;
            proof {
                assert forall|p: int, q: int| 0 <= p < i && 0 <= q < m implies #[trigger] out@[p * m + q]
                    == a@[p] * b@[q] by {
                    assert(p * m + q < i * m) by (nonlinear_arith)
                        requires
                            0 <= p < i,
                            0 <= q < m,
                    ;
                }
            }
        }
        proof {
            assert((i + 1) * m == i * m + m) by (nonlinear_arith);
        }
        i = i + 1;
    }
    proof {
        assert forall|p: int, q: int| 0 <= p < n && 0 <= q < m implies #[trigger] out@[p * m + q]
            == a@[p] * b@[q] by {
            assert(p * m + q < n * m) by (nonlinear_arith)
                requires
                    0 <= p < n,
                    0 <= q < m,
            ;
        }
    }
    out
}

} // verus!
