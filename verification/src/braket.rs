//! The vector and its dual: `Ket` is a column of amplitudes, `Bra` a row
//! whose entries are columns.  A `Bra` of singleton columns plays the role
//! of a plain row vector; a `Bra` of wider columns is a change-of-basis
//! operator.

use vstd::prelude::*;
use crate::{bounded, AMP_MAX, MAX_DIM};
use crate::arith::{dot, is_kron, is_kron_mat, kron_vec, add_vec, scale_vec, dot_vec, PROD_MAX};
use crate::transposable::Transposable;
use crate::tensor_mul::TensorMul;
use crate::kronecker::Kronecker;

verus! {

/// Every row of the matrix has width `l`.
pub open spec fn uniform_width(m: Seq<Seq<i64>>, l: int) -> bool {
    forall|i: int| 0 <= i < m.len() ==> (#[trigger] m[i]).len() == l
}

/// Every entry of the matrix has magnitude at most `b`.
pub open spec fn bounded_mat(m: Seq<Seq<i64>>, b: int) -> bool {
    forall|i: int| 0 <= i < m.len() ==> bounded(#[trigger] m[i], b)
}

/// Sum over `i` of `v[i] * m[i][c]`: the linear combination of the columns
/// of `m` (one entry `c` at a time) with coefficients `v`.
pub open spec fn col_dot(m: Seq<Seq<i64>>, v: Seq<i64>, c: int) -> int
    recommends
        m.len() == v.len(),
    decreases m.len(),
{
    if m.len() == 0 {
        0
    } else {
        col_dot(m.drop_last(), v.drop_last(), c) + v.last() * m.last()[c]
    }
}

/// A prefix of a column combination grows by one product per entry.
pub proof fn lemma_col_dot_prefix(m: Seq<Seq<i64>>, v: Seq<i64>, c: int, i: int)
    requires
        m.len() == v.len(),
        0 <= i < m.len(),
    ensures
        col_dot(m.subrange(0, i + 1), v.subrange(0, i + 1), c) == col_dot(m.subrange(0, i), v.subrange(0, i), c)
            + v[i] * m[i][c],
{
    assert(m.subrange(0, i + 1).drop_last() =~= m.subrange(0, i));
    assert(v.subrange(0, i + 1).drop_last() =~= v.subrange(0, i));
}

/// A column combination over four columns, written out.
pub proof fn lemma_col_dot_four(m: Seq<Seq<i64>>, v: Seq<i64>, c: int)
    requires
        m.len() == 4,
        v.len() == 4,
    ensures
        col_dot(m, v, c) == v[0] * m[0][c] + v[1] * m[1][c] + v[2] * m[2][c] + v[3] * m[3][c],
{
    let m3 = m.drop_last();
    let v3 = v.drop_last();
    let m2 = m3.drop_last();
    let v2 = v3.drop_last();
    let m1 = m2.drop_last();
    let v1 = v2.drop_last();
    assert(m1.drop_last() =~= Seq::<Seq<i64>>::empty());
    assert(v1.drop_last() =~= Seq::<i64>::empty());
    assert(col_dot(Seq::<Seq<i64>>::empty(), Seq::<i64>::empty(), c) == 0);
    assert(col_dot(m1, v1, c) == col_dot(m1.drop_last(), v1.drop_last(), c) + v1.last() * m1.last()[c]);
    assert(col_dot(m2, v2, c) == col_dot(m1, v1, c) + v2.last() * m2.last()[c]);
    assert(col_dot(m3, v3, c) == col_dot(m2, v2, c) + v3.last() * m3.last()[c]);
    assert(col_dot(m, v, c) == col_dot(m3, v3, c) + v.last() * m.last()[c]);
}

/// A column amplitude vector: a quantum state over `N` basis states when it
/// is nonzero.
#[derive(Debug, PartialEq)]
pub struct Ket {
    pub amps: Vec<i64>,
}

impl View for Ket {
    type V = Seq<i64>;

    open spec fn view(&self) -> Seq<i64> {
        self.amps@
    }
}

impl Clone for Ket {
    fn clone(&self) -> (r: Self)
        ensures
            r@ == self@,
    {
        Ket { amps: self.amps.clone() }
    }
}

impl Ket {
    pub fn new(amps: Vec<i64>) -> (r: Ket)
        ensures
            r@ == amps@,
    {
        Ket { amps }
    }

    pub fn as_array(&self) -> (r: &Vec<i64>)
        ensures
            r@ == self@,
    {
        &self.amps
    }

    /// Apply `f` to every amplitude.
    pub fn map<F: Fn(i64) -> i64>(self, f: F) -> (r: Ket)
        requires
            forall|i: int| 0 <= i < self@.len() ==> call_requires(f, (#[trigger] self@[i],)),
        ensures
            r@.len() == self@.len(),
            forall|i: int| 0 <= i < self@.len() ==> call_ensures(f, (self@[i],), #[trigger] r@[i]),
    {
        let n = self.amps.len();
        let mut out: Vec<i64> = Vec::new();
        let mut i: usize = 0;
        while i < n
            invariant
                0 <= i <= n,
                n == self@.len(),
                forall|j: int| 0 <= j < n ==> call_requires(f, (#[trigger] self@[j],)),
                out@.len() == i,
                forall|j: int| 0 <= j < i ==> call_ensures(f, (self@[j],), #[trigger] out@[j]),
            decreases n - i,
        {
            out.push(f(self.amps[i]));
            i = i + 1;
        }
        Ket { amps: out }
    }

    /// Element-wise sum of two equal-length kets.
    pub fn add(self, rhs: Ket) -> (r: Ket)
        requires
            self@.len() == rhs@.len(),
            bounded(self@, AMP_MAX as int),
            bounded(rhs@, AMP_MAX as int),
        ensures
            r@.len() == self@.len(),
            forall|i: int| 0 <= i < self@.len() ==> #[trigger] r@[i] == self@[i] + rhs@[i],
    {
        let out = add_vec(&self.amps, &rhs.amps);
        Ket { amps: out }
    }

    /// Every amplitude multiplied by the scalar `rhs`.
    pub fn mul(self, rhs: i64) -> (r: Ket)
        requires
            -AMP_MAX <= rhs <= AMP_MAX,
            bounded(self@, AMP_MAX as int),
        ensures
            r@.len() == self@.len(),
            forall|i: int| 0 <= i < self@.len() ==> #[trigger] r@[i] == rhs * self@[i],
    {
        let out = scale_vec(rhs, &self.amps);
        Ket { amps: out }
    }

    /// The contraction of two equal-length kets: the inner product used to
    /// project a state onto a basis vector.
    pub fn dot(&self, rhs: &Ket) -> (r: i64)
        requires
            self@.len() == rhs@.len(),
            self@.len() <= MAX_DIM,
            bounded(self@, AMP_MAX as int),
            bounded(rhs@, AMP_MAX as int),
        ensures
            r == dot(self@, rhs@),
    {
        dot_vec(&self.amps, &rhs.amps)
    }
}

/// A row whose entries are columns.  With singleton columns it is the dual
/// of a `Ket`; with `N` columns of height `N` it is a basis or gate.
#[derive(Debug, PartialEq)]
pub struct Bra {
    pub kets: Vec<Ket>,
}

impl View for Bra {
    type V = Seq<Seq<i64>>;

    open spec fn view(&self) -> Seq<Seq<i64>> {
        self.kets@.map_values(|k: Ket| k@)
    }
}

impl Clone for Bra {
    fn clone(&self) -> (r: Self)
        ensures
            r@ == self@,
    {
        let n = self.kets.len();
        let mut out: Vec<Ket> = Vec::new();
        let mut i: usize = 0;
        while i < n
            invariant
                0 <= i <= n,
                n == self.kets@.len(),
                out@.len() == i,
                forall|j: int| 0 <= j < i ==> #[trigger] out@[j]@ == self.kets@[j]@,
            decreases n - i,
        {
            out.push(self.kets[i].clone());
            i = i + 1;
        }
        let r = Bra { kets: out };
        proof {
            assert(r@ =~= self@);
        }
        r
    }
}

impl Bra {
    pub fn new(kets: Vec<Ket>) -> (r: Bra)
        ensures
            r.kets@ == kets@,
            r@.len() == kets@.len(),
            forall|i: int| 0 <= i < kets@.len() ==> #[trigger] r@[i] == kets@[i]@,
    {
        Bra { kets }
    }

    pub fn as_array(&self) -> (r: &Vec<Ket>)
        ensures
            r@ == self.kets@,
    {
        &self.kets
    }

    /// Apply `f` to every column.
    pub fn map<F: Fn(Ket) -> Ket>(self, f: F) -> (r: Bra)
        requires
            forall|i: int| 0 <= i < self.kets@.len() ==> call_requires(f, (#[trigger] self.kets@[i],)),
        ensures
            r.kets@.len() == self.kets@.len(),
            forall|i: int|
                0 <= i < self.kets@.len() ==> call_ensures(f, (self.kets@[i],), #[trigger] r.kets@[i]),
    {
        let mut rest = self;
        let ghost orig = rest.kets@;
        let mut out: Vec<Ket> = Vec::new();
        while rest.kets.len() > 0
            invariant
                out@.len() + rest.kets@.len() == orig.len(),
                rest.kets@ =~= orig.subrange(out@.len() as int, orig.len() as int),
                forall|j: int| 0 <= j < orig.len() ==> call_requires(f, (#[trigger] orig[j],)),
                forall|j: int| 0 <= j < out@.len() ==> call_ensures(f, (orig[j],), #[trigger] out@[j]),
            decreases rest.kets@.len(),
        {
            let k = rest.kets.remove(0);
            proof {
                assert(k == orig[out@.len() as int]);
                assert(rest.kets@ =~= orig.subrange(out@.len() as int + 1, orig.len() as int));
            }
            out.push(f(k));
        }
        Bra { kets: out }
    }

    /// Element-wise sum of two rows of columns of the same shape.
    pub fn add(self, rhs: Bra) -> (r: Bra)
        requires
            self@.len() == rhs@.len(),
            forall|i: int| 0 <= i < self@.len() ==> (#[trigger] self@[i]).len() == rhs@[i].len(),
            bounded_mat(self@, AMP_MAX as int),
            bounded_mat(rhs@, AMP_MAX as int),
        ensures
            r@.len() == self@.len(),
            forall|i: int, j: int|
                0 <= i < self@.len() && 0 <= j < self@[i].len() ==> #[trigger] r@[i][j] == self@[i][j]
                    + rhs@[i][j],
            forall|i: int| 0 <= i < self@.len() ==> (#[trigger] r@[i]).len() == self@[i].len(),
    {
        let n = self.kets.len();
        let mut out: Vec<Ket> = Vec::new();
        let mut i: usize = 0;
        while i < n
            invariant
                0 <= i <= n,
                n == self.kets@.len() == rhs.kets@.len(),
                forall|p: int| 0 <= p < n ==> (#[trigger] self@[p]).len() == rhs@[p].len(),
                bounded_mat(self@, AMP_MAX as int),
                bounded_mat(rhs@, AMP_MAX as int),
                out@.len() == i,
                forall|p: int| 0 <= p < i ==> (#[trigger] out@[p]@).len() == self@[p].len(),
                forall|p: int, q: int|
                    0 <= p < i && 0 <= q < self@[p].len() ==> #[trigger] out@[p]@[q] == self@[p][q]
                        + rhs@[p][q],
            decreases n - i,
        {
            proof {
                assert(self@[i as int] == self.kets@[i as int]@);
                assert(rhs@[i as int] == rhs.kets@[i as int]@);
            }
            let sum = add_vec(&self.kets[i].amps, &rhs.kets[i].amps);
            out.push(Ket::new(sum));
            i = i + 1;
        }
        let r = Bra { kets: out };
        proof {
            assert(forall|p: int| 0 <= p < n ==> #[trigger] r@[p] == out@[p]@);
        }
        r
    }

    /// Apply this row of columns to a coefficient vector: the result is the
    /// linear combination of the columns, the operator application
    /// `Bra * Ket` used by gates.
    pub fn mul(self, rhs: Ket) -> (r: Ket)
        requires
            self.kets@.len() == rhs@.len(),
            self.kets@.len() <= MAX_DIM,
            self@.len() > 0,
            uniform_width(self@, self@[0].len() as int),
            self@[0].len() <= MAX_DIM,
            bounded_mat(self@, AMP_MAX as int),
            bounded(rhs@, AMP_MAX as int),
        ensures
            r@.len() == self@[0].len(),
            forall|c: int| 0 <= c < r@.len() ==> #[trigger] r@[c] == col_dot(self@, rhs@, c),
    {
        let n = self.kets.len();
        let width = self.kets[0].amps.len();
        let mut out: Vec<i64> = Vec::new();
        let mut c: usize = 0;
        while c < width
            invariant
                0 <= c <= width,
                n == self.kets@.len() == rhs@.len(),
                n <= MAX_DIM,
                width == self@[0].len(),
                uniform_width(self@, width as int),
                bounded_mat(self@, AMP_MAX as int),
                bounded(rhs@, AMP_MAX as int),
                out@.len() == c,
                forall|d: int| 0 <= d < c ==> #[trigger] out@[d] == col_dot(self@, rhs@, d),
            decreases width - c,
        {
            let mut acc: i64 = 0;
            let mut i: usize = 0;
            while i < n
                invariant
                    0 <= i <= n,
                    0 <= c < width,
                    n == self.kets@.len() == rhs@.len(),
                    n <= MAX_DIM,
                    width == self@[0].len(),
                    uniform_width(self@, width as int),
                    bounded_mat(self@, AMP_MAX as int),
                    bounded(rhs@, AMP_MAX as int),
                    acc == col_dot(self@.subrange(0, i as int), rhs@.subrange(0, i as int), c as int),
                    -(i as int) * (PROD_MAX as int) <= acc <= (i as int) * (PROD_MAX as int),
                decreases n - i,
            {
                proof {
                    assert(self@[i as int] == self.kets@[i as int]@);
                    lemma_col_dot_prefix(self@, rhs@, c as int, i as int);
                    assert(-(PROD_MAX as int) <= rhs@[i as int] * self@[i as int][c as int] <= PROD_MAX as int)
                        by (nonlinear_arith)
                        requires
                            -(AMP_MAX as int) <= rhs@[i as int] <= AMP_MAX as int,
                            -(AMP_MAX as int) <= self@[i as int][c as int] <= AMP_MAX as int,
                            PROD_MAX == AMP_MAX * AMP_MAX,
                    ;
                }
                acc = acc + rhs.amps[i] * self.kets[i].amps[c];
                i = i + 1;
            }
            proof {
                assert(self@.subrange(0, n as int) =~= self@);
                assert(rhs@.subrange(0, n as int) =~= rhs@);
            }
            out.push(acc);
            c = c + 1;
        }
        Ket { amps: out }
    }
}

/// The dual of a column is the row of its singleton columns.
impl Transposable for Ket {
    type Output = Bra;

    open spec fn t_req(&self) -> bool {
        true
    }

    open spec fn is_transpose(&self, r: &Bra) -> bool {
        &&& r@.len() == self@.len()
        &&& forall|i: int| 0 <= i < self@.len() ==> #[trigger] r@[i] == seq![self@[i]]
    }

    fn T(&self) -> (r: Bra) {
        let n = self.amps.len();
        let mut out: Vec<Ket> = Vec::new();
        let mut i: usize = 0;
        while i < n
            invariant
                0 <= i <= n,
                n == self@.len(),
                out@.len() == i,
                forall|j: int| 0 <= j < i ==> #[trigger] out@[j]@ =~= seq![self@[j]],
            decreases n - i,
        {
            let mut amps: Vec<i64> = Vec::new();
            amps.push(self.amps[i]);
            proof {
                assert(amps@ =~= seq![self@[i as int]]);
            }
            out.push(Ket { amps });
            i = i + 1;
        }
        let r = Bra { kets: out };
        proof {
            assert(forall|j: int| 0 <= j < n ==> #[trigger] r@[j] == out@[j]@);
        }
        r
    }
}

/// The dual of a row of singleton columns is the column of their entries:
/// the exact inverse of transposing a `Ket`.
impl Transposable for Bra {
    type Output = Ket;

    open spec fn t_req(&self) -> bool {
        uniform_width(self@, 1)
    }

    open spec fn is_transpose(&self, r: &Ket) -> bool {
        &&& r@.len() == self@.len()
        &&& forall|i: int| 0 <= i < self@.len() ==> #[trigger] r@[i] == self@[i][0]
    }

    fn T(&self) -> (r: Ket) {
        let n = self.kets.len();
        let mut out: Vec<i64> = Vec::new();
        let mut i: usize = 0;
        while i < n
            invariant
                0 <= i <= n,
                n == self.kets@.len(),
                uniform_width(self@, 1),
                out@.len() == i,
                forall|j: int| 0 <= j < i ==> #[trigger] out@[j] == self@[j][0],
            decreases n - i,
        {
            proof {
                assert(self@[i as int] == self.kets@[i as int]@);
            }
            out.push(self.kets[i].amps[0]);
            i = i + 1;
        }
        Ket { amps: out }
    }
}

/// The tensor product of two columns: a column of size N * M with the
/// product `a[i] * b[j]` at flat index `i * M + j`.
impl TensorMul<Ket> for Ket {
    type Output = Ket;

    open spec fn tensor_mul_req(self, rhs: Ket) -> bool {
        &&& self@.len() * rhs@.len() <= MAX_DIM
        &&& bounded(self@, AMP_MAX as int)
        &&& bounded(rhs@, AMP_MAX as int)
    }

    open spec fn is_tensor_mul(self, rhs: Ket, r: Ket) -> bool {
        is_kron(r@, self@, rhs@)
    }

    fn tensor_mul(self, rhs: Ket) -> (r: Ket) {
        let out = kron_vec(&self.amps, &rhs.amps);
        Ket { amps: out }
    }
}

/// The tensor product of two operators coincides with their Kronecker
/// product: column `(i, j)` of the result lands at index `i * P + j`.
impl TensorMul<Bra> for Bra {
    type Output = Bra;

    open spec fn tensor_mul_req(self, rhs: Bra) -> bool {
        self.kron_req(&rhs)
    }

    open spec fn is_tensor_mul(self, rhs: Bra, r: Bra) -> bool {
        is_kron_mat(r@, self@, rhs@)
    }

    fn tensor_mul(self, rhs: Bra) -> (r: Bra) {
        self.kron(&rhs)
    }
}

} // verus!
