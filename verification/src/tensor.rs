//! A rank-generic tensor: a flat buffer of integer amplitudes together with
//! a shape descriptor listing the dimension of each level, outermost first.

use vstd::prelude::*;
use crate::{bounded, AMP_MAX, MAX_DIM};
use crate::arith::{dot, dot_vec, is_kron, kron_vec, scale_vec, add_vec};
use crate::transposable::Transposable;
use crate::tensor_mul::TensorMul;
use crate::outer_mul::OuterMul;

verus! {

/// Product of the dimensions of a shape: how many scalar entries a tensor
/// of that shape holds.
pub open spec fn shape_volume(shape: Seq<usize>) -> int
    decreases shape.len(),
{
    if shape.len() == 0 {
        1
    } else {
        shape[0] * shape_volume(shape.skip(1))
    }
}

pub proof fn lemma_shape_volume_one(a: usize)
    ensures
        shape_volume(seq![a]) == a,
{
    assert(seq![a].skip(1) =~= Seq::<usize>::empty());
    assert(shape_volume(Seq::<usize>::empty()) == 1);
}

pub proof fn lemma_shape_volume_two(a: usize, b: usize)
    ensures
        shape_volume(seq![a, b]) == a * b,
{
    assert(seq![a, b].skip(1) =~= seq![b]);
    lemma_shape_volume_one(b);
    assert(a * (b as int) == a * b) by (nonlinear_arith);
}

/// The volume of a concatenated shape is the product of the volumes.
pub proof fn lemma_shape_volume_concat(a: Seq<usize>, b: Seq<usize>)
    ensures
        shape_volume(a + b) == shape_volume(a) * shape_volume(b),
    decreases a.len(),
{
    if a.len() == 0 {
        assert(a + b =~= b);
    } else {
        assert((a + b).skip(1) =~= a.skip(1) + b);
        lemma_shape_volume_concat(a.skip(1), b);
        assert(a[0] * (shape_volume(a.skip(1)) * shape_volume(b)) == (a[0] * shape_volume(a.skip(1))) * shape_volume(b))
            by (nonlinear_arith);
    }
}

/// An ordered, fixed-length container of integer amplitudes tagged with its
/// rank: `shape.len()` is the order, `shape[0]` the outermost dimension.
#[derive(Clone, Debug, PartialEq)]
pub struct Tensor {
    pub elems: Vec<i64>,
    pub shape: Vec<usize>,
}

impl Tensor {
    /// The buffer holds exactly one entry per point of the shape.
    pub open spec fn wf(&self) -> bool {
        self.elems@.len() == shape_volume(self.shape@)
    }

    pub open spec fn order(&self) -> int {
        self.shape@.len() as int
    }

    pub fn new(elems: Vec<i64>, shape: Vec<usize>) -> (r: Tensor)
        requires
            elems@.len() == shape_volume(shape@),
        ensures
            r.wf(),
            r.elems@ == elems@,
            r.shape@ == shape@,
    {
        Tensor { elems, shape }
    }

    /// A rank-one tensor: a plain column vector of amplitudes.
    pub fn vector(elems: Vec<i64>) -> (r: Tensor)
        ensures
            r.wf(),
            r.order() == 1,
            r.elems@ == elems@,
            r.shape@ == seq![elems@.len() as usize],
    {
        let n = elems.len();
        let mut shape: Vec<usize> = Vec::new();
        shape.push(n);
        proof {
            assert(shape@ =~= seq![n]);
            lemma_shape_volume_one(n);
        }
        Tensor { elems, shape }
    }

    /// A rank-two tensor built from its flat buffer, outermost index varying
    /// slowest: entry `(i, j)` of an `m` by `n` tensor sits at `i * n + j`.
    pub fn grid(elems: Vec<i64>, m: usize, n: usize) -> (r: Tensor)
        requires
            elems@.len() == m * n,
        ensures
            r.wf(),
            r.order() == 2,
            r.elems@ == elems@,
            r.shape@ == seq![m, n],
    {
        let mut shape: Vec<usize> = Vec::new();
        shape.push(m);
        shape.push(n);
        proof {
            assert(shape@ =~= seq![m, n]);
            lemma_shape_volume_two(m, n);
        }
        Tensor { elems, shape }
    }

    /// The flat buffer, outermost index varying slowest.
    pub fn as_array(&self) -> (r: &Vec<i64>)
        ensures
            r@ == self.elems@,
    {
        &self.elems
    }

    /// Apply `f` to every amplitude; the shape is kept.
    pub fn map<F: Fn(i64) -> i64>(self, f: F) -> (r: Tensor)
        requires
            forall|i: int| 0 <= i < self.elems@.len() ==> call_requires(f, (#[trigger] self.elems@[i],)),
        ensures
            r.shape@ == self.shape@,
            r.elems@.len() == self.elems@.len(),
            forall|i: int|
                0 <= i < self.elems@.len() ==> call_ensures(f, (self.elems@[i],), #[trigger] r.elems@[i]),
    {
        let n = self.elems.len();
        let mut out: Vec<i64> = Vec::new();
        let mut i: usize = 0;
        while i < n
            invariant
                0 <= i <= n,
                n == self.elems@.len(),
                forall|j: int| 0 <= j < n ==> call_requires(f, (#[trigger] self.elems@[j],)),
                out@.len() == i,
                forall|j: int| 0 <= j < i ==> call_ensures(f, (self.elems@[j],), #[trigger] out@[j]),
            decreases n - i,
        {
            out.push(f(self.elems[i]));
            i = i + 1;
        }
        Tensor { elems: out, shape: self.shape }
    }

    /// Element-wise sum of two tensors of the same shape.
    pub fn add(self, rhs: Tensor) -> (r: Tensor)
        requires
            self.shape@ == rhs.shape@,
            self.wf(),
            rhs.wf(),
            bounded(self.elems@, AMP_MAX as int),
            bounded(rhs.elems@, AMP_MAX as int),
        ensures
            r.wf(),
            r.shape@ == self.shape@,
            r.elems@.len() == self.elems@.len(),
            forall|i: int| 0 <= i < self.elems@.len() ==> #[trigger] r.elems@[i] == self.elems@[i] + rhs.elems@[i],
    {
        proof {
            assert(rhs.elems@.len() == self.elems@.len());
        }
        let out = add_vec(&self.elems, &rhs.elems);
        Tensor { elems: out, shape: self.shape }
    }

    /// Full contraction of two tensors of the same shape: the sum over all
    /// indices of the products of corresponding amplitudes.
    pub fn mul(self, rhs: Tensor) -> (r: i64)
        requires
            self.shape@ == rhs.shape@,
            self.elems@.len() == rhs.elems@.len(),
            self.elems@.len() <= MAX_DIM,
            bounded(self.elems@, AMP_MAX as int),
            bounded(rhs.elems@, AMP_MAX as int),
        ensures
            r == dot(self.elems@, rhs.elems@),
    {
        dot_vec(&self.elems, &rhs.elems)
    }
}

/// Transposing a rank-one column yields the rank-two row of singleton
/// columns; the reverse transform inverts it exactly; a rank-two tensor is
/// transposed as a matrix.
impl Transposable for Tensor {
    type Output = Tensor;

    open spec fn t_req(&self) -> bool {
        self.wf() && (1 <= self.order() <= 2)
    }

    open spec fn is_transpose(&self, r: &Tensor) -> bool {
        if self.order() == 1 {
            &&& r.shape@ == seq![self.shape@[0], 1usize]
            &&& r.elems@ == self.elems@
        } else if self.shape@[1] == 1 {
            &&& r.shape@ == seq![self.shape@[0]]
            &&& r.elems@ == self.elems@
        } else {
            let m = self.shape@[0] as int;
            let n = self.shape@[1] as int;
            &&& r.shape@ == seq![self.shape@[1], self.shape@[0]]
            &&& r.elems@.len() == self.elems@.len()
            &&& forall|i: int, j: int|
                0 <= i < m && 0 <= j < n ==> #[trigger] r.elems@[j * m + i] == self.elems@[i * n + j]
        }
    }

    fn T(&self) -> (r: Tensor) {
        let order = self.shape.len();
        if order == 1 {
            let m = self.shape[0];
            let mut shape: Vec<usize> = Vec::new();
            shape.push(m);
            shape.push(1);
            proof {
                assert(shape@ =~= seq![m, 1usize]);
                lemma_shape_volume_two(m, 1);
                lemma_shape_volume_one(m);
            }
            Tensor { elems: self.elems.clone(), shape }
        } else if self.shape[1] == 1 {
            let m = self.shape[0];
            let mut shape: Vec<usize> = Vec::new();
            shape.push(m);
            proof {
                assert(shape@ =~= seq![m]);
                lemma_shape_volume_one(m);
                lemma_shape_volume_two(m, 1);
            }
            Tensor { elems: self.elems.clone(), shape }
        } else {
            let m = self.shape[0];
            let n = self.shape[1];
            proof {
                assert(self.shape@ =~= seq![m, n]);
                lemma_shape_volume_two(m, n);
            }
            let total = self.elems.len();
            let mut out: Vec<i64> = Vec::new();
            let mut j: usize = 0;
            while j < n
                invariant
                    0 <= j <= n,
                    m == self.shape@[0],
                    n == self.shape@[1],
                    total == self.elems@.len(),
                    self.elems@.len() == m * n,
                    out@.len() == j * m,
                    forall|p: int, q: int|
                        0 <= p < m && 0 <= q < j ==> #[trigger] out@[q * m + p] == self.elems@[p * n + q],
                decreases n - j,
            {
                proof {
                    assert((j + 1) * m <= n * m && n * m == m * n) by (nonlinear_arith)
                        requires
                            j < n,
                            0 <= m,
                    ;
                }
                let mut i: usize = 0;
                while i < m
                    invariant
                        0 <= i <= m,
                        0 <= j < n,
                        m == self.shape@[0],
                        n == self.shape@[1],
                        total == self.elems@.len(),
                        self.elems@.len() == m * n,
                        (j + 1) * m <= m * n,
                        out@.len() == j * m + i,
                        forall|p: int, q: int|
                            0 <= p < m && 0 <= q < j ==> #[trigger] out@[q * m + p] == self.elems@[p * n + q],
                        forall|p: int| 0 <= p < i ==> #[trigger] out@[j * m + p] == self.elems@[p * n + j as int],
                    decreases m - i,
                {
                    proof {
                        assert(j * m + i < (j + 1) * m) by (nonlinear_arith)
                            requires
                                0 <= i < m,
                        ;
                        assert(i * n + j < m * n && i * n <= m * n) by (nonlinear_arith)
                            requires
                                0 <= i < m,
                                0 <= j < n,
                        ;
                        assert(i * n + j < self.elems@.len());
                    }
                    out.push(self.elems[i * n + j]);
                    i = i + 1;
                    proof {
                        assert forall|p: int, q: int| 0 <= p < m && 0 <= q < j implies #[trigger] out@[q * m + p]
                            == self.elems@[p * n + q] by {
                            assert(q * m + p < j * m) by (nonlinear_arith)
                                requires
                                    0 <= p < m,
                                    0 <= q < j,
                            ;
                        }
                    }
                }
                proof {
                    assert((j + 1) * m == j * m + m) by (nonlinear_arith);
                }
                j = j + 1;
            }
            let mut shape: Vec<usize> = Vec::new();
            shape.push(n);
            shape.push(m);
            proof {
                assert(shape@ =~= seq![n, m]);
                lemma_shape_volume_two(n, m);
                assert(n * m == m * n) by (nonlinear_arith);
            }
            Tensor { elems: out, shape }
        }
    }
}

/// The tensor product of two tensors: ranks add, and the flat entry at
/// `i * M + j` is the product of entry `i` of the left and entry `j` of the
/// right operand.
impl TensorMul<Tensor> for Tensor {
    type Output = Tensor;

    open spec fn tensor_mul_req(self, rhs: Tensor) -> bool {
        &&& self.wf()
        &&& rhs.wf()
        &&& self.elems@.len() * rhs.elems@.len() <= MAX_DIM
        &&& bounded(self.elems@, AMP_MAX as int)
        &&& bounded(rhs.elems@, AMP_MAX as int)
    }

    open spec fn is_tensor_mul(self, rhs: Tensor, r: Tensor) -> bool {
        &&& r.wf()
        &&& r.shape@ == self.shape@ + rhs.shape@
        &&& is_kron(r.elems@, self.elems@, rhs.elems@)
    }

    fn tensor_mul(self, rhs: Tensor) -> (r: Tensor) {
        let out = kron_vec(&self.elems, &rhs.elems);
        let mut shape = self.shape;
        let mut k: usize = 0;
        let ghost s1 = shape@;
        while k < rhs.shape.len()
            invariant
                0 <= k <= rhs.shape@.len(),
                shape@ == s1 + rhs.shape@.subrange(0, k as int),
            decreases rhs.shape@.len() - k,
        {
            shape.push(rhs.shape[k]);
            k = k + 1;
            proof {
                assert(shape@ =~= s1 + rhs.shape@.subrange(0, k as int));
            }
        }
        proof {
            assert(shape@ =~= s1 + rhs.shape@);
            lemma_shape_volume_concat(s1, rhs.shape@);
        }
        Tensor { elems: out, shape }
    }
}

/// A scalar spreads over every amplitude of a tensor.
impl TensorMul<Tensor> for i64 {
    type Output = Tensor;

    open spec fn tensor_mul_req(self, rhs: Tensor) -> bool {
        &&& -AMP_MAX <= self <= AMP_MAX
        &&& bounded(rhs.elems@, AMP_MAX as int)
    }

    open spec fn is_tensor_mul(self, rhs: Tensor, r: Tensor) -> bool {
        &&& r.shape@ == rhs.shape@
        &&& r.elems@.len() == rhs.elems@.len()
        &&& forall|i: int| 0 <= i < rhs.elems@.len() ==> #[trigger] r.elems@[i] == self * rhs.elems@[i]
    }

    fn tensor_mul(self, rhs: Tensor) -> (r: Tensor) {
        let out = scale_vec(self, &rhs.elems);
        Tensor { elems: out, shape: rhs.shape }
    }
}

/// A tensor scaled by a scalar on the right.
impl TensorMul<i64> for Tensor {
    type Output = Tensor;

    open spec fn tensor_mul_req(self, rhs: i64) -> bool {
        &&& -AMP_MAX <= rhs <= AMP_MAX
        &&& bounded(self.elems@, AMP_MAX as int)
    }

    open spec fn is_tensor_mul(self, rhs: i64, r: Tensor) -> bool {
        &&& r.shape@ == self.shape@
        &&& r.elems@.len() == self.elems@.len()
        &&& forall|i: int| 0 <= i < self.elems@.len() ==> #[trigger] r.elems@[i] == rhs * self.elems@[i]
    }

    fn tensor_mul(self, rhs: i64) -> (r: Tensor) {
        let out = scale_vec(rhs, &self.elems);
        Tensor { elems: out, shape: self.shape }
    }
}

/// The outer product coincides with the tensor product on tensors.
impl OuterMul<Tensor> for Tensor {
    type Output = Tensor;

    open spec fn outer_mul_req(self, rhs: Tensor) -> bool {
        self.tensor_mul_req(rhs)
    }

    open spec fn is_outer_mul(self, rhs: Tensor, r: Tensor) -> bool {
        self.is_tensor_mul(rhs, r)
    }

    fn outer_mul(self, rhs: Tensor) -> (r: Tensor) {
        self.tensor_mul(rhs)
    }
}

/// A scalar spreads over every amplitude of a tensor.
impl OuterMul<Tensor> for i64 {
    type Output = Tensor;

    open spec fn outer_mul_req(self, rhs: Tensor) -> bool {
        TensorMul::tensor_mul_req(self, rhs)
    }

    open spec fn is_outer_mul(self, rhs: Tensor, r: Tensor) -> bool {
        TensorMul::is_tensor_mul(self, rhs, r)
    }

    fn outer_mul(self, rhs: Tensor) -> (r: Tensor) {
        TensorMul::tensor_mul(self, rhs)
    }
}

/// A tensor scaled by a scalar on the right.
impl OuterMul<i64> for Tensor {
    type Output = Tensor;

    open spec fn outer_mul_req(self, rhs: i64) -> bool {
        TensorMul::tensor_mul_req(self, rhs)
    }

    open spec fn is_outer_mul(self, rhs: i64, r: Tensor) -> bool {
        TensorMul::is_tensor_mul(self, rhs, r)
    }

    fn outer_mul(self, rhs: i64) -> (r: Tensor) {
        TensorMul::tensor_mul(self, rhs)
    }
}

} // verus!
