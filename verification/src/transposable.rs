//! Duality: every algebraic value can produce its dual representation.
//! Scalars are self-dual; composite values transpose structurally.

use vstd::prelude::*;

verus! {

/// A uniform way to produce the dual of an algebraic value.
pub trait Transposable: Sized {
    type Output;

    /// The shapes for which the transpose is defined.
    spec fn t_req(&self) -> bool;

    /// The exact relation between a value and its transpose.
    spec fn is_transpose(&self, r: &Self::Output) -> bool;

    #[allow(non_snake_case)]
    fn T(&self) -> (r: Self::Output)
        requires
            self.t_req(),
        ensures
            self.is_transpose(&r),
    ;
}

/// A scalar amplitude is its own dual.
impl Transposable for i64 {
    type Output = i64;

    open spec fn t_req(&self) -> bool {
        true
    }

    open spec fn is_transpose(&self, r: &i64) -> bool {
        r == self
    }

    fn T(&self) -> (r: i64) {
        *self
    }
}

} // verus!
