//! A polarization filter: a thin pass/fail wrapper around single-qubit
//! measurement that counts how many qubits pass.

use vstd::prelude::*;
use crate::basis::Basis;
use crate::qubit::Qubit;

verus! {

/// Measures incoming qubits in a fixed basis and passes those whose outcome
/// matches `allow`, counting attempts and passes.
#[derive(Debug)]
pub struct Filter {
    pub basis: Basis,
    pub allow: bool,
    pub num_passed: u64,
    pub num_total: u64,
}

impl Filter {
    pub open spec fn wf(&self) -> bool {
        self.basis.wf()
    }

    pub fn new(basis: Basis, allow: bool) -> (r: Filter)
        requires
            basis.wf(),
        ensures
            r.basis == basis,
            r.allow == allow,
            r.num_passed == 0,
            r.num_total == 0,
            r.wf(),
    {
        Filter { basis, allow, num_passed: 0, num_total: 0 }
    }

    /// Measure the qubit in the filter's basis; pass it on, collapsed to
    /// the matching eigenvector, exactly when the outcome equals `allow`.
    pub fn filter(&mut self, qb: Qubit) -> (r: Option<Qubit>)
        requires
            old(self).wf(),
            qb.wf(),
            old(self).num_total < u64::MAX,
            old(self).num_passed < u64::MAX,
        ensures
            final(self).wf(),
            final(self).basis == old(self).basis,
            final(self).allow == old(self).allow,
            final(self).num_total == old(self).num_total + 1,
            r matches Some(q) ==> {
                &&& final(self).num_passed == old(self).num_passed + 1
                &&& q.wf()
                &&& (old(self).allow ==> q@ == old(self).basis.on_ket())
                &&& (!old(self).allow ==> q@ == old(self).basis.off_ket())
            },
            r is None ==> final(self).num_passed == old(self).num_passed,
    {
        self.num_total = self.num_total + 1;
        let mut qb = qb;
        let outcome = qb.measure(&self.basis);
        if outcome == self.allow {
            self.num_passed = self.num_passed + 1;
            Some(qb)
        } else {
            None
        }
    }

    /// Forget the counts; the basis and the pass direction are kept.
    pub fn reset(&mut self)
        ensures
            final(self).basis == old(self).basis,
            final(self).allow == old(self).allow,
            final(self).num_passed == 0,
            final(self).num_total == 0,
    {
        self.num_passed = 0;
        self.num_total = 0;
    }
}

} // verus!
