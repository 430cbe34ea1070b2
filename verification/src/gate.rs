//! Admission gates: counting semaphores that bound how many sign and upload
//! stage invocations may execute concurrently.
//!
//! Each is sized once at construction. `try_acquire` grants a permit
//! exactly when spare capacity remains; `release` returns a permit.
//! The well-formedness invariant — never more outstanding permits than
//! capacity — is what bounds stage concurrency.

use vstd::prelude::*;

verus! {

/// A counting semaphore with a fixed capacity.
///
/// `outstanding` counts the permits currently held; it can never exceed
/// `capacity`.
pub struct AdmissionGate {
    pub capacity: usize,
    pub outstanding: usize,
}

impl AdmissionGate {
    /// Outstanding permits never outnumber the capacity.
    pub open spec fn wf(self) -> bool {
        self.outstanding <= self.capacity
    }

    /// True when another permit can be granted right now.
    pub open spec fn has_room(self) -> bool {
        self.outstanding < self.capacity
    }

    /// A fresh gate has all of its capacity available.
    pub fn new(capacity: usize) -> (g: AdmissionGate)
        ensures
            g.wf(),
            g.capacity == capacity,
            g.outstanding == 0,
    {
        AdmissionGate { capacity, outstanding: 0 }
    }

    /// Grant a permit when spare capacity remains; report whether one was granted.
    pub fn try_acquire(&mut self) -> (granted: bool)
        requires
            old(self).wf(),
        ensures
            final(self).wf(),
            final(self).capacity == old(self).capacity,
            granted <==> old(self).has_room(),
            granted ==> final(self).outstanding == old(self).outstanding + 1,
            !granted ==> final(self).outstanding == old(self).outstanding,
    {
        if self.outstanding < self.capacity {
            self.outstanding = self.outstanding + 1;
            true
        } else {
            false
        }
    }

    /// Give a permit back, restoring one unit of capacity.
    pub fn release(&mut self)
        requires
            old(self).wf(),
            old(self).outstanding >= 1,
        ensures
            final(self).wf(),
            final(self).capacity == old(self).capacity,
            final(self).outstanding == old(self).outstanding - 1,
    {
        self.outstanding = self.outstanding - 1;
    }
}

} // verus!
