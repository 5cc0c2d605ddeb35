//! A counting gate.

use vstd::prelude::*;

verus! {

/// Hands out a fixed number of permits.
#[derive(Debug)]
pub struct CapacityGate {
    capacity: usize,
    permits: usize,
}

impl CapacityGate {
    /// The number of permits that exist.
    pub closed spec fn spec_capacity(self) -> nat {
        self.capacity as nat
    }

    /// The number of permits that are free.
    pub closed spec fn spec_permits(self) -> nat {
        self.permits as nat
    }

    /// No more permits are free than exist, and their number fits a machine word.
    pub open spec fn wf(self) -> bool {
        self.spec_permits() <= self.spec_capacity() <= usize::MAX
    }

    /// A gate with `capacity` permits, all free.
    pub fn new(capacity: usize) -> (gate: CapacityGate)
        ensures
            gate.wf(),
            gate.spec_capacity() == capacity,
            gate.spec_permits() == capacity,
    {
        CapacityGate { capacity, permits: capacity }
    }

    /// The number of permits that are free.
    pub fn get_permits(&self) -> (permits: usize)
        ensures
            permits == self.spec_permits(),
    {
        self.permits
    }

    /// The number of permits that exist.
    pub fn capacity(&self) -> (capacity: usize)
        ensures
            capacity == self.spec_capacity(),
    {
        self.capacity
    }

    /// Takes a permit if one is free.
    pub fn try_acquire(&mut self) -> (acquired: bool)
        requires
            old(self).wf(),
        ensures
            final(self).wf(),
            final(self).spec_capacity() == old(self).spec_capacity(),
            acquired == (old(self).spec_permits() > 0),
            final(self).spec_permits() == old(self).spec_permits() - (if acquired {
                1int
            } else {
                0int
            }),
    {
        if self.permits > 0 {
            self.permits = self.permits - 1;
            true
        } else {
            false
        }
    }

    /// Gives a permit back that was taken before.
    pub fn release(&mut self)
        requires
            old(self).wf(),
            old(self).spec_permits() < old(self).spec_capacity(),
        ensures
            final(self).wf(),
            final(self).spec_capacity() == old(self).spec_capacity(),
            final(self).spec_permits() == old(self).spec_permits() + 1,
    {
        self.permits = self.permits + 1;
    }
}

} // verus!
