use vstd::prelude::*;

verus! {

/// A counting admission gate: at most `capacity` permits are out at any time.
pub struct Limiter {
    capacity: usize,
    in_use: usize,
}

impl Limiter {
    /// The most permits that may be out together.
    pub closed spec fn capacity_spec(&self) -> nat {
        self.capacity as nat
    }

    /// The number of permits handed out and not yet returned.
    pub closed spec fn in_use_spec(&self) -> nat {
        self.in_use as nat
    }

    pub open spec fn wf(&self) -> bool {
        &&& self.capacity_spec() >= 1
        &&& self.in_use_spec() <= self.capacity_spec()
    }

    /// A gate with `capacity` permits, none handed out. A gate without
    /// capacity could never admit anything.
    pub fn new(capacity: usize) -> (r: Limiter)
        requires
            capacity >= 1,
        ensures
            r.wf(),
            r.capacity_spec() == capacity,
            r.in_use_spec() == 0,
    {
        Limiter { capacity, in_use: 0 }
    }

    pub fn capacity(&self) -> (r: usize)
        ensures
            r == self.capacity_spec(),
    {
        self.capacity
    }

    pub fn in_use(&self) -> (r: usize)
        ensures
            r == self.in_use_spec(),
    {
        self.in_use
    }

    /// Takes a permit if one is free; never waits.
    pub fn try_acquire(&mut self) -> (r: bool)
        requires
            old(self).wf(),
        ensures
            final(self).wf(),
            r == (old(self).in_use_spec() < old(self).capacity_spec()),
            final(self).capacity_spec() == old(self).capacity_spec(),
            final(self).in_use_spec() == old(self).in_use_spec() + if r { 1nat } else { 0nat },
    {
        if self.in_use < self.capacity {
            self.in_use = self.in_use + 1;
            true
        } else {
            false
        }
    }

    /// Returns a permit that was handed out.
    pub fn release(&mut self)
        requires
            old(self).wf(),
            old(self).in_use_spec() >= 1,
        ensures
            final(self).wf(),
            final(self).capacity_spec() == old(self).capacity_spec(),
            final(self).in_use_spec() + 1 == old(self).in_use_spec(),
    {
        self.in_use = self.in_use - 1;
    }
}

} // verus!
