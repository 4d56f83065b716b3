//! A counting limit on work that may run at once (at most two full-size
//! images are loaded together during batch enhancement). The caller holds
//! the counter under a lock and waits while no permit is free.

use vstd::prelude::*;

verus! {

/// How many permits are taken, out of how many.
#[derive(Debug)]
pub struct PermitCounter {
    active: usize,
    max_permits: usize,
}

impl PermitCounter {
    /// No more permits are taken than there are (or none, when there are
    /// none at all).
    pub closed spec fn wf(&self) -> bool {
        self.active <= self.max_permits
    }

    pub closed spec fn taken(&self) -> nat {
        self.active as nat
    }

    pub closed spec fn limit(&self) -> nat {
        self.max_permits as nat
    }

    /// A counter with `max_permits` permits, none taken.
    pub fn new(max_permits: usize) -> (r: PermitCounter)
        ensures
            r.wf(),
            r.taken() == 0,
            r.limit() == max_permits,
    {
        PermitCounter { active: 0, max_permits }
    }

    /// The number of permits taken.
    pub fn active(&self) -> (r: usize)
        ensures
            r == self.taken(),
    {
        self.active
    }

    /// Takes a permit when one is free; otherwise nothing changes and the
    /// caller waits.
    pub fn try_acquire(&mut self) -> (acquired: bool)
        requires
            old(self).wf(),
        ensures
            final(self).wf(),
            final(self).limit() == old(self).limit(),
            acquired == (old(self).taken() < old(self).limit()),
            acquired ==> final(self).taken() == old(self).taken() + 1,
            !acquired ==> final(self).taken() == old(self).taken(),
    {
        if self.active < self.max_permits {
            self.active = self.active + 1;
            true
        } else {
            false
        }
    }

    /// Gives a permit back.
    pub fn release(&mut self)
        requires
            old(self).wf(),
            old(self).taken() > 0,
        ensures
            final(self).wf(),
            final(self).limit() == old(self).limit(),
            final(self).taken() == old(self).taken() - 1,
    {
        self.active = self.active - 1;
    }
}

/// Law: a permit taken and given back leaves the counter as it was, and
/// while permits are taken and given back their number never exceeds the
/// limit.
pub proof fn law_acquire_release(before: PermitCounter, after_acquire: PermitCounter, after_release: PermitCounter)
    requires
        before.wf(),
        before.taken() < before.limit(),
        after_acquire.limit() == before.limit(),
        after_acquire.taken() == before.taken() + 1,
        after_release.limit() == after_acquire.limit(),
        after_release.taken() == after_acquire.taken() - 1,
    ensures
        after_acquire.taken() <= after_acquire.limit(),
        after_release.taken() == before.taken(),
        after_release.limit() == before.limit(),
{
}

} // verus!
