//! Admission control: a counting limiter that bounds the number of
//! connections being handled at once.
//!
//! The accept loop asks for a permit before spawning a handler and returns
//! it when the handler finishes. The invariant is the point: the number of
//! outstanding permits never exceeds the configured cap, so neither does
//! the number of handler tasks that hold one.

use vstd::prelude::*;

verus! {

/// The admission counter: how many permits are out, and how many may be.
pub struct AdmissionController {
    active: usize,
    max_connections: usize,
}

impl AdmissionController {
    /// No more permits are ever out than the cap allows.
    pub closed spec fn wf(&self) -> bool {
        self.active <= self.max_connections
    }

    /// How many permits are out.
    pub closed spec fn spec_active(&self) -> int {
        self.active as int
    }

    /// The cap.
    pub closed spec fn spec_max(&self) -> int {
        self.max_connections as int
    }

    /// A fresh counter with the given cap and no permits out.
    pub fn new(max_connections: usize) -> (r: Self)
        ensures
            r.wf(),
            r.spec_active() == 0,
            r.spec_max() == max_connections,
    {
        AdmissionController { active: 0, max_connections }
    }

    /// Grants a permit when one is free: true and one more permit out,
    /// or false and nothing changed.
    pub fn try_acquire(&mut self) -> (r: bool)
        requires
            old(self).wf(),
        ensures
            final(self).wf(),
            final(self).spec_max() == old(self).spec_max(),
            r == (old(self).spec_active() < old(self).spec_max()),
            r ==> final(self).spec_active() == old(self).spec_active() + 1,
            !r ==> final(self).spec_active() == old(self).spec_active(),
    {
        if self.active < self.max_connections {
            self.active = self.active + 1;
            true
        } else {
            false
        }
    }

    /// Takes a permit back.
    pub fn release(&mut self)
        requires
            old(self).wf(),
            old(self).spec_active() > 0,
        ensures
            final(self).wf(),
            final(self).spec_max() == old(self).spec_max(),
            final(self).spec_active() == old(self).spec_active() - 1,
    {
        self.active = self.active - 1;
    }

    /// How many permits are out.
    pub fn active(&self) -> (r: usize)
        ensures
            r == self.spec_active(),
    {
        self.active
    }

    /// The cap.
    pub fn max_connections(&self) -> (r: usize)
        ensures
            r == self.spec_max(),
    {
        self.max_connections
    }
}

/// Law: at any instant, the number of outstanding permits — and so of
/// handler tasks holding one — is at most the configured cap.
pub proof fn lemma_admission_bounded(c: &AdmissionController)
    requires
        c.wf(),
    ensures
        c.spec_active() <= c.spec_max(),
{
}

} // verus!
