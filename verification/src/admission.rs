//! The per-route admission ledger: it bounds how many connections a
//! route is handling at once. Waiting and waking live outside the
//! crate; the ledger decides admission and accounts every release.

use vstd::prelude::*;

verus! {

/// Whether a route with `active` connections of `max` allowed may
/// admit one more.
pub open spec fn can_admit(active: nat, max: nat) -> bool {
    active < max
}

/// Admitting while admission is allowed keeps the count within the
/// cap: active connections never exceed `max`.
pub proof fn lemma_admit_keeps_cap(active: nat, max: nat)
    requires
        can_admit(active, max),
    ensures
        active + 1 <= max,
{
}

/// With a single slot, one admitted connection blocks the next until
/// a release makes the slot free again.
pub proof fn lemma_single_slot_serializes(active: nat)
    ensures
        can_admit(active, 1) <==> active == 0,
{
}

/// The admission ledger of one route.
pub struct AdmissionController {
    active: usize,
    max: usize,
}

impl AdmissionController {
    /// How many connections hold a permit now.
    pub closed spec fn active(self) -> nat {
        self.active as nat
    }

    /// The route's connection cap.
    pub closed spec fn cap(self) -> nat {
        self.max as nat
    }

    /// The ledger never counts more than the cap.
    pub closed spec fn wf(self) -> bool {
        self.active <= self.max
    }

    /// A ledger with every slot free.
    pub fn new(max_connections: usize) -> (r: AdmissionController)
        ensures
            r.wf(),
            r.active() == 0,
            r.cap() == max_connections as nat,
    {
        AdmissionController { active: 0, max: max_connections }
    }

    /// Admits one connection when a slot is free; a full route admits
    /// nothing until a release.
    pub fn try_acquire(&mut self) -> (r: bool)
        requires
            old(self).wf(),
        ensures
            final(self).wf(),
            final(self).cap() == old(self).cap(),
            r == can_admit(old(self).active(), old(self).cap()),
            r ==> final(self).active() == old(self).active() + 1,
            !r ==> final(self).active() == old(self).active(),
    {
        if self.active < self.max {
            self.active = self.active + 1;
            true
        } else {
            false
        }
    }

    /// Returns one permit. Every exit path of a handled connection
    /// releases exactly once.
    pub fn release(&mut self)
        requires
            old(self).wf(),
            old(self).active() >= 1,
        ensures
            final(self).wf(),
            final(self).cap() == old(self).cap(),
            final(self).active() == old(self).active() - 1,
    {
        self.active = self.active - 1;
    }
}

} // verus!
