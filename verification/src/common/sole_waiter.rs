//! The wait state of a side that has a single endpoint.

use vstd::prelude::*;

verus! {

/// Whether the only endpoint of a side sleeps, and what it is owed.
///
/// A blocking endpoint is `parked` while it sleeps on its thread, and an
/// asynchronous one is `pending` while its task waits to be polled. A
/// wake clears both and records the debts: an unpark of the thread, a
/// call of the task's waker. Whoever drives the ring collects the debts
/// and pays them.
#[derive(Clone, Copy, Debug, PartialEq, Eq, Structural)]
pub struct SoleWaiter {
    pub parked: bool,
    pub pending: bool,
    pub unpark_owed: bool,
    pub waker_owed: bool,
}

impl SoleWaiter {
    /// Nobody waits and nothing is owed.
    pub open spec fn idle() -> Self {
        SoleWaiter { parked: false, pending: false, unpark_owed: false, waker_owed: false }
    }

    /// This waiter after a wake.
    pub open spec fn woken(self) -> Self {
        SoleWaiter {
            parked: false,
            pending: false,
            unpark_owed: self.unpark_owed || self.parked,
            waker_owed: self.waker_owed || self.pending,
        }
    }

    pub fn new() -> (waiter: Self)
        ensures
            waiter == Self::idle(),
    {
        SoleWaiter { parked: false, pending: false, unpark_owed: false, waker_owed: false }
    }

    /// Announces that the endpoint is about to park its thread.
    pub fn arm(&mut self)
        ensures
            *final(self) == (SoleWaiter { parked: true, ..*old(self) }),
    {
        self.parked = true;
    }

    /// Withdraws the announcement.
    pub fn disarm(&mut self)
        ensures
            *final(self) == (SoleWaiter { parked: false, ..*old(self) }),
    {
        self.parked = false;
    }

    /// Registers the endpoint's task to be polled again.
    pub fn register(&mut self)
        ensures
            *final(self) == (SoleWaiter { pending: true, ..*old(self) }),
    {
        self.pending = true;
    }

    /// Withdraws the registration.
    pub fn deregister(&mut self)
        ensures
            *final(self) == (SoleWaiter { pending: false, ..*old(self) }),
    {
        self.pending = false;
    }

    /// Wakes the endpoint, if it waits.
    pub fn wake(&mut self)
        ensures
            *final(self) == old(self).woken(),
    {
        if self.parked {
            self.parked = false;
            self.unpark_owed = true;
        }
        if self.pending {
            self.pending = false;
            self.waker_owed = true;
        }
    }

    /// Collects the unpark that is owed to the thread.
    pub fn take_unpark(&mut self) -> (owed: bool)
        ensures
            owed == old(self).unpark_owed,
            *final(self) == (SoleWaiter { unpark_owed: false, ..*old(self) }),
    {
        let owed: bool = self.unpark_owed;
        self.unpark_owed = false;
        owed
    }

    /// Collects the waker call that is owed to the task.
    pub fn take_waker(&mut self) -> (owed: bool)
        ensures
            owed == old(self).waker_owed,
            *final(self) == (SoleWaiter { waker_owed: false, ..*old(self) }),
    {
        let owed: bool = self.waker_owed;
        self.waker_owed = false;
        owed
    }
}

/// A wake is never lost: a parked endpoint is owed its unpark and a
/// pending task its waker call, and neither waits any longer.
pub proof fn lemma_wake_reaches_the_waiter(waiter: SoleWaiter)
    ensures
        waiter.parked ==> waiter.woken().unpark_owed,
        waiter.pending ==> waiter.woken().waker_owed,
        !waiter.woken().parked,
        !waiter.woken().pending,
        waiter.woken().woken() == waiter.woken(),
{
}

/// An endpoint that withdraws before anybody has woken it leaves no trace.
pub proof fn lemma_withdrawal_leaves_no_trace(waiter: SoleWaiter)
    requires
        !waiter.parked,
        !waiter.pending,
    ensures
        (SoleWaiter { parked: false, ..SoleWaiter { parked: true, ..waiter } }) == waiter,
        (SoleWaiter { pending: false, ..SoleWaiter { pending: true, ..waiter } }) == waiter,
{
}

} // verus!
