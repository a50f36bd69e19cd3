//! The spin lock that the kernel's locks are built from.
//!
//! The lock is a word that is exchanged atomically with the wanted state.
//! Here one thread of control is all there is, so taking a lock that is
//! held would never return: `lock` asks for a lock that is free.

use vstd::prelude::*;

verus! {

/// A lock word: 0 when free, 1 when held.
pub struct RawSpinLock {
    state: usize,
}

impl RawSpinLock {
    /// Whether the lock is held.
    pub closed spec fn locked(&self) -> bool {
        self.state != 0
    }

    /// The lock's word is 0 or 1.
    pub closed spec fn wf(&self) -> bool {
        self.state == 0 || self.state == 1
    }

    /// A new lock, free.
    pub fn new() -> (l: RawSpinLock)
        ensures
            l.wf(),
            !l.locked(),
    {
        RawSpinLock { state: 0 }
    }

    /// Whether the lock is held.
    pub fn is_locked(&self) -> (b: bool)
        ensures
            b == self.locked(),
    {
        self.state != 0
    }

    /// Exchanges the lock's word with `order`, which is 0 or 1, and says
    /// whether the word was `order` already.
    fn exchange(&mut self, order: usize) -> (same: bool)
        requires
            old(self).wf(),
            order == 0 || order == 1,
        ensures
            final(self).wf(),
            final(self).locked() == (order == 1),
            same == (old(self).locked() == (order == 1)),
    {
        let value = self.state;
        self.state = order;
        value == order
    }

    /// Takes the lock.
    pub fn lock(&mut self)
        requires
            old(self).wf(),
            !old(self).locked(),
        ensures
            final(self).wf(),
            final(self).locked(),
    {
        let mut held = self.exchange(1);
        while held
            invariant
                self.wf(),
                self.locked(),
                !held,
            decreases 0int,
        {
            held = self.exchange(1);
        }
    }

    /// Takes the lock if it is free, and says whether it did.
    pub fn try_lock(&mut self) -> (taken: bool)
        requires
            old(self).wf(),
        ensures
            final(self).wf(),
            final(self).locked(),
            taken == !old(self).locked(),
    {
        !self.exchange(1)
    }

    /// Gives the lock up.
    pub fn release(&mut self)
        requires
            old(self).wf(),
        ensures
            final(self).wf(),
            !final(self).locked(),
    {
        self.exchange(0);
    }
}

} // verus!
