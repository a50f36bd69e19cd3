//! A lock for many readers or one writer, built from two spin locks.
//!
//! The first reader takes the write lock and the last gives it up, so a
//! writer waits until no reader is left. One thread of control is all
//! there is here, and it cannot wait for itself: taking the lock asks for
//! a state in which it can be taken.

use vstd::prelude::*;
use crate::arch::x86::lock::RawSpinLock;

verus! {

/// The lock and what it guards.
pub struct RwLock<T> {
    read_lock: RawSpinLock,
    write_lock: RawSpinLock,
    nreaders: usize,
    data: T,
}

impl<T> RwLock<T> {
    /// Number of readers that hold the lock.
    pub closed spec fn readers(&self) -> nat {
        self.nreaders as nat
    }

    /// Whether a writer holds the lock.
    pub closed spec fn writing(&self) -> bool {
        self.write_lock.locked() && self.nreaders == 0
    }

    /// What the lock guards.
    pub closed spec fn value(&self) -> T {
        self.data
    }

    /// The write lock is held exactly while there are readers or a writer,
    /// and the lock that guards the count of readers is free.
    pub closed spec fn wf(&self) -> bool {
        &&& self.read_lock.wf()
        &&& self.write_lock.wf()
        &&& !self.read_lock.locked()
        &&& self.nreaders > 0 ==> self.write_lock.locked()
    }

    /// A lock that guards `data` and that nobody holds.
    pub fn new(data: T) -> (l: Self)
        ensures
            l.wf(),
            l.readers() == 0,
            !l.writing(),
            l.value() == data,
    {
        RwLock { read_lock: RawSpinLock::new(), write_lock: RawSpinLock::new(), nreaders: 0, data }
    }

    /// Takes the lock for reading and gives access to what it guards. No
    /// writer may hold the lock.
    pub fn read(&mut self) -> (r: &T)
        requires
            old(self).wf(),
            !old(self).writing(),
            old(self).readers() < usize::MAX,
        ensures
            final(self).wf(),
            final(self).readers() == old(self).readers() + 1,
            !final(self).writing(),
            final(self).value() == old(self).value(),
            *r == old(self).value(),
    {
        self.read_lock.lock();
        self.nreaders = self.nreaders + 1;
        if self.nreaders == 1 {
            self.write_lock.lock();
        }
        self.read_lock.release();
        &self.data
    }

    /// Gives up a lock taken for reading.
    pub fn read_release(&mut self)
        requires
            old(self).wf(),
            old(self).readers() > 0,
        ensures
            final(self).wf(),
            final(self).readers() == old(self).readers() - 1,
            !final(self).writing(),
            final(self).value() == old(self).value(),
    {
        self.read_lock.lock();
        self.nreaders = self.nreaders - 1;
        if self.nreaders == 0 {
            self.write_lock.release();
        }
        self.read_lock.release();
    }

    /// Takes the lock for writing. Nobody may hold the lock.
    pub fn write(&mut self)
        requires
            old(self).wf(),
            old(self).readers() == 0,
            !old(self).writing(),
        ensures
            final(self).wf(),
            final(self).readers() == 0,
            final(self).writing(),
            final(self).value() == old(self).value(),
    {
        self.write_lock.lock();
    }

    /// Replaces what the lock guards, as the writer that holds the lock.
    pub fn set(&mut self, data: T)
        requires
            old(self).wf(),
            old(self).writing(),
        ensures
            final(self).wf(),
            final(self).writing(),
            final(self).readers() == 0,
            final(self).value() == data,
    {
        self.data = data;
    }

    /// Gives up a lock taken for writing.
    pub fn write_release(&mut self)
        requires
            old(self).wf(),
            old(self).writing(),
        ensures
            final(self).wf(),
            final(self).readers() == 0,
            !final(self).writing(),
            final(self).value() == old(self).value(),
    {
        self.write_lock.release();
    }
}

} // verus!
