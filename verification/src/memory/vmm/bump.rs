//! The allocator that serves the kernel before the heap exists.

use vstd::prelude::*;

verus! {

/// Hands out consecutive addresses from `start` on and never takes any
/// back; `size` is the number of bytes handed out so far.
#[derive(Clone, Copy, Debug, PartialEq, Eq, Structural)]
pub struct Bump {
    pub start: usize,
    pub size: usize,
}

impl Bump {
    /// An allocator that has handed out `size` bytes from `start` on.
    pub fn new(start: usize, size: usize) -> (b: Bump)
        ensures
            b.start == start,
            b.size == size,
    {
        Bump { start, size }
    }

    /// Hands out the next `n` bytes and returns their first address.
    pub fn allocate(&mut self, n: usize) -> (address: usize)
        requires
            old(self).start + old(self).size + n <= usize::MAX,
        ensures
            address == old(self).start + old(self).size,
            final(self).start == old(self).start,
            final(self).size == old(self).size + n,
    {
        let offset = self.size;
        self.size += n;
        self.start + offset
    }
}

} // verus!
