//! Virtual memory: the mapper's interface and the kernel heap.

pub mod bump;
pub mod listalloc;
pub mod mapper;

use vstd::prelude::*;

verus! {

/// What a kernel heap allocator offers besides allocation itself.
pub trait KernelAllocator {
    /// First address of the region and the number of bytes it may grow to.
    spec fn region(&self) -> (int, int);

    /// Number of bytes of the region that are backed by pages.
    spec fn backed(&self) -> int;

    /// Number of blocks that the allocator keeps account of.
    spec fn blocks(&self) -> int;

    /// Sets the region that the allocator may grow into, `heapsize` bytes
    /// from `memstart` on. No memory is requested.
    fn init(&mut self, memstart: usize, heapsize: usize)
        requires
            memstart % crate::memory::PAGE_SIZE == 0,
            heapsize % crate::memory::PAGE_SIZE == 0,
            memstart + heapsize <= crate::arch::x86::paging::RESERVED_START,
            old(self).backed() == 0,
            old(self).blocks() == 0,
        ensures
            final(self).region() == (memstart as int, heapsize as int),
            final(self).backed() == 0,
            final(self).blocks() == 0,
    ;
}

/// The kernel's heap allocator, which may grow into the `size` bytes from
/// `memstart` on. No memory is requested.
pub fn init(memstart: usize, size: usize) -> (heap: listalloc::ListAllocator)
    requires
        memstart % crate::memory::PAGE_SIZE == 0,
        size % crate::memory::PAGE_SIZE == 0,
        memstart + size <= crate::arch::x86::paging::RESERVED_START,
    ensures
        heap.wf(),
        heap@.start == memstart,
        heap@.max == size,
        heap@.size == 0,
        heap@.free.len() == 0,
        heap@.used.len() == 0,
{
    let mut heap = listalloc::ListAllocator::default();
    heap.init(memstart, size);
    heap
}

} // verus!
