//! The kernel's memory as one owned object.
//!
//! The regions of physical memory, the frame manager, the mapper and the
//! heap are each a single instance, and each is changed through a narrow
//! interface only. [`KernelMemory`] owns the four, brings them up in the
//! order that boot needs, and guards them with one spin lock.
//!
//! The order is: the regions are read from the boot loader's memory map, the
//! frame manager is set up from them, the mappings that only boot needed are
//! dropped; then the heap gets its region; then memory is handed out. An
//! operation that is asked for too early changes nothing and says so.
//!
//! An operation that changes anything holds the lock while it runs. One
//! that finds the lock held changes nothing and reports that the memory is
//! busy: this is what code sees that cut into an operation, or that holds
//! the lock itself.

use vstd::prelude::*;
use crate::arch::common::multiboot::{
    entry_count, flags_refused, regions_of, MbootError, MultibootInfo,
};
use crate::arch::x86::kstart::{free_at_boot, setup_memory};
use crate::arch::x86::paging::{
    dump_lines, finalized, lemma_map_page, lemma_map_pages, lemma_unmap_page, lemma_unmap_pages, linear_address,
    map_refusal, mappable_pages, page_of, pages_unmapped, range_mapped, range_unmapped,
    single_mapped, single_unmapped, first_refused, unmap_refusal, DumpLine, PageDir, PagingModel,
    ADDRESS_SPACE,
    RESERVED_START,
};
use crate::error::{Error, MappingError};
use crate::memory::pmm::bitmap::BitMap;
use crate::memory::pmm::{
    count_free, page_allocated, run_allocated, total_frames, with_range, Frame, FrameRange, Zone,
};
use crate::memory::vmm::listalloc::{
    allocated, backed_by, backed_page, deallocated, region_backed, BlockInfo, HeapModel,
    ListAllocator, ListLine,
};
use crate::memory::{PhysicalMemory, PhysicalRegion, MAX_PHYS_REGIONS, N_PAGES, PAGE_SIZE};
use crate::arch::x86::lock::RawSpinLock;

verus! {

/// How far the kernel's memory has been brought up.
#[derive(Clone, Copy, Debug, PartialEq, Eq, Structural)]
pub enum Stage {
    /// Nothing is known of physical memory yet.
    Start,
    /// The regions are known, frames can be handed out and pages mapped.
    Frames,
    /// The heap has its region and serves requests.
    Heap,
}

impl Stage {
    /// The place of the stage in the order of boot.
    pub open spec fn rank(self) -> int {
        match self {
            Stage::Start => 0,
            Stage::Frames => 1,
            Stage::Heap => 2,
        }
    }

    /// Whether the stage `needs` has been reached.
    pub fn reached(self, needs: Stage) -> (b: bool)
        ensures
            b == (self.rank() >= needs.rank()),
    {
        match needs {
            Stage::Start => true,
            Stage::Frames => !matches!(self, Stage::Start),
            Stage::Heap => matches!(self, Stage::Heap),
        }
    }
}

/// Why the kernel's memory did not do what it was asked.
#[derive(Clone, Copy, Debug, PartialEq, Eq, Structural)]
pub enum MemoryError {
    /// The lock is held: an operation is under way.
    Busy,
    /// What the operation needs has not been brought up yet, or what it
    /// brings up is there already.
    OutOfOrder,
    /// The pages belong to the heap, which alone maps and unmaps them.
    HeapRegion,
    /// The boot information cannot be used.
    Boot(MbootError),
    /// The mapper refused.
    Mapping(MappingError),
    /// No memory is left, or an argument names nothing that can be used.
    Memory(Error),
}

/// The regions of physical memory, the frame manager, the mapper and the
/// heap of the kernel, behind their lock.
pub struct KernelMemory {
    lock: RawSpinLock,
    stage: Stage,
    regions: PhysicalMemory,
    pmm: BitMap,
    mapper: PageDir,
    heap: ListAllocator,
    heap_start: usize,
    heap_max: usize,
}

/// Whether one of the `n` pages from `v` on lies in the region that starts
/// at `start` and has `max` bytes.
pub open spec fn touches(v: int, n: int, start: int, max: int) -> bool {
    n > 0 && max > 0 && v < start + max && start < v + n * 0x1000
}

/// Whether the `n` frames from `start` on are allocated, all of them.
pub open spec fn all_taken(frames: Seq<bool>, start: int, n: int) -> bool {
    forall|i: int| start <= i < start + n ==> #[trigger] frames[i]
}

/// Mapping at a page that lies outside a region leaves the region backed as
/// it was.
proof fn lemma_map_outside(start: int, size: int, max: int, m: PagingModel, f: int, v: int)
    requires
        m.wf(),
        0 <= f < N_PAGES,
        0 <= v < RESERVED_START,
        v % 0x1000 == 0,
        m.translate(v) is None,
        0 <= start,
        start % 0x1000 == 0,
        max % 0x1000 == 0,
        0 <= size <= max,
        start + max <= RESERVED_START,
        !touches(v, 1, start, max),
        region_backed(start, size, max, m),
    ensures
        region_backed(start, size, max, m.map_page(f, v)),
{
    lemma_map_page(m, f, v);
    let n = m.map_page(f, v);
    assert forall|x: int| #[trigger] backed_page(start, size, max, n, x) by {
        assert(backed_page(start, size, max, m, x));
        if start <= x < start + max && x % 0x1000 == 0 {
            assert(x / 0x1000 != v / 0x1000);
            assert(n.translate(x) == m.translate(x));
            assert(n.removable(x) == m.removable(x));
        }
    }
}

/// Removing the mapping of a page that lies outside a region leaves the
/// region backed as it was.
proof fn lemma_unmap_outside(start: int, size: int, max: int, m: PagingModel, v: int)
    requires
        m.wf(),
        unmap_refusal(m, v) is None,
        0 <= start,
        start % 0x1000 == 0,
        max % 0x1000 == 0,
        0 <= size <= max,
        start + max <= RESERVED_START,
        !touches(v, 1, start, max),
        region_backed(start, size, max, m),
    ensures
        region_backed(start, size, max, m.unmap_page(v)),
{
    lemma_unmap_page(m, v);
    let n = m.unmap_page(v);
    assert forall|x: int| #[trigger] backed_page(start, size, max, n, x) by {
        assert(backed_page(start, size, max, m, x));
        if start <= x < start + max && x % 0x1000 == 0 {
            assert(x / 0x1000 != v / 0x1000);
            assert(n.translate(x) == m.translate(x));
            assert(n.removable(x) == m.removable(x));
        }
    }
}

/// Mapping at pages that lie outside a region leaves the region backed as
/// it was.
proof fn lemma_map_run_outside(
    start: int,
    size: int,
    max: int,
    m: PagingModel,
    f: int,
    v: int,
    n: nat,
)
    requires
        m.wf(),
        0 <= f,
        f + n <= N_PAGES,
        0 <= v,
        v % 0x1000 == 0,
        v + n * 0x1000 <= RESERVED_START,
        pages_unmapped(m, v, n as int),
        0 <= size <= max,
        start + max <= RESERVED_START,
        !touches(v, n as int, start, max),
        region_backed(start, size, max, m),
    ensures
        region_backed(start, size, max, m.map_pages(f, v, n)),
{
    lemma_map_pages(m, f, v, n);
    let after = m.map_pages(f, v, n);
    assert forall|x: int| #[trigger] backed_page(start, size, max, after, x) by {
        assert(backed_page(start, size, max, m, x));
        if start <= x < start + max && x % 0x1000 == 0 {
            assert(after.translate(x) == m.translate(x));
            assert(after.removable(x) == m.removable(x));
        }
    }
}

/// Removing the mappings of pages that lie outside a region leaves the
/// region backed as it was.
proof fn lemma_unmap_run_outside(start: int, size: int, max: int, m: PagingModel, v: int, n: nat)
    requires
        m.wf(),
        0 <= v,
        v % 0x1000 == 0,
        crate::arch::x86::paging::pages_removable(m, v, n as int),
        0 <= size <= max,
        0 <= start,
        start + max <= RESERVED_START,
        !touches(v, n as int, start, max),
        region_backed(start, size, max, m),
    ensures
        region_backed(start, size, max, m.unmap_pages(v, n)),
{
    lemma_unmap_pages(m, v, n);
    let after = m.unmap_pages(v, n);
    assert forall|x: int| #[trigger] backed_page(start, size, max, after, x) by {
        assert(backed_page(start, size, max, m, x));
        if start <= x < start + max && x % 0x1000 == 0 {
            assert(after.translate(x) == m.translate(x));
            assert(after.removable(x) == m.removable(x));
        }
    }
}

impl KernelMemory {
    /// Whether the lock is held.
    pub closed spec fn locked(&self) -> bool {
        self.lock.locked()
    }

    /// How far the memory has been brought up.
    pub closed spec fn stage(&self) -> Stage {
        self.stage
    }

    /// The regions of physical memory.
    pub closed spec fn regions(&self) -> Seq<PhysicalRegion> {
        self.regions@
    }

    /// Which frames are allocated.
    pub closed spec fn frames(&self) -> Seq<bool> {
        self.pmm@
    }

    /// The page tables.
    pub closed spec fn paging(&self) -> PagingModel {
        self.mapper@
    }

    /// The heap.
    pub closed spec fn heap(&self) -> HeapModel {
        self.heap@
    }

    /// The parts are well formed, the heap's region is mapped as far as the
    /// heap has grown and no further, and there are no regions before the
    /// memory map was read and no heap region before the heap got one.
    pub closed spec fn wf(&self) -> bool {
        &&& self.lock.wf()
        &&& self.regions.wf()
        &&& self.pmm.inv()
        &&& self.mapper.wf()
        &&& self.heap.wf()
        &&& backed_by(self.heap@, self.mapper@)
        &&& self.heap@.start == self.heap_start
        &&& self.heap@.max == self.heap_max
        &&& self.stage is Start ==> self.regions@.len() == 0
        &&& !(self.stage is Heap) ==> self.heap@.max == 0 && self.heap@.used.len() == 0
    }

    /// Why an operation that needs stage `needs` is refused, if it is.
    pub open spec fn refusal(&self, needs: Stage) -> Option<MemoryError> {
        if self.locked() {
            Some(MemoryError::Busy)
        } else if self.stage().rank() < needs.rank() {
            Some(MemoryError::OutOfOrder)
        } else {
            None
        }
    }

    /// Nothing differs from `before`.
    pub open spec fn same_as(&self, before: &KernelMemory) -> bool {
        &&& self.locked() == before.locked()
        &&& self.stage() == before.stage()
        &&& self.regions() == before.regions()
        &&& self.frames() == before.frames()
        &&& self.paging() == before.paging()
        &&& self.heap() == before.heap()
    }

    /// The lock, the stage and the regions are those of `before`.
    pub open spec fn settled_as(&self, before: &KernelMemory) -> bool {
        &&& self.locked() == before.locked()
        &&& self.stage() == before.stage()
        &&& self.regions() == before.regions()
    }

    /// A well-formed memory has a well-formed frame manager, mapper and
    /// heap, and its heap serves nothing before it got its region.
    pub proof fn lemma_wf(&self)
        requires
            self.wf(),
        ensures
            self.paging().wf(),
            self.heap().wf(),
            backed_by(self.heap(), self.paging()),
            self.stage() is Start ==> self.regions().len() == 0,
            !(self.stage() is Heap) ==> self.heap().max == 0 && self.heap().used.len() == 0,
    {
    }

    /// The memory at the start of boot, with the page tables `mapper` as
    /// boot left them.
    pub fn new(mapper: PageDir) -> (m: KernelMemory)
        requires
            mapper.wf(),
        ensures
            m.wf(),
            !m.locked(),
            m.stage() == Stage::Start,
            m.regions() == Seq::<PhysicalRegion>::empty(),
            m.paging() == mapper@,
            m.heap().max == 0,
    {
        let heap = ListAllocator::default();
        proof {
            assert forall|v: int| #[trigger] backed_page(0, 0, 0, mapper@, v) by {}
        }
        KernelMemory {
            lock: RawSpinLock::new(),
            stage: Stage::Start,
            regions: PhysicalMemory::new(),
            pmm: BitMap::default_const(),
            mapper,
            heap,
            heap_start: 0,
            heap_max: 0,
        }
    }

    /// Whether the lock is held.
    pub fn is_locked(&self) -> (b: bool)
        ensures
            b == self.locked(),
    {
        self.lock.is_locked()
    }

    /// How far the memory has been brought up.
    pub fn current_stage(&self) -> (s: Stage)
        ensures
            s == self.stage(),
    {
        self.stage
    }

    /// Takes the lock if it is free, and says whether it did. Until
    /// `unlock` every operation reports that the memory is busy.
    pub fn try_lock(&mut self) -> (taken: bool)
        requires
            old(self).wf(),
        ensures
            final(self).wf(),
            final(self).locked(),
            taken == !old(self).locked(),
            final(self).stage() == old(self).stage(),
            final(self).regions() == old(self).regions(),
            final(self).frames() == old(self).frames(),
            final(self).paging() == old(self).paging(),
            final(self).heap() == old(self).heap(),
    {
        self.lock.try_lock()
    }

    /// Gives the lock up.
    pub fn unlock(&mut self)
        requires
            old(self).wf(),
        ensures
            final(self).wf(),
            !final(self).locked(),
            final(self).stage() == old(self).stage(),
            final(self).regions() == old(self).regions(),
            final(self).frames() == old(self).frames(),
            final(self).paging() == old(self).paging(),
            final(self).heap() == old(self).heap(),
    {
        self.lock.release();
    }

    /// Takes the lock for an operation that needs stage `needs`, or says
    /// why the operation is refused.
    fn enter(&mut self, needs: Stage) -> (r: Result<(), MemoryError>)
        requires
            old(self).wf(),
        ensures
            final(self).wf(),
            final(self).stage == old(self).stage,
            final(self).regions == old(self).regions,
            final(self).pmm == old(self).pmm,
            final(self).mapper == old(self).mapper,
            final(self).heap == old(self).heap,
            final(self).heap_start == old(self).heap_start,
            final(self).heap_max == old(self).heap_max,
            final(self).lock.wf(),
            match old(self).refusal(needs) {
                Some(e) => r == Err::<(), MemoryError>(e) && final(self).locked() == old(self).locked(),
                None => r is Ok && final(self).locked(),
            },
    {
        if !self.lock.try_lock() {
            return Err(MemoryError::Busy);
        }
        if !self.stage.reached(needs) {
            self.lock.release();
            return Err(MemoryError::OutOfOrder);
        }
        Ok(())
    }

    /// The regions of physical memory, which do not change once they were
    /// read.
    pub fn phys_mem(&self) -> (r: &PhysicalMemory)
        requires
            self.wf(),
        ensures
            r.wf(),
            r@ == self.regions(),
    {
        &self.regions
    }

    /// Brings up the frame manager from what the boot loader left: the
    /// regions of the memory map are read, the identity mapping of low
    /// memory is removed, and all frames are free that lie entirely in an
    /// available region and hold nothing of the kernel image, which lies at
    /// the physical addresses from `image_start` to `image_end`, nor of the
    /// paging structures. Boot information that is refused leaves
    /// everything as it is.
    pub fn boot(
        &mut self,
        info: &MultibootInfo,
        mmap: &[u8],
        image_start: usize,
        image_end: usize,
    ) -> (r: Result<(), MemoryError>)
        requires
            old(self).wf(),
            info.mmap_length <= mmap@.len(),
            entry_count(info.mmap_length as int) <= MAX_PHYS_REGIONS,
            image_start <= image_end,
        ensures
            final(self).wf(),
            final(self).locked() == old(self).locked(),
            final(self).heap() == old(self).heap(),
            if old(self).locked() {
                r == Err::<(), MemoryError>(MemoryError::Busy) && final(self).same_as(old(self))
            } else if !(old(self).stage() is Start) {
                r == Err::<(), MemoryError>(MemoryError::OutOfOrder) && final(self).same_as(old(self))
            } else {
                match flags_refused(info.flags) {
                    Some(e) => r == Err::<(), MemoryError>(MemoryError::Boot(e)) && final(self).same_as(old(self)),
                    None => {
                        &&& r is Ok
                        &&& final(self).stage() == Stage::Frames
                        &&& final(self).regions() == regions_of(
                            mmap@,
                            entry_count(info.mmap_length as int),
                        )
                        &&& final(self).paging() == finalized(old(self).paging())
                        &&& final(self).frames().len() == total_frames(final(self).regions())
                        &&& forall|i: int|
                            0 <= i < final(self).frames().len() ==> (!#[trigger] final(self).frames()[i] <==> free_at_boot(
                                final(self).regions(),
                                image_start as int,
                                image_end as int,
                                old(self).paging().base,
                                i,
                            ))
                    },
                }
            },
    {
        match self.enter(Stage::Start) {
            Ok(_) => {},
            Err(e) => {
                return Err(e);
            },
        }
        if !matches!(self.stage, Stage::Start) {
            self.lock.release();
            return Err(MemoryError::OutOfOrder);
        }
        let ghost before = self.mapper@;
        let r = setup_memory(
            info,
            mmap,
            image_start,
            image_end,
            &mut self.regions,
            &mut self.pmm,
            &mut self.mapper,
        );
        let r = match r {
            Ok(_) => {
                proof {
                    assert(self.regions@ =~= regions_of(mmap@, entry_count(info.mmap_length as int)));
                    assert forall|v: int| #[trigger] backed_page(0, 0, 0, self.mapper@, v) by {}
                }
                self.stage = Stage::Frames;
                Ok(())
            },
            Err(e) => Err(MemoryError::Boot(e)),
        };
        self.lock.release();
        r
    }
}

/// What the frame manager or the heap answered, if the result is one of
/// theirs.
pub open spec fn inner<T>(r: Result<T, MemoryError>) -> Option<Result<T, Error>> {
    match r {
        Ok(x) => Some(Ok(x)),
        Err(MemoryError::Memory(e)) => Some(Err(e)),
        Err(_) => None,
    }
}

/// What the mapper answered, if the result is one of its own.
pub open spec fn inner_mapping(r: Result<(), MemoryError>) -> Option<Result<(), MappingError>> {
    match r {
        Ok(x) => Some(Ok(x)),
        Err(MemoryError::Mapping(e)) => Some(Err(e)),
        Err(_) => None,
    }
}

/// Whether the `n` pages from `address` on lie in the address space.
pub fn fits(address: usize, n: usize) -> (b: bool)
    ensures
        b == (address + n * 0x1000 <= ADDRESS_SPACE),
{
    if address as u64 > ADDRESS_SPACE || n as u64 > 0x10_0000 {
        return false;
    }
    address as u64 + n as u64 * 0x1000 <= ADDRESS_SPACE
}

impl KernelMemory {
    /// Gives the heap the `max` bytes from virtual address `memstart` on to
    /// grow into. The heap asks for no memory yet. A region that is not
    /// made of pages below the addresses that the mapper keeps for itself is
    /// refused, and so is one in which something is mapped.
    pub fn start_heap(&mut self, memstart: usize, max: usize) -> (r: Result<(), MemoryError>)
        requires
            old(self).wf(),
        ensures
            final(self).wf(),
            final(self).locked() == old(self).locked(),
            final(self).regions() == old(self).regions(),
            final(self).frames() == old(self).frames(),
            final(self).paging() == old(self).paging(),
            if old(self).refusal(Stage::Frames) is Some {
                r == Err::<(), MemoryError>(old(self).refusal(Stage::Frames)->Some_0) && final(self).same_as(old(self))
            } else if old(self).stage() is Heap {
                r == Err::<(), MemoryError>(MemoryError::OutOfOrder) && final(self).same_as(old(self))
            } else if memstart % 0x1000 != 0 || max % 0x1000 != 0 || memstart + max > RESERVED_START {
                r == Err::<(), MemoryError>(MemoryError::Memory(Error::InvalidArgument)) && final(self).same_as(old(self))
            } else if !region_backed(memstart as int, 0, max as int, old(self).paging()) {
                r == Err::<(), MemoryError>(MemoryError::Mapping(MappingError::AlreadyMapped))
                    && final(self).same_as(old(self))
            } else {
                &&& r is Ok
                &&& final(self).stage() == Stage::Heap
                &&& final(self).heap().start == memstart
                &&& final(self).heap().max == max
                &&& final(self).heap().size == 0
                &&& final(self).heap().free.len() == 0
                &&& final(self).heap().used.len() == 0
            },
    {
        match self.enter(Stage::Frames) {
            Ok(_) => {},
            Err(e) => {
                return Err(e);
            },
        }
        if matches!(self.stage, Stage::Heap) {
            self.lock.release();
            return Err(MemoryError::OutOfOrder);
        }
        if memstart % PAGE_SIZE != 0 || max % PAGE_SIZE != 0 || max > RESERVED_START || memstart
            > RESERVED_START - max {
            self.lock.release();
            return Err(MemoryError::Memory(Error::InvalidArgument));
        }
        let heap = crate::memory::vmm::init(memstart, max);
        if !heap.is_backed(&self.mapper) {
            self.lock.release();
            return Err(MemoryError::Mapping(MappingError::AlreadyMapped));
        }
        self.heap = heap;
        self.heap_start = memstart;
        self.heap_max = max;
        self.stage = Stage::Heap;
        self.lock.release();
        Ok(())
    }

    /// Allocates the lowest free frame of zone `zone`.
    pub fn alloc_page(&mut self, zone: Zone) -> (r: Result<Frame, MemoryError>)
        requires
            old(self).wf(),
        ensures
            final(self).wf(),
            final(self).settled_as(old(self)),
            final(self).paging() == old(self).paging(),
            final(self).heap() == old(self).heap(),
            match old(self).refusal(Stage::Frames) {
                Some(e) => r == Err::<Frame, MemoryError>(e) && final(self).frames() == old(self).frames(),
                None => inner(r) is Some && page_allocated(
                    old(self).frames(),
                    final(self).frames(),
                    zone,
                    inner(r)->Some_0,
                ),
            },
    {
        match self.enter(Stage::Frames) {
            Ok(_) => {},
            Err(e) => {
                return Err(e);
            },
        }
        let r = crate::memory::pmm::alloc_page(&mut self.pmm, zone);
        self.lock.release();
        match r {
            Ok(f) => Ok(f),
            Err(e) => Err(MemoryError::Memory(e)),
        }
    }

    /// Allocates the lowest run of `n` free frames of zone `zone`, or
    /// nothing.
    pub fn alloc_contiguous(&mut self, n: usize, zone: Zone) -> (r: Result<FrameRange, MemoryError>)
        requires
            old(self).wf(),
        ensures
            final(self).wf(),
            final(self).settled_as(old(self)),
            final(self).paging() == old(self).paging(),
            final(self).heap() == old(self).heap(),
            match old(self).refusal(Stage::Frames) {
                Some(e) => r == Err::<FrameRange, MemoryError>(e) && final(self).frames() == old(self).frames(),
                None => inner(r) is Some && run_allocated(
                    old(self).frames(),
                    final(self).frames(),
                    n,
                    zone,
                    inner(r)->Some_0,
                ),
            },
    {
        match self.enter(Stage::Frames) {
            Ok(_) => {},
            Err(e) => {
                return Err(e);
            },
        }
        let r = crate::memory::pmm::alloc_contiguous_pages(&mut self.pmm, n, zone);
        self.lock.release();
        match r {
            Ok(f) => Ok(f),
            Err(e) => Err(MemoryError::Memory(e)),
        }
    }

    /// Why a change of the frames of `range` is refused, if it is: the
    /// frame manager does not track all of them.
    pub open spec fn untracked(&self, range: FrameRange) -> Option<MemoryError> {
        match self.refusal(Stage::Frames) {
            Some(e) => Some(e),
            None => if range.start.0 + range.size > self.frames().len() {
                Some(MemoryError::Memory(Error::InvalidArgument))
            } else {
                None
            },
        }
    }

    /// Takes the lock for a change of the frames of `range`, or says why
    /// the change is refused.
    fn enter_frames(&mut self, range: FrameRange) -> (r: Result<(), MemoryError>)
        requires
            old(self).wf(),
        ensures
            final(self).wf(),
            final(self).stage == old(self).stage,
            final(self).regions == old(self).regions,
            final(self).pmm == old(self).pmm,
            final(self).mapper == old(self).mapper,
            final(self).heap == old(self).heap,
            final(self).heap_start == old(self).heap_start,
            final(self).heap_max == old(self).heap_max,
            match old(self).untracked(range) {
                Some(e) => r == Err::<(), MemoryError>(e) && final(self).locked() == old(self).locked(),
                None => r is Ok && final(self).locked(),
            },
    {
        match self.enter(Stage::Frames) {
            Ok(_) => {},
            Err(e) => {
                return Err(e);
            },
        }
        let len = self.pmm.len();
        if range.size > len || range.start.0 > len - range.size {
            self.lock.release();
            return Err(MemoryError::Memory(Error::InvalidArgument));
        }
        Ok(())
    }

    /// Whether the frames of `range` are allocated, all of them.
    fn range_taken(&self, range: FrameRange) -> (b: bool)
        requires
            self.wf(),
            range.start.0 + range.size <= self.frames().len(),
        ensures
            b == all_taken(self.frames(), range.start.0 as int, range.size as int),
    {
        let mut i: usize = 0;
        while i < range.size
            invariant
                i <= range.size,
                self.wf(),
                range.start.0 + range.size <= self.pmm@.len(),
                all_taken(self.pmm@, range.start.0 as int, i as int),
            decreases range.size - i,
        {
            if !self.pmm.is_allocated(range.start.0 + i) {
                return false;
            }
            i = i + 1;
        }
        true
    }

    /// Gives frame `f` back. A frame that is free already is refused.
    pub fn free_page(&mut self, f: Frame) -> (r: Result<(), MemoryError>)
        requires
            old(self).wf(),
        ensures
            final(self).wf(),
            final(self).settled_as(old(self)),
            final(self).paging() == old(self).paging(),
            final(self).heap() == old(self).heap(),
            match old(self).untracked(FrameRange { start: f, size: 1 }) {
                Some(e) => r == Err::<(), MemoryError>(e) && final(self).frames() == old(self).frames(),
                None => if !old(self).frames()[f.0 as int] {
                    r == Err::<(), MemoryError>(MemoryError::Memory(Error::Fault)) && final(self).frames() == old(self).frames()
                } else {
                    r is Ok && final(self).frames() == old(self).frames().update(f.0 as int, false)
                },
            },
    {
        match self.enter_frames(FrameRange { start: f, size: 1 }) {
            Ok(_) => {},
            Err(e) => {
                return Err(e);
            },
        }
        if !self.pmm.is_allocated(f.0) {
            self.lock.release();
            return Err(MemoryError::Memory(Error::Fault));
        }
        crate::memory::pmm::free_page(&mut self.pmm, f);
        self.lock.release();
        Ok(())
    }

    /// Gives the frames of `range` back. A range with a frame that is free
    /// already is refused, and nothing of it is given back.
    pub fn free_contiguous(&mut self, range: FrameRange) -> (r: Result<(), MemoryError>)
        requires
            old(self).wf(),
        ensures
            final(self).wf(),
            final(self).settled_as(old(self)),
            final(self).paging() == old(self).paging(),
            final(self).heap() == old(self).heap(),
            match old(self).untracked(range) {
                Some(e) => r == Err::<(), MemoryError>(e) && final(self).frames() == old(self).frames(),
                None => if !all_taken(old(self).frames(), range.start.0 as int, range.size as int) {
                    r == Err::<(), MemoryError>(MemoryError::Memory(Error::Fault)) && final(self).frames() == old(self).frames()
                } else {
                    r is Ok && final(self).frames() == with_range(
                        old(self).frames(),
                        range.start.0 as int,
                        range.size as int,
                        false,
                    )
                },
            },
    {
        match self.enter_frames(range) {
            Ok(_) => {},
            Err(e) => {
                return Err(e);
            },
        }
        if !self.range_taken(range) {
            self.lock.release();
            return Err(MemoryError::Memory(Error::Fault));
        }
        crate::memory::pmm::free_contiguous_pages(&mut self.pmm, range);
        self.lock.release();
        Ok(())
    }

    /// Marks the frames of `range` allocated, whatever they were.
    pub fn fill_range(&mut self, range: FrameRange) -> (r: Result<(), MemoryError>)
        requires
            old(self).wf(),
        ensures
            final(self).wf(),
            final(self).settled_as(old(self)),
            final(self).paging() == old(self).paging(),
            final(self).heap() == old(self).heap(),
            match old(self).untracked(range) {
                Some(e) => r == Err::<(), MemoryError>(e) && final(self).frames() == old(self).frames(),
                None => r is Ok && final(self).frames() == with_range(
                    old(self).frames(),
                    range.start.0 as int,
                    range.size as int,
                    true,
                ),
            },
    {
        match self.enter_frames(range) {
            Ok(_) => {},
            Err(e) => {
                return Err(e);
            },
        }
        crate::memory::pmm::fill_range(&mut self.pmm, range);
        self.lock.release();
        Ok(())
    }

    /// The `n` frames from the one on that holds physical address
    /// `phys_addres`.
    pub fn get_phys_frames(&self, phys_addres: usize, n: usize) -> (r: FrameRange)
        ensures
            r.start.0 == phys_addres / PAGE_SIZE,
            r.size == n,
    {
        crate::memory::pmm::get_phys_frames(&self.pmm, phys_addres, n)
    }

    /// Number of frames that the frame manager tracks.
    pub fn frame_count(&self) -> (n: usize)
        requires
            self.wf(),
        ensures
            n == self.frames().len(),
    {
        self.pmm.len()
    }

    /// Number of free frames.
    pub fn free_frames(&self) -> (n: usize)
        requires
            self.wf(),
        ensures
            n == count_free(self.frames()),
    {
        self.pmm.free_pages()
    }

    /// Number of bytes that the heap has grown to.
    pub fn heap_size(&self) -> (n: usize)
        ensures
            n == self.heap().size,
    {
        self.heap.heapsize()
    }

    /// The free blocks of the heap, lowest first.
    pub fn free_blocks(&self) -> (r: Vec<BlockInfo>)
        ensures
            r@ == self.heap().free,
    {
        self.heap.free_blocks()
    }

    /// The lines of a listing of the free blocks of the heap.
    pub fn print_list(&self) -> (lines: Vec<ListLine>)
        ensures
            lines@.len() == self.heap().free.len(),
            forall|i: int|
                0 <= i < lines@.len() ==> #[trigger] lines@[i] == (ListLine {
                    index: i as usize,
                    size: self.heap().free[i].size,
                    addr: self.heap().free[i].addr,
                }),
    {
        self.heap.print_list()
    }

    /// The lines of a dump of the page directory and of the page tables.
    pub fn dump_dbg(&self) -> (lines: Vec<DumpLine>)
        requires
            self.wf(),
        ensures
            lines@ == dump_lines(self.paging(), 0, Seq::empty()),
    {
        self.mapper.dump_dbg()
    }

    /// Whether frame `f` is allocated.
    pub fn is_allocated(&self, f: Frame) -> (b: bool)
        requires
            self.wf(),
            f.0 < self.frames().len(),
        ensures
            b == self.frames()[f.0 as int],
    {
        self.pmm.is_allocated(f.0)
    }

    /// The physical address that `address` translates to.
    pub fn virt_to_phys(&self, address: usize) -> (r: Option<usize>)
        requires
            self.wf(),
        ensures
            match self.paging().translate(address as int) {
                Some(p) => r == Some(p as usize) && 0 <= p < ADDRESS_SPACE,
                None => r is None,
            },
    {
        self.mapper.virt_to_phys(address)
    }

    /// The virtual address at which the kernel's linear window shows
    /// physical address `address`.
    pub fn phys_to_virt(&self, address: usize) -> (r: Option<usize>)
        ensures
            match linear_address(address as int) {
                Some(v) => r == Some(v as usize),
                None => r is None,
            },
    {
        self.mapper.phys_to_virt(address)
    }

    /// Whether a mapping changed since the translation cache was flushed.
    pub fn is_stale(&self) -> (b: bool)
        ensures
            b == self.paging().stale,
    {
        self.mapper.is_stale()
    }

    /// Records that the translation cache was flushed.
    pub fn flush(&mut self)
        requires
            old(self).wf(),
        ensures
            final(self).wf(),
            final(self).settled_as(old(self)),
            final(self).frames() == old(self).frames(),
            final(self).heap() == old(self).heap(),
            final(self).paging() == (PagingModel { stale: false, ..old(self).paging() }),
    {
        self.mapper.flush();
        proof {
            let h = self.heap@;
            assert forall|v: int| #[trigger] backed_page(h.start, h.size, h.max, self.mapper@, v) by {
                assert(backed_page(h.start, h.size, h.max, old(self).mapper@, v));
            }
        }
    }

    /// Why a change of the mappings of the `n` pages from `address` on is
    /// refused before the mapper is asked, if it is: the pages do not lie
    /// in the address space, or one of them belongs to the heap.
    pub open spec fn guarded(&self, address: usize, n: usize) -> Option<MemoryError> {
        match self.refusal(Stage::Frames) {
            Some(e) => Some(e),
            None => if address + n * 0x1000 > ADDRESS_SPACE {
                Some(MemoryError::Memory(Error::InvalidArgument))
            } else if touches(address as int, n as int, self.heap().start, self.heap().max) {
                Some(MemoryError::HeapRegion)
            } else {
                None
            },
        }
    }

    /// Takes the lock for a change of the mappings of the `n` pages from
    /// `address` on, or says why the change is refused.
    fn enter_pages(&mut self, address: usize, n: usize) -> (r: Result<(), MemoryError>)
        requires
            old(self).wf(),
        ensures
            final(self).wf(),
            final(self).stage == old(self).stage,
            final(self).regions == old(self).regions,
            final(self).pmm == old(self).pmm,
            final(self).mapper == old(self).mapper,
            final(self).heap == old(self).heap,
            final(self).heap_start == old(self).heap_start,
            final(self).heap_max == old(self).heap_max,
            match old(self).guarded(address, n) {
                Some(e) => r == Err::<(), MemoryError>(e) && final(self).locked() == old(self).locked(),
                None => r is Ok && final(self).locked(),
            },
    {
        match self.enter(Stage::Frames) {
            Ok(_) => {},
            Err(e) => {
                return Err(e);
            },
        }
        if !fits(address, n) {
            self.lock.release();
            return Err(MemoryError::Memory(Error::InvalidArgument));
        }
        if n > 0 && self.heap_max > 0 && address < self.heap_start + self.heap_max
            && (self.heap_start as u64) < address as u64 + n as u64 * 0x1000 {
            self.lock.release();
            return Err(MemoryError::HeapRegion);
        }
        Ok(())
    }

    /// Whether none of the `n` pages from `address` on is mapped, as far as
    /// they lie below the addresses that the mapper keeps for itself.
    fn pages_free(&self, address: usize, n: usize) -> (b: bool)
        requires
            self.wf(),
            address + n * 0x1000 <= ADDRESS_SPACE,
        ensures
            b == pages_unmapped(self.paging(), address as int, n as int),
    {
        let mut i: usize = 0;
        while i < n
            invariant
                i <= n,
                self.wf(),
                address + n * 0x1000 <= ADDRESS_SPACE,
                pages_unmapped(self.mapper@, address as int, i as int),
            decreases n - i,
        {
            let page = address + i * PAGE_SIZE;
            assert(page_of(address as int, n as int, page as int));
            if page < RESERVED_START && self.mapper.virt_to_phys(page).is_some() {
                return false;
            }
            assert forall|x: int|
                page_of(address as int, i + 1, x) && x < RESERVED_START implies #[trigger] self.mapper@.translate(
                x,
            ) is None by {
                if !page_of(address as int, i as int, x) {
                    assert(x == page);
                }
            }
            i = i + 1;
        }
        true
    }

    /// Maps frame `f` at virtual address `address`. An address that is
    /// mapped already is refused.
    pub fn map_single(&mut self, f: Frame, address: usize) -> (r: Result<(), MemoryError>)
        requires
            old(self).wf(),
        ensures
            final(self).wf(),
            final(self).settled_as(old(self)),
            final(self).frames() == old(self).frames(),
            final(self).heap() == old(self).heap(),
            if old(self).guarded(address, 1) is Some {
                r == Err::<(), MemoryError>(old(self).guarded(address, 1)->Some_0) && final(self).paging() == old(self).paging()
            } else if f.0 >= N_PAGES {
                r == Err::<(), MemoryError>(MemoryError::Memory(Error::InvalidArgument)) && final(self).paging() == old(self).paging()
            } else if map_refusal(address as int) is None && old(self).paging().translate(
                address as int,
            ) is Some {
                r == Err::<(), MemoryError>(MemoryError::Mapping(MappingError::AlreadyMapped))
                    && final(self).paging() == old(self).paging()
            } else {
                inner_mapping(r) is Some && single_mapped(
                    old(self).paging(),
                    final(self).paging(),
                    f,
                    address,
                    inner_mapping(r)->Some_0,
                )
            },
    {
        match self.enter_pages(address, 1) {
            Ok(_) => {},
            Err(e) => {
                return Err(e);
            },
        }
        if f.0 >= N_PAGES {
            self.lock.release();
            return Err(MemoryError::Memory(Error::InvalidArgument));
        }
        if address % PAGE_SIZE != 0 {
            self.lock.release();
            return Err(MemoryError::Mapping(MappingError::Unaligned));
        }
        if address < RESERVED_START && self.mapper.virt_to_phys(address).is_some() {
            self.lock.release();
            return Err(MemoryError::Mapping(MappingError::AlreadyMapped));
        }
        let ghost before = self.mapper@;
        let r = self.mapper.map_single(f, address);
        proof {
            let h = self.heap@;
            if r is Ok {
                lemma_map_outside(h.start, h.size, h.max, before, f.0 as int, address as int);
            }
        }
        self.lock.release();
        match r {
            Ok(_) => Ok(()),
            Err(e) => Err(MemoryError::Mapping(e)),
        }
    }

    /// Removes the mapping at virtual address `address` and gives its frame
    /// back.
    pub fn unmap_single(&mut self, address: usize) -> (r: Result<(), MemoryError>)
        requires
            old(self).wf(),
        ensures
            final(self).wf(),
            final(self).settled_as(old(self)),
            final(self).heap() == old(self).heap(),
            match old(self).guarded(address, 1) {
                Some(e) => r == Err::<(), MemoryError>(e) && final(self).paging() == old(self).paging() && final(self).frames() == old(self).frames(),
                None => inner_mapping(r) is Some && single_unmapped(
                    old(self).paging(),
                    final(self).paging(),
                    old(self).frames(),
                    final(self).frames(),
                    address,
                    inner_mapping(r)->Some_0,
                ),
            },
    {
        match self.enter_pages(address, 1) {
            Ok(_) => {},
            Err(e) => {
                return Err(e);
            },
        }
        let ghost before = self.mapper@;
        let r = self.mapper.unmap_single(&mut self.pmm, address);
        proof {
            let h = self.heap@;
            if r is Ok {
                lemma_unmap_outside(h.start, h.size, h.max, before, address as int);
            }
        }
        self.lock.release();
        match r {
            Ok(_) => Ok(()),
            Err(e) => Err(MemoryError::Mapping(e)),
        }
    }

    /// Maps the frames of `range` at consecutive pages from `address` on.
    /// Nothing is mapped if one of the pages is mapped already. Pages that
    /// the mapper keeps for itself end the mapping with an error, and what
    /// was mapped before them stays.
    pub fn map_range(&mut self, range: FrameRange, address: usize) -> (r: Result<(), MemoryError>)
        requires
            old(self).wf(),
        ensures
            final(self).wf(),
            final(self).settled_as(old(self)),
            final(self).frames() == old(self).frames(),
            final(self).heap() == old(self).heap(),
            if old(self).guarded(address, range.size) is Some {
                r == Err::<(), MemoryError>(old(self).guarded(address, range.size)->Some_0)
                    && final(self).paging() == old(self).paging()
            } else if range.start.0 + range.size > N_PAGES {
                r == Err::<(), MemoryError>(MemoryError::Memory(Error::InvalidArgument)) && final(self).paging() == old(self).paging()
            } else if address % 0x1000 == 0 && !pages_unmapped(
                old(self).paging(),
                address as int,
                range.size as int,
            ) {
                r == Err::<(), MemoryError>(MemoryError::Mapping(MappingError::AlreadyMapped))
                    && final(self).paging() == old(self).paging()
            } else {
                inner_mapping(r) is Some && range_mapped(
                    old(self).paging(),
                    final(self).paging(),
                    range,
                    address,
                    inner_mapping(r)->Some_0,
                )
            },
    {
        match self.enter_pages(address, range.size) {
            Ok(_) => {},
            Err(e) => {
                return Err(e);
            },
        }
        if range.size > N_PAGES || range.start.0 > N_PAGES - range.size {
            self.lock.release();
            return Err(MemoryError::Memory(Error::InvalidArgument));
        }
        if address % PAGE_SIZE != 0 {
            self.lock.release();
            return Err(MemoryError::Mapping(MappingError::Unaligned));
        }
        if !self.pages_free(address, range.size) {
            self.lock.release();
            return Err(MemoryError::Mapping(MappingError::AlreadyMapped));
        }
        let ghost before = self.mapper@;
        let r = self.mapper.map_range(range, address);
        proof {
            let h = self.heap@;
            let k = mappable_pages(address as int, range.size as int);
            assert(0 <= k <= range.size);
            assert forall|x: int| page_of(address as int, k, x) implies page_of(
                address as int,
                range.size as int,
                x,
            ) by {}
            if k > 0 {
                assert(address + k * 0x1000 <= RESERVED_START);
                lemma_map_run_outside(
                    h.start,
                    h.size,
                    h.max,
                    before,
                    range.start.0 as int,
                    address as int,
                    k as nat,
                );
            }
        }
        self.lock.release();
        match r {
            Ok(_) => Ok(()),
            Err(e) => Err(MemoryError::Mapping(e)),
        }
    }

    /// Removes the mappings of the `n` pages from `address` on, page after
    /// page, and gives their frames back. The first page that cannot be
    /// unmapped ends this with its error, and what was unmapped before it
    /// stays unmapped.
    pub fn unmap_range(&mut self, address: usize, n: usize) -> (r: Result<(), MemoryError>)
        requires
            old(self).wf(),
        ensures
            final(self).wf(),
            final(self).settled_as(old(self)),
            final(self).heap() == old(self).heap(),
            match old(self).guarded(address, n) {
                Some(e) => r == Err::<(), MemoryError>(e) && final(self).paging() == old(self).paging() && final(self).frames() == old(self).frames(),
                None => inner_mapping(r) is Some && range_unmapped(
                    old(self).paging(),
                    final(self).paging(),
                    old(self).frames(),
                    final(self).frames(),
                    address,
                    n,
                    inner_mapping(r)->Some_0,
                ),
            },
    {
        match self.enter_pages(address, n) {
            Ok(_) => {},
            Err(e) => {
                return Err(e);
            },
        }
        let ghost before = self.mapper@;
        let r = self.mapper.unmap_range(&mut self.pmm, address, n);
        proof {
            let h = self.heap@;
            match r {
                Ok(_) => {
                    if n > 0 {
                        assert(page_of(address as int, n as int, address as int));
                        assert(unmap_refusal(before, address as int) is None);
                        lemma_unmap_run_outside(
                            h.start,
                            h.size,
                            h.max,
                            before,
                            address as int,
                            n as nat,
                        );
                    }
                },
                Err(e) => {
                    let i = choose|i: int|
                        {
                            &&& 0 <= i < n
                            &&& #[trigger] first_refused(before, address as int, i, e)
                            &&& self.mapper@ == before.unmap_pages(address as int, i as nat)
                        };
                    if i > 0 {
                        assert(page_of(address as int, i, address as int));
                        assert(unmap_refusal(before, address as int) is None);
                        lemma_unmap_run_outside(
                            h.start,
                            h.size,
                            h.max,
                            before,
                            address as int,
                            i as nat,
                        );
                    }
                },
            }
        }
        self.lock.release();
        match r {
            Ok(_) => Ok(()),
            Err(e) => Err(MemoryError::Mapping(e)),
        }
    }

    /// Serves a request for `size` bytes aligned to `align` from the heap,
    /// which grows by whole pages if no free block fits, and gives the
    /// address of the bytes.
    pub fn allocate(&mut self, size: usize, align: usize) -> (r: Result<usize, MemoryError>)
        requires
            old(self).wf(),
        ensures
            final(self).wf(),
            final(self).settled_as(old(self)),
            match old(self).refusal(Stage::Heap) {
                Some(e) => r == Err::<usize, MemoryError>(e) && final(self).same_as(old(self)),
                None => inner(r) is Some && allocated(
                    old(self).heap(),
                    final(self).heap(),
                    old(self).paging(),
                    final(self).paging(),
                    old(self).frames(),
                    final(self).frames(),
                    size,
                    align,
                    inner(r)->Some_0,
                ),
            },
            r is Ok ==> {
                &&& r->Ok_0 != 0
                &&& r->Ok_0 % align == 0
                &&& final(self).heap().owns(r->Ok_0 as int)
                &&& forall|i: int|
                    0 <= i < old(self).heap().used.len() ==> (#[trigger] old(self).heap().used[i]).end()
                        <= r->Ok_0 || r->Ok_0 + size <= old(self).heap().used[i].addr
            },
    {
        match self.enter(Stage::Heap) {
            Ok(_) => {},
            Err(e) => {
                return Err(e);
            },
        }
        let r = self.heap.allocate(&mut self.mapper, &mut self.pmm, size, align);
        self.lock.release();
        match r {
            Ok(a) => Ok(a),
            Err(e) => Err(MemoryError::Memory(e)),
        }
    }

    /// Gives the block back whose bytes start at `ptr`; the heap gives up
    /// the pages at its end that are free. An address that the heap did not
    /// hand out is refused.
    pub fn deallocate(&mut self, ptr: usize, size: usize, align: usize) -> (r: Result<(), MemoryError>)
        requires
            old(self).wf(),
        ensures
            final(self).wf(),
            final(self).settled_as(old(self)),
            match old(self).refusal(Stage::Heap) {
                Some(e) => r == Err::<(), MemoryError>(e) && final(self).same_as(old(self)),
                None => if !old(self).heap().owns(ptr as int) {
                    r == Err::<(), MemoryError>(MemoryError::Memory(Error::Fault)) && final(self).same_as(old(self))
                } else {
                    r is Ok && deallocated(
                        old(self).heap(),
                        final(self).heap(),
                        old(self).paging(),
                        final(self).paging(),
                        old(self).frames(),
                        final(self).frames(),
                        ptr,
                    )
                },
            },
    {
        match self.enter(Stage::Heap) {
            Ok(_) => {},
            Err(e) => {
                return Err(e);
            },
        }
        if !self.heap.owns(ptr) {
            self.lock.release();
            return Err(MemoryError::Memory(Error::Fault));
        }
        self.heap.deallocate(&mut self.mapper, &mut self.pmm, ptr, size, align);
        self.lock.release();
        Ok(())
    }
}

} // verus!
