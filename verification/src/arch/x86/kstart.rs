//! What the kernel does with memory when it starts: it reads the boot
//! loader's memory map, drops the mappings that only boot needed, and sets
//! up the frame manager with the kernel image and the paging structures
//! blocked out.

use vstd::prelude::*;
use crate::arch::common::multiboot::{
    entry_count, flags_refused, parse_mboot_info, regions_of, MbootError, MultibootInfo,
};
use crate::arch::x86::paging::{finalized, PageDir};
use crate::memory::pmm::bitmap::BitMap;
use crate::memory::pmm::{total_frames, usable, with_range, Frame, FrameRange, PageManager};
use crate::memory::{PhysicalMemory, MAX_PHYS_REGIONS, PAGE_SIZE};

verus! {

/// Whether frame `i` holds an address of the range from `start` to `end`.
pub open spec fn frame_touches(start: int, end: int, i: int) -> bool {
    start < end && start / (PAGE_SIZE as int) <= i && i * PAGE_SIZE < end
}

/// The frames that hold the addresses from `start` to `end`.
pub fn image_frames(start: usize, end: usize) -> (r: FrameRange)
    requires
        start <= end,
    ensures
        r.start.0 + r.size <= usize::MAX,
        forall|i: int|
            #[trigger] frame_touches(start as int, end as int, i) <==> r.start.0 <= i < r.start.0
                + r.size,
{
    let first = start / PAGE_SIZE;
    let last = end / PAGE_SIZE + (if end % PAGE_SIZE != 0 { 1 } else { 0 });
    if start == end {
        FrameRange { start: Frame(first), size: 0 }
    } else {
        FrameRange { start: Frame(first), size: last - first }
    }
}

/// Marks allocated those frames of `r` that `pmm` tracks.
pub fn reserve(pmm: &mut BitMap, r: FrameRange)
    requires
        old(pmm).inv(),
        r.start.0 + r.size <= usize::MAX,
    ensures
        final(pmm).inv(),
        final(pmm)@ == with_range(old(pmm)@, r.start.0 as int, r.size as int, true),
{
    let len = pmm.len();
    let first = if r.start.0 < len { r.start.0 } else { len };
    let last = if r.start.0 + r.size < len { r.start.0 + r.size } else { len };
    pmm.fill_range(FrameRange { start: Frame(first), size: last - first });
    assert(pmm@ =~= with_range(old(pmm)@, r.start.0 as int, r.size as int, true));
}

/// Whether frame `i` is free once the kernel has set up memory: it lies
/// entirely inside an available region and holds nothing of the kernel
/// image, of the page directory or of the page tables.
pub open spec fn free_at_boot(
    regions: Seq<crate::memory::PhysicalRegion>,
    image_start: int,
    image_end: int,
    paging_base: int,
    i: int,
) -> bool {
    &&& usable(regions, i)
    &&& !frame_touches(image_start, image_end, i)
    &&& !(paging_base / (PAGE_SIZE as int) <= i < paging_base / (PAGE_SIZE as int)
        + crate::arch::x86::paging::ENTRIES + 1)
}

/// Sets up memory from what the boot loader left: the regions of the memory
/// map are appended to `mem`, the identity mapping of low memory is removed
/// from `mapper`, and `pmm` is set up from the regions with the frames of
/// the kernel image, which lies at the physical addresses from
/// `kernel_image_start` to `kernel_image_end`, and those of the paging
/// structures blocked out. Boot information that is refused leaves
/// everything as it is.
pub fn setup_memory(
    info: &MultibootInfo,
    mmap: &[u8],
    kernel_image_start: usize,
    kernel_image_end: usize,
    mem: &mut PhysicalMemory,
    pmm: &mut BitMap,
    mapper: &mut PageDir,
) -> (r: Result<(), MbootError>)
    requires
        old(mem).wf(),
        old(mapper).wf(),
        info.mmap_length <= mmap@.len(),
        old(mem)@.len() + entry_count(info.mmap_length as int) <= MAX_PHYS_REGIONS,
        kernel_image_start <= kernel_image_end,
    ensures
        final(mem).wf(),
        final(mapper).wf(),
        old(pmm).inv() ==> final(pmm).inv(),
        match flags_refused(info.flags) {
            Some(e) => {
                &&& r == Err::<(), MbootError>(e)
                &&& final(mem)@ == old(mem)@
                &&& final(mapper)@ == old(mapper)@
                &&& final(pmm)@ == old(pmm)@
            },
            None => {
                &&& r is Ok
                &&& final(mem)@ == old(mem)@ + regions_of(
                    mmap@,
                    entry_count(info.mmap_length as int),
                )
                &&& final(mapper)@ == finalized(old(mapper)@)
                &&& final(pmm).inv()
                &&& final(pmm)@.len() == total_frames(final(mem)@)
                &&& forall|i: int|
                    0 <= i < final(pmm)@.len() ==> (!#[trigger] final(pmm)@[i] <==> free_at_boot(
                        final(mem)@,
                        kernel_image_start as int,
                        kernel_image_end as int,
                        old(mapper)@.base,
                        i,
                    ))
            },
        },
{
    match parse_mboot_info(info, mmap, mem) {
        Ok(_) => {},
        Err(e) => {
            return Err(e);
        },
    }
    mapper.cleanup_post_jump();
    crate::memory::pmm::init(pmm, mem);
    let image = image_frames(kernel_image_start, kernel_image_end);
    reserve(pmm, image);
    let tables = mapper.frames();
    reserve(pmm, tables);
    Ok(())
}

} // verus!
