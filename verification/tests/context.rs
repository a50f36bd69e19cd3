use kernel::arch::common::multiboot::{
    MbootError, MultibootInfo, INFO_SIZE, MULTIBOOT_INFO_MEM_MAP,
};
use kernel::arch::x86::paging::PageDir;
use kernel::error::{Error, MappingError};
use kernel::memory::context::{fits, KernelMemory, MemoryError, Stage};
use kernel::memory::pmm::{Frame, FrameRange, Zone};
use kernel::memory::RegionType;

const HEAP_AT: usize = 0xF000_0000;
const PAGE_BYTES: usize = 0x1000;

/// A memory map with one available region from 1 MiB to 256 MiB.
fn one_region() -> (MultibootInfo, Vec<u8>) {
    let mut mmap = Vec::new();
    mmap.extend_from_slice(&20u32.to_le_bytes());
    mmap.extend_from_slice(&0x10_0000u64.to_le_bytes());
    mmap.extend_from_slice(&(0x1000_0000u64 - 0x10_0000).to_le_bytes());
    mmap.extend_from_slice(&1u32.to_le_bytes());
    (boot_info(MULTIBOOT_INFO_MEM_MAP, mmap.len() as u32), mmap)
}

fn boot_info(flags: u32, mmap_length: u32) -> MultibootInfo {
    let mut blob = vec![0u8; INFO_SIZE];
    blob[0..4].copy_from_slice(&flags.to_le_bytes());
    blob[44..48].copy_from_slice(&mmap_length.to_le_bytes());
    MultibootInfo::from_bytes(&blob).unwrap()
}

/// The memory at the start of boot, the paging structures behind the
/// kernel image.
fn fresh() -> Box<KernelMemory> {
    let mut dir = PageDir::new(0x20_0000);
    dir.setup_early_paging();
    Box::new(KernelMemory::new(dir))
}

/// The memory with the frame manager up.
fn booted() -> Box<KernelMemory> {
    let mut m = fresh();
    let (info, mmap) = one_region();
    assert_eq!(m.boot(&info, &mmap, 0x10_0000, 0x20_0000), Ok(()));
    m
}

#[test]
fn memory_is_brought_up_in_order() {
    let mut m = fresh();
    assert_eq!(m.current_stage(), Stage::Start);
    assert_eq!(m.alloc_page(Zone::Normal), Err(MemoryError::OutOfOrder));
    assert_eq!(m.map_single(Frame(1), 0x4000_0000), Err(MemoryError::OutOfOrder));
    assert_eq!(m.start_heap(HEAP_AT, 16 * PAGE_BYTES), Err(MemoryError::OutOfOrder));
    assert_eq!(m.allocate(8, 8), Err(MemoryError::OutOfOrder));
    let (info, mmap) = one_region();
    assert_eq!(m.boot(&info, &mmap, 0x10_0000, 0x20_0000), Ok(()));
    assert_eq!(m.current_stage(), Stage::Frames);
    assert_eq!(m.boot(&info, &mmap, 0x10_0000, 0x20_0000), Err(MemoryError::OutOfOrder));
    assert_eq!(m.allocate(8, 8), Err(MemoryError::OutOfOrder));
    assert_eq!(m.deallocate(HEAP_AT + 8, 8, 8), Err(MemoryError::OutOfOrder));
    assert_eq!(m.start_heap(HEAP_AT, 16 * PAGE_BYTES), Ok(()));
    assert_eq!(m.current_stage(), Stage::Heap);
    assert_eq!(m.start_heap(HEAP_AT, 16 * PAGE_BYTES), Err(MemoryError::OutOfOrder));
    assert_eq!(m.allocate(8, 8), Ok(HEAP_AT + 8));
    assert!(!m.is_locked());
}

#[test]
fn boot_through_the_memory_blocks_out_the_image() {
    let mut m = booted();
    let regions = m.phys_mem();
    assert_eq!(regions.size, 1);
    assert_eq!(regions.get(0).start, 0x10_0000);
    assert_eq!(regions.get(0).rtype, RegionType::Available);
    assert_eq!(m.frame_count(), 0x1_0000);
    assert_eq!(m.virt_to_phys(0x10_0000), None);
    assert_eq!(m.virt_to_phys(0xC010_0000), Some(0x10_0000));
    assert_eq!(m.phys_to_virt(0x10_0000), Some(0xC010_0000));
    assert!(m.is_allocated(Frame(0)));
    assert!(m.is_allocated(Frame(0x1ff)));
    assert!(m.is_allocated(Frame(0x200 + 1024)));
    assert!(!m.is_allocated(Frame(0x200 + 1025)));
    assert_eq!(m.free_frames(), 0x1_0000 - 0x200 - 1025);
    let first = m.alloc_page(Zone::Normal).unwrap();
    assert!(first.0 >= 0x20_0000 / PAGE_BYTES);
    assert_eq!(first, Frame(0x200 + 1025));
    assert_eq!(m.get_phys_frames(0x20_1234, 3), FrameRange { start: Frame(0x201), size: 3 });
}

#[test]
fn refused_boot_information_leaves_the_memory_at_its_start() {
    let mut m = fresh();
    let (_, mmap) = one_region();
    let info = boot_info(0, mmap.len() as u32);
    assert_eq!(
        m.boot(&info, &mmap, 0x10_0000, 0x20_0000),
        Err(MemoryError::Boot(MbootError::NoMemoryMap))
    );
    assert_eq!(m.current_stage(), Stage::Start);
    assert_eq!(m.phys_mem().size, 0);
    assert_eq!(m.virt_to_phys(0x10_0000), Some(0x10_0000));
    assert!(!m.is_locked());
}

#[test]
fn a_held_lock_refuses_every_operation() {
    let mut m = booted();
    assert_eq!(m.start_heap(HEAP_AT, 16 * PAGE_BYTES), Ok(()));
    let free = m.free_frames();
    assert!(m.try_lock());
    assert!(m.is_locked());
    assert!(!m.try_lock());
    let (info, mmap) = one_region();
    assert_eq!(m.boot(&info, &mmap, 0x10_0000, 0x20_0000), Err(MemoryError::Busy));
    assert_eq!(m.start_heap(HEAP_AT, PAGE_BYTES), Err(MemoryError::Busy));
    assert_eq!(m.alloc_page(Zone::Normal), Err(MemoryError::Busy));
    assert_eq!(m.alloc_contiguous(2, Zone::Normal), Err(MemoryError::Busy));
    assert_eq!(m.free_page(Frame(0)), Err(MemoryError::Busy));
    assert_eq!(m.free_contiguous(FrameRange { start: Frame(0x1000), size: 2 }), Err(MemoryError::Busy));
    assert_eq!(m.fill_range(FrameRange { start: Frame(0x1000), size: 2 }), Err(MemoryError::Busy));
    assert_eq!(m.map_single(Frame(0x1000), 0x4000_0000), Err(MemoryError::Busy));
    assert_eq!(m.unmap_single(0x4000_0000), Err(MemoryError::Busy));
    assert_eq!(
        m.map_range(FrameRange { start: Frame(0x1000), size: 2 }, 0x4000_0000),
        Err(MemoryError::Busy)
    );
    assert_eq!(m.unmap_range(0x4000_0000, 2), Err(MemoryError::Busy));
    assert_eq!(m.allocate(8, 8), Err(MemoryError::Busy));
    assert_eq!(m.deallocate(HEAP_AT + 8, 8, 8), Err(MemoryError::Busy));
    assert!(m.is_locked());
    assert_eq!(m.free_frames(), free);
    assert_eq!(m.virt_to_phys(0x4000_0000), None);
    assert_eq!(m.heap_size(), 0);
    m.unlock();
    assert!(!m.is_locked());
    assert_eq!(m.allocate(8, 8), Ok(HEAP_AT + 8));
    assert!(!m.is_locked());
}

#[test]
fn frames_through_the_memory() {
    let mut m = booted();
    let first = 0x200 + 1025;
    assert_eq!(m.alloc_page(Zone::Normal), Ok(Frame(first)));
    assert_eq!(m.alloc_page(Zone::Normal), Ok(Frame(first + 1)));
    assert_eq!(m.free_page(Frame(first)), Ok(()));
    assert_eq!(m.alloc_page(Zone::Normal), Ok(Frame(first)));
    assert_eq!(
        m.alloc_contiguous(3, Zone::Normal),
        Ok(FrameRange { start: Frame(first + 2), size: 3 })
    );
    assert_eq!(m.alloc_contiguous(0, Zone::Normal), Err(MemoryError::Memory(Error::OutOfMemory)));
    assert_eq!(
        m.alloc_contiguous(0x1_0000, Zone::Normal),
        Err(MemoryError::Memory(Error::OutOfMemory))
    );
    assert_eq!(m.free_contiguous(FrameRange { start: Frame(first + 2), size: 3 }), Ok(()));
    // what is free cannot be given back
    assert_eq!(m.free_page(Frame(first + 2)), Err(MemoryError::Memory(Error::Fault)));
    assert_eq!(
        m.free_contiguous(FrameRange { start: Frame(first), size: 3 }),
        Err(MemoryError::Memory(Error::Fault))
    );
    assert!(m.is_allocated(Frame(first)));
    assert!(m.is_allocated(Frame(first + 1)));
    assert_eq!(m.free_contiguous(FrameRange { start: Frame(first), size: 0 }), Ok(()));
    assert_eq!(m.fill_range(FrameRange { start: Frame(first + 2), size: 2 }), Ok(()));
    assert_eq!(m.alloc_page(Zone::Normal), Ok(Frame(first + 4)));
    // frames that are not tracked
    assert_eq!(m.free_page(Frame(0x1_0000)), Err(MemoryError::Memory(Error::InvalidArgument)));
    assert_eq!(
        m.fill_range(FrameRange { start: Frame(0xffff), size: 2 }),
        Err(MemoryError::Memory(Error::InvalidArgument))
    );
    assert_eq!(
        m.free_contiguous(FrameRange { start: Frame(usize::MAX), size: usize::MAX }),
        Err(MemoryError::Memory(Error::InvalidArgument))
    );
    assert_eq!(m.fill_range(FrameRange { start: Frame(0xffff), size: 1 }), Ok(()));
}

#[test]
fn mappings_through_the_memory() {
    let mut m = booted();
    let v = 0x4000_0000;
    assert_eq!(m.map_single(Frame(0x1234), v), Ok(()));
    assert!(m.is_stale());
    m.flush();
    assert!(!m.is_stale());
    assert_eq!(m.virt_to_phys(v + 5), Some(0x1234 * PAGE_BYTES + 5));
    assert_eq!(
        m.map_single(Frame(0x1235), v),
        Err(MemoryError::Mapping(MappingError::AlreadyMapped))
    );
    assert_eq!(m.virt_to_phys(v), Some(0x1234 * PAGE_BYTES));
    assert_eq!(m.map_single(Frame(1), v + 1), Err(MemoryError::Mapping(MappingError::Unaligned)));
    assert_eq!(
        m.map_single(Frame(1), 0xFFC0_0000),
        Err(MemoryError::Mapping(MappingError::AlreadyMapped))
    );
    assert_eq!(
        m.map_single(Frame(0x10_0000), v + PAGE_BYTES),
        Err(MemoryError::Memory(Error::InvalidArgument))
    );
    // one page of the range is mapped already: nothing is mapped
    assert_eq!(
        m.map_range(FrameRange { start: Frame(0x2000), size: 3 }, v - 2 * PAGE_BYTES),
        Err(MemoryError::Mapping(MappingError::AlreadyMapped))
    );
    assert_eq!(m.virt_to_phys(v - 2 * PAGE_BYTES), None);
    assert_eq!(
        m.map_range(FrameRange { start: Frame(0x2000), size: 3 }, v + PAGE_BYTES),
        Ok(())
    );
    assert_eq!(m.virt_to_phys(v + 3 * PAGE_BYTES), Some(0x2002 * PAGE_BYTES));
    assert_eq!(
        m.map_range(FrameRange { start: Frame(0xf_ffff), size: 2 }, v + 8 * PAGE_BYTES),
        Err(MemoryError::Memory(Error::InvalidArgument))
    );
    assert_eq!(
        m.map_range(FrameRange { start: Frame(1), size: 1 }, v + 8 * PAGE_BYTES + 4),
        Err(MemoryError::Mapping(MappingError::Unaligned))
    );
    // unmapping gives the frame back
    assert_eq!(m.fill_range(FrameRange { start: Frame(0x1234), size: 1 }), Ok(()));
    let free = m.free_frames();
    assert_eq!(m.unmap_single(v), Ok(()));
    assert_eq!(m.free_frames(), free + 1);
    assert_eq!(m.virt_to_phys(v), None);
    assert_eq!(m.unmap_single(v), Err(MemoryError::Mapping(MappingError::NotMapped)));
    // the third page is not mapped: the two before it are gone all the same
    assert_eq!(m.unmap_single(v + 3 * PAGE_BYTES), Ok(()));
    assert_eq!(
        m.unmap_range(v + PAGE_BYTES, 3),
        Err(MemoryError::Mapping(MappingError::NotMapped))
    );
    assert_eq!(m.virt_to_phys(v + PAGE_BYTES), None);
    assert_eq!(m.virt_to_phys(v + 2 * PAGE_BYTES), None);
    assert_eq!(m.unmap_range(v, 0), Ok(()));
}

#[test]
fn pages_outside_the_address_space_are_refused() {
    assert!(fits(0xFFFF_F000, 1));
    assert!(!fits(0xFFFF_F000, 2));
    assert!(fits(0, 0x10_0000));
    assert!(!fits(1, 0x10_0000));
    assert!(!fits(0, usize::MAX));
    let mut m = booted();
    assert_eq!(
        m.unmap_range(0xFFFF_F000, 2),
        Err(MemoryError::Memory(Error::InvalidArgument))
    );
    assert_eq!(
        m.map_range(FrameRange { start: Frame(1), size: 2 }, 0xFFFF_F000),
        Err(MemoryError::Memory(Error::InvalidArgument))
    );
}

#[test]
fn the_heap_region_must_be_free_pages() {
    let mut m = booted();
    assert_eq!(
        m.start_heap(HEAP_AT + 1, PAGE_BYTES),
        Err(MemoryError::Memory(Error::InvalidArgument))
    );
    assert_eq!(
        m.start_heap(HEAP_AT, PAGE_BYTES + 1),
        Err(MemoryError::Memory(Error::InvalidArgument))
    );
    assert_eq!(
        m.start_heap(0xFF70_0000, 0x20_0000),
        Err(MemoryError::Memory(Error::InvalidArgument))
    );
    // the linear window is mapped
    assert_eq!(
        m.start_heap(0xC000_0000, 16 * PAGE_BYTES),
        Err(MemoryError::Mapping(MappingError::AlreadyMapped))
    );
    assert_eq!(m.map_single(Frame(0x3000), HEAP_AT + 2 * PAGE_BYTES), Ok(()));
    assert_eq!(
        m.start_heap(HEAP_AT, 16 * PAGE_BYTES),
        Err(MemoryError::Mapping(MappingError::AlreadyMapped))
    );
    assert_eq!(m.current_stage(), Stage::Frames);
    assert_eq!(m.start_heap(HEAP_AT, 2 * PAGE_BYTES), Ok(()));
    assert_eq!(m.current_stage(), Stage::Heap);
}

#[test]
fn the_pages_of_the_heap_are_the_heaps_alone() {
    let mut m = booted();
    assert_eq!(m.start_heap(HEAP_AT, 16 * PAGE_BYTES), Ok(()));
    assert_eq!(m.allocate(8, 8), Ok(HEAP_AT + 8));
    assert_eq!(m.heap_size(), PAGE_BYTES);
    assert_eq!(m.unmap_single(HEAP_AT), Err(MemoryError::HeapRegion));
    assert_eq!(m.map_single(Frame(0x3000), HEAP_AT + 4 * PAGE_BYTES), Err(MemoryError::HeapRegion));
    assert_eq!(
        m.map_range(FrameRange { start: Frame(0x3000), size: 2 }, HEAP_AT - PAGE_BYTES),
        Err(MemoryError::HeapRegion)
    );
    assert_eq!(m.unmap_range(HEAP_AT + 15 * PAGE_BYTES, 2), Err(MemoryError::HeapRegion));
    assert!(m.virt_to_phys(HEAP_AT).is_some());
    // below the region lies the linear window, which stays as it is
    assert_eq!(m.virt_to_phys(HEAP_AT - PAGE_BYTES), Some(0x2FFF_F000));
    assert_eq!(
        m.map_single(Frame(0x3000), HEAP_AT - PAGE_BYTES),
        Err(MemoryError::Mapping(MappingError::AlreadyMapped))
    );
    // behind the region everything goes on as before
    assert_eq!(m.map_single(Frame(0x3001), HEAP_AT + 16 * PAGE_BYTES), Ok(()));
    // no free block holds two pages: the heap grows, and the block lies at its old end
    assert_eq!(m.allocate(2 * PAGE_BYTES, 8), Ok(HEAP_AT + PAGE_BYTES + 8));
    assert_eq!(m.heap_size(), 4 * PAGE_BYTES);
}

#[test]
fn the_heap_grows_and_shrinks_by_whole_pages() {
    let mut m = booted();
    assert_eq!(m.start_heap(HEAP_AT, 16 * PAGE_BYTES), Ok(()));
    let free = m.free_frames();
    // 5000 bytes and their header need two pages
    let p = m.allocate(5000, 8).unwrap();
    assert_eq!(p, HEAP_AT + 8);
    assert_eq!(m.heap_size(), 2 * PAGE_BYTES);
    assert_eq!(m.free_frames(), free - 2);
    assert_eq!(m.virt_to_phys(HEAP_AT + PAGE_BYTES).is_some(), true);
    assert_eq!(m.deallocate(p + 8, 5000, 8), Err(MemoryError::Memory(Error::Fault)));
    assert_eq!(m.deallocate(p, 5000, 8), Ok(()));
    assert_eq!(m.heap_size(), 0);
    assert_eq!(m.free_frames(), free);
    assert_eq!(m.virt_to_phys(HEAP_AT), None);
    assert_eq!(m.deallocate(p, 5000, 8), Err(MemoryError::Memory(Error::Fault)));
    assert_eq!(m.allocate(8, 3), Err(MemoryError::Memory(Error::InvalidArgument)));
    assert_eq!(
        m.allocate(17 * PAGE_BYTES, 8),
        Err(MemoryError::Memory(Error::OutOfMemory))
    );
}
