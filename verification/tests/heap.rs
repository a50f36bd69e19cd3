use kernel::arch::x86::paging::PageDir;
use kernel::error::Error;
use kernel::memory::pmm::bitmap::BitMap;
use kernel::memory::pmm::{Frame, FrameRange, PageManager};
use kernel::memory::vmm;
use kernel::memory::vmm::bump::Bump;
use kernel::memory::vmm::listalloc::{BlockInfo, ListAllocator, ListLine, HEADER_SIZE};
use kernel::memory::vmm::KernelAllocator;

const HEAP: usize = 0xF000_0000;
const PAGE: usize = 0x1000;

fn setup(max: usize) -> (ListAllocator, PageDir, Box<BitMap>) {
    let heap = vmm::init(HEAP, max);
    let dir = PageDir::new(0x0040_0000);
    let pmm = Box::new(BitMap::default_const());
    (heap, dir, pmm)
}

#[test]
fn init_requests_no_memory() {
    let (heap, dir, pmm) = setup(16 * PAGE);
    assert_eq!(heap.heapsize(), 0);
    assert!(heap.free_blocks().is_empty());
    assert_eq!(pmm.free_pages(), pmm.len());
    assert_eq!(dir.virt_to_phys(HEAP), None);
    let mut other = ListAllocator::default();
    other.init(HEAP, 4 * PAGE);
    assert_eq!(other.heapsize(), 0);
}

#[test]
fn adjust_layout_pads_size_and_alignment() {
    assert_eq!(ListAllocator::adjust_layout(0, 1), Some((8, 8)));
    assert_eq!(ListAllocator::adjust_layout(1, 1), Some((8, 8)));
    assert_eq!(ListAllocator::adjust_layout(9, 4), Some((16, 8)));
    assert_eq!(ListAllocator::adjust_layout(24, 16), Some((32, 16)));
    assert_eq!(ListAllocator::adjust_layout(5000, 4096), Some((8192, 4096)));
    assert_eq!(ListAllocator::adjust_layout(8, 0), None);
    assert_eq!(ListAllocator::adjust_layout(8, 3), None);
    assert_eq!(ListAllocator::adjust_layout(8, 12), None);
    assert_eq!(ListAllocator::adjust_layout(0x4000_0001, 8), None);
    assert_eq!(ListAllocator::adjust_layout(8, 0x8000_0000), None);
}

#[test]
fn first_allocation_grows_the_heap_by_whole_pages() {
    let (mut heap, mut dir, mut pmm) = setup(16 * PAGE);
    let free = pmm.free_pages();
    // 5000 bytes and the header need two pages
    let p = heap.allocate(&mut dir, &mut pmm, 5000, 8).unwrap();
    assert_eq!(p, HEAP + HEADER_SIZE);
    assert_eq!(heap.heapsize(), 2 * PAGE);
    assert_eq!(pmm.free_pages(), free - 2);
    assert_eq!(dir.virt_to_phys(HEAP), Some(0));
    assert_eq!(dir.virt_to_phys(HEAP + PAGE), Some(PAGE));
    assert_eq!(dir.virt_to_phys(HEAP + 2 * PAGE), None);
    // what is left of the pages is one free block
    assert_eq!(
        heap.free_blocks(),
        vec![BlockInfo { addr: HEAP + 8 + 5000, size: 2 * PAGE - 8 - 5000 }]
    );
    assert!(heap.owns(p));
    assert!(!heap.owns(p + 8));
    assert!(heap.is_backed(&dir));
    // a directory that maps nothing does not back the heap
    assert!(!heap.is_backed(&PageDir::new(0x0080_0000)));
}

#[test]
fn allocations_are_first_fit_and_aligned() {
    let (mut heap, mut dir, mut pmm) = setup(16 * PAGE);
    let a = heap.allocate(&mut dir, &mut pmm, 16, 8).unwrap();
    assert_eq!(a, HEAP + 8);
    let b = heap.allocate(&mut dir, &mut pmm, 16, 8).unwrap();
    assert_eq!(b, HEAP + 8 + 16 + 8);
    assert_eq!(heap.heapsize(), PAGE);
    // an alignment above the header's leaves a gap that stays free
    let c = heap.allocate(&mut dir, &mut pmm, 64, 256).unwrap();
    assert_eq!(c % 256, 0);
    assert_eq!(c, HEAP + 0x100);
    assert_eq!(
        heap.free_blocks(),
        vec![
            BlockInfo { addr: HEAP + 48, size: 0x100 - 8 - 48 },
            BlockInfo { addr: HEAP + 0x200, size: PAGE - 0x200 },
        ]
    );
    // the gap serves a later request that fits
    let d = heap.allocate(&mut dir, &mut pmm, 8, 1).unwrap();
    assert_eq!(d, HEAP + 48 + 8);
}

#[test]
fn invalid_request_and_exhaustion() {
    let (mut heap, mut dir, mut pmm) = setup(2 * PAGE);
    assert_eq!(heap.allocate(&mut dir, &mut pmm, 8, 3), Err(Error::InvalidArgument));
    // more than the region holds
    assert_eq!(heap.allocate(&mut dir, &mut pmm, 2 * PAGE, 8), Err(Error::OutOfMemory));
    assert_eq!(heap.heapsize(), 0);
    assert_eq!(pmm.free_pages(), pmm.len());
    // no frame left
    let all = pmm.len();
    pmm.fill_range(FrameRange { start: Frame(0), size: all });
    assert_eq!(heap.allocate(&mut dir, &mut pmm, 8, 8), Err(Error::OutOfMemory));
    assert_eq!(heap.heapsize(), 0);
    assert_eq!(dir.virt_to_phys(HEAP), None);
}

#[test]
fn freeing_adjacent_blocks_in_either_order_gives_one_block() {
    for order in 0..2 {
        let (mut heap, mut dir, mut pmm) = setup(16 * PAGE);
        let a = heap.allocate(&mut dir, &mut pmm, 100, 8).unwrap();
        let b = heap.allocate(&mut dir, &mut pmm, 200, 8).unwrap();
        let c = heap.allocate(&mut dir, &mut pmm, 64, 8).unwrap();
        assert_eq!(a, HEAP + 8);
        assert_eq!(b, HEAP + 8 + 104 + 8);
        assert_eq!(c, b + 200 + 8);
        if order == 0 {
            heap.deallocate(&mut dir, &mut pmm, a, 100, 8);
            heap.deallocate(&mut dir, &mut pmm, b, 200, 8);
        } else {
            heap.deallocate(&mut dir, &mut pmm, b, 200, 8);
            heap.deallocate(&mut dir, &mut pmm, a, 100, 8);
        }
        let free = heap.free_blocks();
        assert_eq!(free[0], BlockInfo { addr: HEAP, size: 8 + 104 + 8 + 200 });
        assert_eq!(free.len(), 2);
        // a block of the two sizes and the header between them fits there
        let d = heap.allocate(&mut dir, &mut pmm, 104 + 8 + 200, 8).unwrap();
        assert_eq!(d, a);
        assert_eq!(heap.free_blocks().len(), 1);
    }
}

#[test]
fn freeing_everything_gives_the_pages_back() {
    let (mut heap, mut dir, mut pmm) = setup(16 * PAGE);
    let free = pmm.free_pages();
    let a = heap.allocate(&mut dir, &mut pmm, 3000, 8).unwrap();
    let b = heap.allocate(&mut dir, &mut pmm, 3000, 8).unwrap();
    assert_eq!(heap.heapsize(), 2 * PAGE);
    assert_eq!(pmm.free_pages(), free - 2);
    heap.deallocate(&mut dir, &mut pmm, b, 3000, 8);
    // the second page is free again, the first still holds a block
    assert_eq!(heap.heapsize(), PAGE);
    assert_eq!(pmm.free_pages(), free - 1);
    assert_eq!(dir.virt_to_phys(HEAP + PAGE), None);
    assert_eq!(heap.free_blocks(), vec![BlockInfo { addr: HEAP + 3008, size: PAGE - 3008 }]);
    heap.deallocate(&mut dir, &mut pmm, a, 3000, 8);
    assert_eq!(heap.heapsize(), 0);
    assert_eq!(pmm.free_pages(), free);
    assert!(heap.free_blocks().is_empty());
    assert_eq!(dir.virt_to_phys(HEAP), None);
    assert!(!heap.owns(a));
}

#[test]
fn block_addresses() {
    let b = BlockInfo { addr: 0x1000, size: 64 };
    assert_eq!(b.addr(), 0x1000);
    assert_eq!(b.data(), 0x1008);
}

#[test]
fn bump_allocator_hands_out_consecutive_addresses() {
    let mut b = Bump::new(0x1000, 0);
    assert_eq!(b.allocate(16), 0x1000);
    assert_eq!(b.allocate(8), 0x1010);
    assert_eq!(b.size, 24);
}

#[test]
fn the_free_list_is_listed_block_by_block() {
    let (mut heap, mut dir, mut pmm) = setup(16 * PAGE);
    assert!(heap.print_list().is_empty());
    let a = heap.allocate(&mut dir, &mut pmm, 8, 8).unwrap();
    let _b = heap.allocate(&mut dir, &mut pmm, 8, 8).unwrap();
    heap.deallocate(&mut dir, &mut pmm, a, 8, 8);
    let lines = heap.print_list();
    assert_eq!(lines.len(), 2);
    assert_eq!(lines[0], ListLine { index: 0, size: 16, addr: HEAP });
    assert_eq!(lines[1], ListLine { index: 1, size: PAGE - 32, addr: HEAP + 32 });
}
