use kernel::error::Error;
use kernel::memory::pmm::bitmap::{BitMap, BITMAP_SIZE};
use kernel::memory::pmm::{Frame, FrameRange, PageManager, Zone};
use kernel::memory::{PhysicalMemory, PhysicalRegion, RegionType, PAGE_SIZE};

fn boot_map() -> PhysicalMemory {
    let mut mem = PhysicalMemory::new();
    mem.add_entry(PhysicalRegion::new(0x0, 0x9fc00, 1));
    mem.add_entry(PhysicalRegion::new(0x9fc00, 0x400, 2));
    mem.add_entry(PhysicalRegion::new(0x100000, 0x7f00000, 1));
    mem
}

#[test]
fn default_bitmap_is_all_free() {
    let b = Box::new(BitMap::default_const());
    assert_eq!(b.len(), BITMAP_SIZE);
    assert_eq!(b.free_pages(), BITMAP_SIZE);
    assert!(!b.is_allocated(0));
    assert!(!b.is_allocated(BITMAP_SIZE - 1));
}

#[test]
fn setup_frees_only_available_frames() {
    let mut b = Box::new(BitMap::default_const());
    let mem = boot_map();
    assert_eq!(b.setup(&mem), Ok(()));
    // highest address seen is 0x8000000
    assert_eq!(b.len(), 0x8000);
    // frames 0..0x9f lie inside the first region, 0x9f holds its end
    assert!(!b.is_allocated(0));
    assert!(!b.is_allocated(0x9e));
    assert!(b.is_allocated(0x9f));
    assert!(b.is_allocated(0xff));
    assert!(!b.is_allocated(0x100));
    assert!(!b.is_allocated(0x7fff));
    assert_eq!(b.free_pages(), 0x9f + 0x7f00);
}

#[test]
fn alloc_page_is_first_fit() {
    let mut b = Box::new(BitMap::default_const());
    assert_eq!(b.alloc_page(Zone::Normal), Ok(Frame(0)));
    assert_eq!(b.alloc_page(Zone::Normal), Ok(Frame(1)));
    b.free_page(Frame(0));
    assert_eq!(b.alloc_page(Zone::Normal), Ok(Frame(0)));
    assert_eq!(b.alloc_page(Zone::Normal), Ok(Frame(2)));
    assert_eq!(b.free_pages(), BITMAP_SIZE - 3);
}

#[test]
fn alloc_page_out_of_memory() {
    let mut b = Box::new(BitMap::default_const());
    b.fill_range(FrameRange { start: Frame(0), size: BITMAP_SIZE });
    assert_eq!(b.free_pages(), 0);
    assert_eq!(b.alloc_page(Zone::Normal), Err(Error::OutOfMemory));
    assert_eq!(b.alloc_contiguous_pages(1, Zone::Normal), Err(Error::OutOfMemory));
}

#[test]
fn dma_zone_stays_below_16_mib() {
    let mut b = Box::new(BitMap::default_const());
    b.fill_range(FrameRange { start: Frame(0), size: 0x1000 });
    assert_eq!(b.alloc_page(Zone::Dma), Err(Error::OutOfMemory));
    assert_eq!(b.alloc_page(Zone::Normal), Ok(Frame(0x1000)));
    b.free_page(Frame(0xfff));
    assert_eq!(b.alloc_page(Zone::Dma), Ok(Frame(0xfff)));
}

#[test]
fn contiguous_allocation_is_all_or_nothing() {
    let mut b = Box::new(BitMap::default_const());
    let mut mem = PhysicalMemory::new();
    mem.add_entry(PhysicalRegion::new(0, 16 * PAGE_SIZE, 1));
    let _ = b.setup(&mem);
    assert_eq!(b.len(), 16);
    b.fill_range(FrameRange { start: Frame(3), size: 1 });
    b.fill_range(FrameRange { start: Frame(8), size: 1 });
    // runs: 0..3, 4..8, 9..16
    assert_eq!(
        b.alloc_contiguous_pages(4, Zone::Normal),
        Ok(FrameRange { start: Frame(4), size: 4 })
    );
    assert_eq!(b.alloc_contiguous_pages(8, Zone::Normal), Err(Error::OutOfMemory));
    assert_eq!(b.free_pages(), 16 - 2 - 4);
    assert_eq!(b.alloc_contiguous_pages(0, Zone::Normal), Err(Error::OutOfMemory));
    assert_eq!(
        b.alloc_contiguous_pages(7, Zone::Normal),
        Ok(FrameRange { start: Frame(9), size: 7 })
    );
    assert_eq!(
        b.alloc_contiguous_pages(3, Zone::Normal),
        Ok(FrameRange { start: Frame(0), size: 3 })
    );
    assert_eq!(b.free_pages(), 0);
}

#[test]
fn fill_is_absolute() {
    let mut b = Box::new(BitMap::default_const());
    b.fill_range(FrameRange { start: Frame(0), size: 10 });
    b.fill_range(FrameRange { start: Frame(5), size: 10 });
    assert_eq!(b.free_pages(), BITMAP_SIZE - 15);
    assert_eq!(b.alloc_page(Zone::Normal), Ok(Frame(15)));
}

#[test]
fn get_phys_frames_rounds_down() {
    let b = Box::new(BitMap::default_const());
    let r = b.get_phys_frames(0x12345, 3);
    assert_eq!(r, FrameRange { start: Frame(0x12), size: 3 });
    assert_eq!(Frame(0x12).to_address(), 0x12000);
}

#[test]
fn region_type_codes() {
    assert_eq!(PhysicalRegion::new(0, 0, 0).rtype, RegionType::Unknown);
    assert_eq!(PhysicalRegion::new(0, 0, 1).rtype, RegionType::Available);
    assert_eq!(PhysicalRegion::new(0, 0, 2).rtype, RegionType::Reserved);
    assert_eq!(PhysicalRegion::new(0, 0, 3).rtype, RegionType::ACPI);
    assert_eq!(PhysicalRegion::new(0, 0, 4).rtype, RegionType::NVS);
    assert_eq!(PhysicalRegion::new(0, 0, 5).rtype, RegionType::BadRAM);
    assert_eq!(PhysicalRegion::new(0, 0, 6).rtype, RegionType::Unknown);
}

#[test]
fn live_frames_are_never_handed_out_again() {
    let mut b = Box::new(BitMap::default_const());
    let mut mem = PhysicalMemory::new();
    mem.add_entry(PhysicalRegion::new(0, 8 * PAGE_SIZE, 1));
    let _ = b.setup(&mem);
    let mut live: Vec<Frame> = Vec::new();
    // allocate, free every other frame, allocate again until nothing is left
    for _ in 0..6 {
        let f = b.alloc_page(Zone::Normal).unwrap();
        assert!(!live.contains(&f));
        live.push(f);
    }
    for f in [Frame(1), Frame(3), Frame(5)] {
        b.free_page(f);
        live.retain(|x| *x != f);
    }
    loop {
        match b.alloc_page(Zone::Normal) {
            Ok(f) => {
                assert!(!live.contains(&f));
                live.push(f);
            }
            Err(e) => {
                assert_eq!(e, Error::OutOfMemory);
                break;
            }
        }
    }
    assert_eq!(live.len(), 8);
    assert_eq!(b.free_pages(), 0);
}

#[test]
fn a_new_region_list_holds_empty_entries() {
    let mem = PhysicalMemory::new();
    assert_eq!(mem.size, 0);
    assert!(!mem.is_full());
    assert_eq!(mem.regions.len(), 10);
    for r in mem.regions.iter() {
        assert_eq!(*r, PhysicalRegion { start: 0, size: 0, rtype: RegionType::Unknown });
    }
}
