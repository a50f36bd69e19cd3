use kernel::arch::x86::paging::{
    DumpLine, PageDir, DIRECTORY_ADDRESS, PDE, PDEF, RESERVED_START,
};
use kernel::error::MappingError;
use kernel::memory::pmm::bitmap::BitMap;
use kernel::memory::pmm::{Frame, FrameRange, PageManager};
use kernel::memory::vmm::mapper::{
    map_range_kernel, map_single_kernel, phys_to_virt, unmap_range_kernel, unmap_single_kernel,
    virt_to_phys_kernel, MapperInterface,
};

const BASE: usize = 0x0040_0000;

#[test]
fn fresh_directory_maps_only_itself() {
    let dir = PageDir::new(BASE);
    assert_eq!(dir.base(), BASE);
    assert_eq!(dir.virt_to_phys(0), None);
    assert_eq!(dir.virt_to_phys(0xC000_0000), None);
    assert_eq!(dir.virt_to_phys(0xF000_0000), None);
    // the last page of the address space is the directory
    assert_eq!(dir.virt_to_phys(DIRECTORY_ADDRESS), Some(BASE));
    assert_eq!(dir.virt_to_phys(DIRECTORY_ADDRESS + 0x123), Some(BASE + 0x123));
    // the slot before the last maps the page tables
    assert_eq!(dir.virt_to_phys(RESERVED_START), Some(BASE + 0x1000));
    assert_eq!(dir.virt_to_phys(RESERVED_START + 5 * 0x1000 + 4), Some(BASE + 6 * 0x1000 + 4));
    assert!(!dir.is_stale());
    let frames = dir.frames();
    assert_eq!(frames, FrameRange { start: Frame(0x400), size: 1025 });
}

#[test]
fn map_then_translate_then_unmap() {
    let mut dir = PageDir::new(BASE);
    let mut pmm = Box::new(BitMap::default_const());
    let v = 0xF000_3000;
    assert_eq!(dir.virt_to_phys(v), None);
    assert_eq!(dir.map_single(Frame(0x1234), v), Ok(()));
    assert!(dir.is_stale());
    dir.flush();
    assert!(!dir.is_stale());
    assert_eq!(dir.virt_to_phys(v), Some(0x1234 * 0x1000));
    assert_eq!(dir.virt_to_phys(v + 0xfff), Some(0x1234 * 0x1000 + 0xfff));
    assert_eq!(dir.virt_to_phys(v + 0x1000), None);
    assert_eq!(dir.virt_to_phys(v - 1), None);
    // the page table of slot 960 now shows in the recursive slot
    assert_eq!(dir.virt_to_phys(0xFFC0_0000 + 960 * 0x1000), Some(BASE + 961 * 0x1000));
    assert_eq!(dir.entry(960), PDE((BASE + 961 * 0x1000 + 3) as u32));
    assert_eq!(dir.entry(1023), PDE(BASE as u32 + 3));
    assert_eq!(dir.table_entry(v / 0x1000), 0x1234 * 0x1000 + 3);
    assert_eq!(dir.table_entry(v / 0x1000 + 1), 0);
    assert!(dir.can_unmap(v));
    assert!(!dir.can_unmap(v + 0x1000));
    assert!(!dir.can_unmap(v + 4));
    pmm.fill_range(FrameRange { start: Frame(0x1234), size: 1 });
    let free = pmm.free_pages();
    assert_eq!(dir.unmap_single(&mut pmm, v), Ok(()));
    assert_eq!(dir.virt_to_phys(v), None);
    assert_eq!(pmm.free_pages(), free + 1);
    assert!(!pmm.is_allocated(0x1234));
}

#[test]
fn map_single_refuses_unaligned_and_reserved() {
    let mut dir = PageDir::new(BASE);
    assert_eq!(dir.map_single(Frame(1), 0xF000_0001), Err(MappingError::Unaligned));
    assert_eq!(dir.map_single(Frame(1), RESERVED_START), Err(MappingError::AlreadyMapped));
    assert_eq!(dir.map_single(Frame(1), DIRECTORY_ADDRESS), Err(MappingError::AlreadyMapped));
    assert_eq!(dir.virt_to_phys(0xF000_0000), None);
}

#[test]
fn unmap_single_refusals() {
    let mut dir = PageDir::new(BASE);
    let mut pmm = Box::new(BitMap::default_const());
    assert_eq!(dir.unmap_single(&mut pmm, 0xF000_0004), Err(MappingError::Unaligned));
    assert_eq!(dir.unmap_single(&mut pmm, 0xF000_0000), Err(MappingError::NotMapped));
    assert_eq!(dir.unmap_single(&mut pmm, DIRECTORY_ADDRESS), Err(MappingError::NotMapped));
    dir.setup_early_paging();
    // a page of a large page cannot be unmapped
    assert_eq!(dir.unmap_single(&mut pmm, 0xC000_0000), Err(MappingError::NotMapped));
    assert_eq!(pmm.free_pages(), pmm.len());
}

#[test]
fn map_range_maps_each_page() {
    let mut dir = PageDir::new(BASE);
    let r = FrameRange { start: Frame(0x500), size: 3 };
    // spans two directory slots
    let v = 0xF03F_F000;
    assert_eq!(dir.map_range(r, v), Ok(()));
    assert_eq!(dir.virt_to_phys(v), Some(0x500_000));
    assert_eq!(dir.virt_to_phys(v + 0x1000), Some(0x501_000));
    assert_eq!(dir.virt_to_phys(v + 0x2000 + 7), Some(0x502_007));
    assert_eq!(dir.virt_to_phys(v + 0x3000), None);
    assert_eq!(dir.map_range(r, v + 1), Err(MappingError::Unaligned));
}

#[test]
fn map_range_stops_at_reserved_addresses_and_keeps_what_it_mapped() {
    let mut dir = PageDir::new(BASE);
    let r = FrameRange { start: Frame(0x500), size: 3 };
    let v = RESERVED_START - 2 * 0x1000;
    assert_eq!(dir.map_range(r, v), Err(MappingError::AlreadyMapped));
    assert_eq!(dir.virt_to_phys(v), Some(0x500_000));
    assert_eq!(dir.virt_to_phys(v + 0x1000), Some(0x501_000));
    // the page tables' window is untouched
    assert_eq!(dir.virt_to_phys(RESERVED_START), Some(BASE + 0x1000));
}

#[test]
fn unmap_range_is_not_atomic() {
    let mut dir = PageDir::new(BASE);
    let mut pmm = Box::new(BitMap::default_const());
    pmm.fill_range(FrameRange { start: Frame(0x500), size: 2 });
    let v = 0xF000_0000;
    assert_eq!(dir.map_range(FrameRange { start: Frame(0x500), size: 2 }, v), Ok(()));
    // the third page is not mapped: the first two are unmapped all the same
    assert_eq!(dir.unmap_range(&mut pmm, v, 3), Err(MappingError::NotMapped));
    assert_eq!(dir.virt_to_phys(v), None);
    assert_eq!(dir.virt_to_phys(v + 0x1000), None);
    assert!(!pmm.is_allocated(0x500));
    assert!(!pmm.is_allocated(0x501));
    assert_eq!(dir.unmap_range(&mut pmm, v, 0), Ok(()));
    assert_eq!(dir.unmap_range(&mut pmm, v + 8, 1), Err(MappingError::Unaligned));
}

#[test]
fn early_paging_and_cleanup() {
    let mut dir = PageDir::new(BASE);
    dir.setup_early_paging();
    // identity mapping of the first 40 MiB
    assert_eq!(dir.virt_to_phys(0), Some(0));
    assert_eq!(dir.virt_to_phys(0x0123_4567), Some(0x0123_4567));
    assert_eq!(dir.virt_to_phys(0x027f_ffff), Some(0x027f_ffff));
    assert_eq!(dir.virt_to_phys(0x0280_0000), None);
    // linear window
    assert_eq!(dir.virt_to_phys(0xC000_0000), Some(0));
    assert_eq!(dir.virt_to_phys(0xC123_4567), Some(0x0123_4567));
    assert_eq!(dir.virt_to_phys(0xEFFF_FFFF), Some(0x2FFF_FFFF));
    assert_eq!(dir.virt_to_phys(0xF000_0000), None);
    dir.cleanup_post_jump();
    assert_eq!(dir.virt_to_phys(0), None);
    assert_eq!(dir.virt_to_phys(0x0123_4567), None);
    assert_eq!(dir.virt_to_phys(0xC123_4567), Some(0x0123_4567));
    assert_eq!(dir.virt_to_phys(DIRECTORY_ADDRESS), Some(BASE));
}

#[test]
fn phys_to_virt_covers_the_linear_window_only() {
    let dir = PageDir::new(BASE);
    assert_eq!(dir.phys_to_virt(0), Some(0xC000_0000));
    assert_eq!(dir.phys_to_virt(0x2FFF_FFFF), Some(0xEFFF_FFFF));
    assert_eq!(dir.phys_to_virt(0x3000_0000), None);
    assert_eq!(phys_to_virt(0x1000), Some(0xC000_1000));
    assert_eq!(phys_to_virt(0xFFFF_FFFF), None);
}

#[test]
fn kernel_mapper_functions() {
    let mut dir = PageDir::new(BASE);
    let mut pmm = Box::new(BitMap::default_const());
    assert_eq!(map_single_kernel(&mut dir, Frame(7), 0xF100_0000), Ok(()));
    assert_eq!(virt_to_phys_kernel(&dir, 0xF100_0010), Some(0x7010));
    assert_eq!(
        map_range_kernel(&mut dir, FrameRange { start: Frame(8), size: 2 }, 0xF100_1000),
        Ok(())
    );
    assert_eq!(virt_to_phys_kernel(&dir, 0xF100_2000), Some(0x9000));
    assert_eq!(unmap_single_kernel(&mut dir, &mut pmm, 0xF100_0000), Ok(()));
    assert_eq!(unmap_range_kernel(&mut dir, &mut pmm, 0xF100_1000, 2), Ok(()));
    assert_eq!(virt_to_phys_kernel(&dir, 0xF100_2000), None);
    // through the interface
    assert_eq!(MapperInterface::map_single(&mut dir, Frame(3), 0xF200_0000), Ok(()));
    assert_eq!(MapperInterface::virt_to_phys(&dir, 0xF200_0000), Some(0x3000));
}

#[test]
fn directory_entries_are_address_or_flags() {
    let flags = PDEF::from_bits_retain(0x83);
    assert_eq!(flags.bits(), 0x83);
    assert!(flags.contains(PDEF::from_bits_retain(0x80)));
    assert!(!flags.contains(PDEF::from_bits_retain(0x100)));
    assert_eq!(PDEF::empty().union(flags).bits(), 0x83);
    assert_eq!(PDE::new(0x0040_0000, flags), PDE(0x0040_0083));
    assert_eq!(PDE::aligned(0x1000, 3), PDE(0x1003));
}

#[test]
fn dump_leaves_out_runs_of_entries() {
    let dir = PageDir::new(BASE);
    let lines = dir.dump_dbg();
    let b = BASE as u32;
    assert_eq!(lines.len(), 12);
    assert_eq!(
        lines[0],
        DumpLine::Directory {
            index: 1022,
            entry: b + 1023 * 0x1000 + 3,
            from: 0xFF80_0000,
            to: 0xFFC0_0000
        }
    );
    // the table of tables: each entry is a page further than the one before
    assert_eq!(lines[1], DumpLine::Table { index: 0, entry: b + 0x1003, address: 0xFF80_0000 });
    assert_eq!(lines[4], DumpLine::Table { index: 3, entry: b + 0x4003, address: 0xFF80_3000 });
    assert_eq!(
        lines[5],
        DumpLine::Directory { index: 1023, entry: b + 3, from: 0xFFC0_0000, to: 0x1_0000_0000 }
    );
    // the directory as a page table: empty entries, then the last two
    assert_eq!(lines[6], DumpLine::Table { index: 0, entry: 0, address: 0xFFC0_0000 });
    assert_eq!(lines[8], DumpLine::Table { index: 2, entry: 0, address: 0xFFC0_2000 });
    assert_eq!(lines[9], DumpLine::Run { count: 1018, delta: 0 });
    assert_eq!(
        lines[10],
        DumpLine::Table { index: 1022, entry: b + 1023 * 0x1000 + 3, address: 0xFFFF_E000 }
    );
    assert_eq!(lines[11], DumpLine::Table { index: 1023, entry: b + 3, address: 0xFFFF_F000 });
}
