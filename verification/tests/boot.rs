use kernel::arch::common::multiboot::{
    parse_mboot_info, parse_memory_map, read_u16, read_u32, read_u64, MbootError, MultibootInfo,
    INFO_SIZE, MULTIBOOT_INFO_AOUT_SYMS, MULTIBOOT_INFO_ELF_SHDR, MULTIBOOT_INFO_MEMORY,
    MULTIBOOT_INFO_MEM_MAP,
};
use kernel::arch::x86::kstart::{image_frames, reserve, setup_memory};
use kernel::arch::x86::paging::PageDir;
use kernel::memory::pmm::bitmap::BitMap;
use kernel::memory::pmm::{alloc_page, Frame, FrameRange, PageManager, Zone};
use kernel::memory::{PhysicalMemory, PhysicalRegion, RegionType};

fn entry(base: u64, length: u64, kind: u32) -> Vec<u8> {
    let mut v = Vec::new();
    v.extend_from_slice(&20u32.to_le_bytes());
    v.extend_from_slice(&base.to_le_bytes());
    v.extend_from_slice(&length.to_le_bytes());
    v.extend_from_slice(&kind.to_le_bytes());
    v
}

fn info(flags: u32, mmap_length: u32) -> MultibootInfo {
    let mut blob = vec![0u8; INFO_SIZE];
    blob[0..4].copy_from_slice(&flags.to_le_bytes());
    blob[44..48].copy_from_slice(&mmap_length.to_le_bytes());
    MultibootInfo::from_bytes(&blob).unwrap()
}

#[test]
fn numbers_are_little_endian() {
    let b = [0x78, 0x56, 0x34, 0x12, 0xef, 0xcd, 0xab, 0x90];
    assert_eq!(read_u16(&b, 0), 0x5678);
    assert_eq!(read_u32(&b, 0), 0x1234_5678);
    assert_eq!(read_u32(&b, 4), 0x90ab_cdef);
    assert_eq!(read_u64(&b, 0), 0x90ab_cdef_1234_5678);
}

#[test]
fn info_block_is_read_field_by_field() {
    let mut blob = vec![0u8; INFO_SIZE];
    for (i, b) in blob.iter_mut().enumerate() {
        *b = i as u8;
    }
    let info = MultibootInfo::from_bytes(&blob).unwrap();
    assert_eq!(info.flags, 0x0302_0100);
    assert_eq!(info.mem_lower, 0x0706_0504);
    assert_eq!(info.mods_addr, 0x1b1a_1918);
    assert_eq!(info.u.num, 0x1f1e_1d1c);
    assert_eq!(info.u.shndx, 0x2b2a_2928);
    assert_eq!(info.mmap_length, 0x2f2e_2d2c);
    assert_eq!(info.mmap_addr, 0x3332_3130);
    assert_eq!(info.vbe_mode, 0x5150);
    assert_eq!(info.vbe_interface_len, 0x5756);
    assert_eq!(info.framebuffer_addr, 0x5f5e_5d5c_5b5a_5958);
    assert_eq!(info.framebuffer_height, 0x6b6a_6968);
    assert_eq!(info.framebuffer_bpp, 0x6c);
    assert_eq!(info.framebuffer_type, 0x6d);
    assert_eq!(info.framebuffer_palette.palette_addr, 0x7170_6f6e);
    assert_eq!(info.framebuffer_palette.palette_num_colors, 0x7372);
    assert_eq!(MultibootInfo::from_bytes(&blob[..INFO_SIZE - 1]), None);
}

#[test]
fn memory_map_entries_become_regions() {
    let mut mmap = entry(0, 0x9fc00, 1);
    mmap.extend(entry(0x9fc00, 0x400, 2));
    mmap.extend(entry(0x10_0000, 0x7ef_0000, 1));
    mmap.extend(entry(0x7ff_0000, 0x1_0000, 3));
    mmap.extend(entry(0xfffc_0000, 0x4_0000, 9));
    // beyond the last address: no region
    mmap.extend(entry(0x1_0000_0000, 0x1000_0000, 1));
    // reaches beyond what 32 bits hold: cut
    mmap.extend(entry(0x8000_0000, 0x2_0000_0000, 5));
    // a trailing partial record does not count
    mmap.extend_from_slice(&[0u8; 10]);
    let info = info(MULTIBOOT_INFO_MEM_MAP, mmap.len() as u32);
    let mut mem = PhysicalMemory::new();
    parse_memory_map(&info, &mmap, &mut mem);
    assert_eq!(mem.size, 6);
    assert_eq!(
        mem.get(0),
        PhysicalRegion { start: 0, size: 0x9fc00, rtype: RegionType::Available }
    );
    assert_eq!(mem.get(1).rtype, RegionType::Reserved);
    assert_eq!(mem.get(3).rtype, RegionType::ACPI);
    assert_eq!(
        mem.get(4),
        PhysicalRegion { start: 0xfffc_0000, size: 0x4_0000, rtype: RegionType::Unknown }
    );
    assert_eq!(
        mem.get(5),
        PhysicalRegion { start: 0x8000_0000, size: 0xffff_ffff, rtype: RegionType::BadRAM }
    );
    assert!(!mem.is_full());
}

#[test]
fn flags_are_checked_before_the_map_is_read() {
    let mmap = entry(0, 0x1000, 1);
    let mut mem = PhysicalMemory::new();
    let both = MULTIBOOT_INFO_AOUT_SYMS | MULTIBOOT_INFO_ELF_SHDR | MULTIBOOT_INFO_MEM_MAP;
    assert_eq!(parse_mboot_info(&info(both, 24), &mmap, &mut mem), Err(MbootError::InvalidFlags));
    assert_eq!(
        parse_mboot_info(&info(MULTIBOOT_INFO_MEMORY, 24), &mmap, &mut mem),
        Err(MbootError::NoMemoryMap)
    );
    assert_eq!(
        parse_mboot_info(
            &info(MULTIBOOT_INFO_AOUT_SYMS | MULTIBOOT_INFO_ELF_SHDR, 24),
            &mmap,
            &mut mem
        ),
        Err(MbootError::InvalidFlags)
    );
    assert_eq!(mem.size, 0);
    let elf = MULTIBOOT_INFO_ELF_SHDR | MULTIBOOT_INFO_MEM_MAP;
    assert_eq!(parse_mboot_info(&info(elf, 24), &mmap, &mut mem), Ok(()));
    assert_eq!(mem.size, 1);
    // parsing again appends
    assert_eq!(parse_mboot_info(&info(elf, 24), &mmap, &mut mem), Ok(()));
    assert_eq!(mem.size, 2);
}

#[test]
fn image_frames_cover_every_touched_frame() {
    assert_eq!(image_frames(0x10_0000, 0x20_0000), FrameRange { start: Frame(0x100), size: 0x100 });
    assert_eq!(image_frames(0x10_0800, 0x10_1001), FrameRange { start: Frame(0x100), size: 2 });
    assert_eq!(image_frames(0x5000, 0x5000).size, 0);
}

#[test]
fn reserve_ignores_frames_that_are_not_tracked() {
    let mut pmm = Box::new(BitMap::default_const());
    let mut mem = PhysicalMemory::new();
    mem.add_entry(PhysicalRegion::new(0, 0x8000, 1));
    let _ = pmm.setup(&mem);
    assert_eq!(pmm.len(), 8);
    reserve(&mut pmm, FrameRange { start: Frame(6), size: 10 });
    assert_eq!(pmm.free_pages(), 6);
    reserve(&mut pmm, FrameRange { start: Frame(100), size: 10 });
    assert_eq!(pmm.free_pages(), 6);
}

#[test]
fn end_to_end_boot() {
    // one available region from 1 MiB to 256 MiB, kernel image in its first MiB
    let mmap = entry(0x10_0000, 0x1000_0000 - 0x10_0000, 1);
    let info = info(MULTIBOOT_INFO_MEM_MAP, mmap.len() as u32);
    let mut mem = PhysicalMemory::new();
    let mut pmm = Box::new(BitMap::default_const());
    // the paging structures lie behind the kernel image
    let mut dir = PageDir::new(0x20_0000);
    dir.setup_early_paging();
    assert_eq!(
        setup_memory(&info, &mmap, 0x10_0000, 0x20_0000, &mut mem, &mut pmm, &mut dir),
        Ok(())
    );
    assert_eq!(mem.size, 1);
    assert_eq!(pmm.len(), 0x1_0000);
    // low memory is no longer mapped onto itself, the linear window stays
    assert_eq!(dir.virt_to_phys(0x10_0000), None);
    assert_eq!(dir.virt_to_phys(0xC010_0000), Some(0x10_0000));
    // frames below the region, of the image and of the paging structures are taken
    assert!(pmm.is_allocated(0));
    assert!(pmm.is_allocated(0xff));
    assert!(pmm.is_allocated(0x100));
    assert!(pmm.is_allocated(0x1ff));
    assert!(pmm.is_allocated(0x200));
    assert!(pmm.is_allocated(0x200 + 1024));
    assert!(!pmm.is_allocated(0x200 + 1025));
    assert_eq!(pmm.free_pages(), 0x1_0000 - 0x200 - 1025);
    let first = alloc_page(&mut pmm, Zone::Normal).unwrap();
    assert!(first.0 >= 0x20_0000 / 0x1000);
    assert_eq!(first, Frame(0x200 + 1025));
    let second = alloc_page(&mut pmm, Zone::Normal).unwrap();
    assert!(second.0 > first.0);
}

#[test]
fn end_to_end_boot_with_the_image_alone() {
    let mmap = entry(0x10_0000, 0x1000_0000 - 0x10_0000, 1);
    let info = info(MULTIBOOT_INFO_MEM_MAP, mmap.len() as u32);
    let mut mem = PhysicalMemory::new();
    let mut pmm = Box::new(BitMap::default_const());
    // paging structures outside the tracked frames
    let mut dir = PageDir::new(0x4000_0000);
    assert_eq!(
        setup_memory(&info, &mmap, 0x10_0000, 0x20_0000, &mut mem, &mut pmm, &mut dir),
        Ok(())
    );
    assert_eq!(alloc_page(&mut pmm, Zone::Normal), Ok(Frame(0x200)));
}

#[test]
fn refused_boot_information_changes_nothing() {
    let mmap = entry(0x10_0000, 0x100_0000, 1);
    let info = info(0, mmap.len() as u32);
    let mut mem = PhysicalMemory::new();
    let mut pmm = Box::new(BitMap::default_const());
    let mut dir = PageDir::new(0x20_0000);
    dir.setup_early_paging();
    assert_eq!(
        setup_memory(&info, &mmap, 0x10_0000, 0x20_0000, &mut mem, &mut pmm, &mut dir),
        Err(MbootError::NoMemoryMap)
    );
    assert_eq!(mem.size, 0);
    assert_eq!(pmm.free_pages(), pmm.len());
    assert_eq!(dir.virt_to_phys(0x10_0000), Some(0x10_0000));
}
