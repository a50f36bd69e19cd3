//! What a multiboot boot loader hands to the kernel.
//!
//! The boot loader leaves an information block of `INFO_SIZE` bytes and,
//! where bit 6 of its flags is set, a memory map: records of
//! `MMAP_ENTRY_SIZE` bytes, one after the other. All numbers are little
//! endian.

use vstd::prelude::*;
use crate::memory::{PhysicalMemory, PhysicalRegion, MAX_PHYS_REGIONS};

verus! {

/// The magic number that the boot loader leaves in `eax`.
pub const MULTIBOOT_BOOTLOADER_MAGIC: u32 = 0x2BADB002;

/// Is there basic lower and upper memory information?
pub const MULTIBOOT_INFO_MEMORY: u32 = 0x0000_0001;

/// Is there a boot device set?
pub const MULTIBOOT_INFO_BOOTDEV: u32 = 0x0000_0002;

/// Is the command line defined?
pub const MULTIBOOT_INFO_CMDLINE: u32 = 0x0000_0004;

/// Are there modules to do something with?
pub const MULTIBOOT_INFO_MODS: u32 = 0x0000_0008;

/// Is there a symbol table loaded? Excludes `MULTIBOOT_INFO_ELF_SHDR`.
pub const MULTIBOOT_INFO_AOUT_SYMS: u32 = 0x0000_0010;

/// Is there an ELF section header table? Excludes
/// `MULTIBOOT_INFO_AOUT_SYMS`.
pub const MULTIBOOT_INFO_ELF_SHDR: u32 = 0x0000_0020;

/// Is there a full memory map?
pub const MULTIBOOT_INFO_MEM_MAP: u32 = 0x0000_0040;

/// Is there drive information?
pub const MULTIBOOT_INFO_DRIVE_INFO: u32 = 0x0000_0080;

/// Is there a configuration table?
pub const MULTIBOOT_INFO_CONFIG_TABLE: u32 = 0x0000_0100;

/// Is there a boot loader name?
pub const MULTIBOOT_INFO_BOOT_LOADER_NAME: u32 = 0x0000_0200;

/// Is there an APM table?
pub const MULTIBOOT_INFO_APM_TABLE: u32 = 0x0000_0400;

/// Is there video information?
pub const MULTIBOOT_INFO_VBE_INFO: u32 = 0x0000_0800;

/// Is there framebuffer information?
pub const MULTIBOOT_INFO_FRAMEBUFFER_INFO: u32 = 0x0000_1000;

/// Size of the information block in bytes.
pub const INFO_SIZE: usize = 116;

/// Size of one record of the memory map in bytes.
pub const MMAP_ENTRY_SIZE: usize = 24;

/// Highest physical address of the machine.
pub const LAST_ADDRESS: u64 = 0xFFFF_FFFF;

/// The number that the two bytes of `s` from `at` on hold.
pub open spec fn le_u16(s: Seq<u8>, at: int) -> int {
    s[at] + s[at + 1] * 0x100
}

/// The number that the four bytes of `s` from `at` on hold.
pub open spec fn le_u32(s: Seq<u8>, at: int) -> int {
    s[at] + s[at + 1] * 0x100 + s[at + 2] * 0x1_0000 + s[at + 3] * 0x100_0000
}

/// The number that the eight bytes of `s` from `at` on hold.
pub open spec fn le_u64(s: Seq<u8>, at: int) -> int {
    le_u32(s, at) + le_u32(s, at + 4) * 0x1_0000_0000
}

/// Reads a number of two bytes.
pub fn read_u16(b: &[u8], at: usize) -> (r: u16)
    requires
        at + 2 <= b@.len(),
    ensures
        r == le_u16(b@, at as int),
{
    b[at] as u16 + b[at + 1] as u16 * 0x100
}

/// Reads a number of four bytes.
pub fn read_u32(b: &[u8], at: usize) -> (r: u32)
    requires
        at + 4 <= b@.len(),
    ensures
        r == le_u32(b@, at as int),
{
    b[at] as u32 + b[at + 1] as u32 * 0x100 + b[at + 2] as u32 * 0x1_0000 + b[at + 3] as u32
        * 0x100_0000
}

/// Reads a number of eight bytes.
pub fn read_u64(b: &[u8], at: usize) -> (r: u64)
    requires
        at + 8 <= b@.len(),
    ensures
        r == le_u64(b@, at as int),
{
    let n = b.len();
    read_u32(b, at) as u64 + read_u32(b, at + 4) as u64 * 0x1_0000_0000
}

/// The palette of an indexed framebuffer.
#[derive(Clone, Copy, Debug, PartialEq, Eq, Structural)]
pub struct FramebufferCommon {
    pub palette_addr: u32,
    pub palette_num_colors: u16,
}

/// The section header table of an ELF kernel. For an a.out kernel the same
/// four words are the symbol table's `tabsize`, `strsize`, `addr` and a
/// reserved word.
#[derive(Clone, Copy, Debug, PartialEq, Eq, Structural)]
pub struct ElfSectionHeader {
    pub num: u32,
    pub size: u32,
    pub addr: u32,
    pub shndx: u32,
}

/// The information block.
#[derive(Clone, Copy, Debug, PartialEq, Eq, Structural)]
pub struct MultibootInfo {
    /// Which of the fields below are valid.
    pub flags: u32,
    /// Available memory from BIOS, in KiB.
    pub mem_lower: u32,
    pub mem_upper: u32,
    /// "root" partition.
    pub boot_device: u32,
    /// Kernel command line.
    pub cmdline: u32,
    /// Boot-module list.
    pub mods_count: u32,
    pub mods_addr: u32,
    /// The a.out symbol table or the ELF section header table.
    pub u: ElfSectionHeader,
    /// Memory map: its length in bytes and its address.
    pub mmap_length: u32,
    pub mmap_addr: u32,
    /// Drive info buffer.
    pub drives_length: u32,
    pub drives_addr: u32,
    /// ROM configuration table.
    pub config_table: u32,
    /// Boot loader name.
    pub boot_loader_name: u32,
    /// APM table.
    pub apm_table: u32,
    /// Video.
    pub vbe_control_info: u32,
    pub vbe_mode_info: u32,
    pub vbe_mode: u16,
    pub vbe_interface_seg: u16,
    pub vbe_interface_off: u16,
    pub vbe_interface_len: u16,
    pub framebuffer_addr: u64,
    pub framebuffer_pitch: u32,
    pub framebuffer_width: u32,
    pub framebuffer_height: u32,
    pub framebuffer_bpp: u8,
    pub framebuffer_type: u8,
    pub framebuffer_palette: FramebufferCommon,
}

/// The information block that the first `INFO_SIZE` bytes of `s` hold.
pub open spec fn info_of(s: Seq<u8>) -> MultibootInfo {
    MultibootInfo {
        flags: le_u32(s, 0) as u32,
        mem_lower: le_u32(s, 4) as u32,
        mem_upper: le_u32(s, 8) as u32,
        boot_device: le_u32(s, 12) as u32,
        cmdline: le_u32(s, 16) as u32,
        mods_count: le_u32(s, 20) as u32,
        mods_addr: le_u32(s, 24) as u32,
        u: ElfSectionHeader {
            num: le_u32(s, 28) as u32,
            size: le_u32(s, 32) as u32,
            addr: le_u32(s, 36) as u32,
            shndx: le_u32(s, 40) as u32,
        },
        mmap_length: le_u32(s, 44) as u32,
        mmap_addr: le_u32(s, 48) as u32,
        drives_length: le_u32(s, 52) as u32,
        drives_addr: le_u32(s, 56) as u32,
        config_table: le_u32(s, 60) as u32,
        boot_loader_name: le_u32(s, 64) as u32,
        apm_table: le_u32(s, 68) as u32,
        vbe_control_info: le_u32(s, 72) as u32,
        vbe_mode_info: le_u32(s, 76) as u32,
        vbe_mode: le_u16(s, 80) as u16,
        vbe_interface_seg: le_u16(s, 82) as u16,
        vbe_interface_off: le_u16(s, 84) as u16,
        vbe_interface_len: le_u16(s, 86) as u16,
        framebuffer_addr: le_u64(s, 88) as u64,
        framebuffer_pitch: le_u32(s, 96) as u32,
        framebuffer_width: le_u32(s, 100) as u32,
        framebuffer_height: le_u32(s, 104) as u32,
        framebuffer_bpp: s[108],
        framebuffer_type: s[109],
        framebuffer_palette: FramebufferCommon {
            palette_addr: le_u32(s, 110) as u32,
            palette_num_colors: le_u16(s, 114) as u16,
        },
    }
}

impl MultibootInfo {
    /// Reads the information block from the bytes that the boot loader
    /// left, if they are enough.
    pub fn from_bytes(blob: &[u8]) -> (r: Option<MultibootInfo>)
        ensures
            r == if blob@.len() >= INFO_SIZE {
                Some(info_of(blob@))
            } else {
                None
            },
    {
        if blob.len() < INFO_SIZE {
            return None;
        }
        let u = ElfSectionHeader {
            num: read_u32(blob, 28),
            size: read_u32(blob, 32),
            addr: read_u32(blob, 36),
            shndx: read_u32(blob, 40),
        };
        let info = MultibootInfo {
            flags: read_u32(blob, 0),
            mem_lower: read_u32(blob, 4),
            mem_upper: read_u32(blob, 8),
            boot_device: read_u32(blob, 12),
            cmdline: read_u32(blob, 16),
            mods_count: read_u32(blob, 20),
            mods_addr: read_u32(blob, 24),
            u,
            mmap_length: read_u32(blob, 44),
            mmap_addr: read_u32(blob, 48),
            drives_length: read_u32(blob, 52),
            drives_addr: read_u32(blob, 56),
            config_table: read_u32(blob, 60),
            boot_loader_name: read_u32(blob, 64),
            apm_table: read_u32(blob, 68),
            vbe_control_info: read_u32(blob, 72),
            vbe_mode_info: read_u32(blob, 76),
            vbe_mode: read_u16(blob, 80),
            vbe_interface_seg: read_u16(blob, 82),
            vbe_interface_off: read_u16(blob, 84),
            vbe_interface_len: read_u16(blob, 86),
            framebuffer_addr: read_u64(blob, 88),
            framebuffer_pitch: read_u32(blob, 96),
            framebuffer_width: read_u32(blob, 100),
            framebuffer_height: read_u32(blob, 104),
            framebuffer_bpp: blob[108],
            framebuffer_type: blob[109],
            framebuffer_palette: FramebufferCommon {
                palette_addr: read_u32(blob, 110),
                palette_num_colors: read_u16(blob, 114),
            },
        };
        Some(info)
    }
}

/// Why the boot information cannot be used.
#[derive(Clone, Copy, Debug, PartialEq, Eq, Structural)]
pub enum MbootError {
    /// The boot loader passed no memory map.
    NoMemoryMap,
    /// The flags claim both an a.out symbol table and an ELF section header
    /// table.
    InvalidFlags,
}

/// Number of records in a memory map of `length` bytes.
pub open spec fn entry_count(length: int) -> int {
    length / (MMAP_ENTRY_SIZE as int)
}

/// Base address of record `i` of the memory map `s`.
pub open spec fn entry_base(s: Seq<u8>, i: int) -> int {
    le_u64(s, i * MMAP_ENTRY_SIZE + 4)
}

/// Length in bytes of the region of record `i` of the memory map `s`.
pub open spec fn entry_length(s: Seq<u8>, i: int) -> int {
    le_u64(s, i * MMAP_ENTRY_SIZE + 12)
}

/// Type code of record `i` of the memory map `s`.
pub open spec fn entry_type(s: Seq<u8>, i: int) -> int {
    le_u32(s, i * MMAP_ENTRY_SIZE + 20)
}

/// The region that record `i` of the memory map `s` describes, cut to a
/// length that 32 bits hold.
pub open spec fn entry_region(s: Seq<u8>, i: int) -> PhysicalRegion {
    PhysicalRegion {
        start: entry_base(s, i) as usize,
        size: (if entry_length(s, i) > LAST_ADDRESS {
            LAST_ADDRESS as int
        } else {
            entry_length(s, i)
        }) as usize,
        rtype: crate::memory::region_type_of(entry_type(s, i)),
    }
}

/// The regions that the first `n` records of the memory map `s` describe,
/// in their order; a record whose base lies beyond the machine's last
/// address describes none.
pub open spec fn regions_of(s: Seq<u8>, n: int) -> Seq<PhysicalRegion>
    decreases n,
{
    if n <= 0 {
        Seq::empty()
    } else if entry_base(s, n - 1) > LAST_ADDRESS {
        regions_of(s, n - 1)
    } else {
        regions_of(s, n - 1).push(entry_region(s, n - 1))
    }
}

/// There are no more regions than records.
pub proof fn lemma_regions_len(s: Seq<u8>, n: int)
    ensures
        regions_of(s, n).len() <= if n > 0 { n } else { 0 },
    decreases n,
{
    if n > 0 {
        lemma_regions_len(s, n - 1);
    }
}

/// Appends to `mem` the regions that the memory map `mmap` describes.
pub fn parse_memory_map(info: &MultibootInfo, mmap: &[u8], mem: &mut PhysicalMemory)
    requires
        old(mem).wf(),
        info.mmap_length <= mmap@.len(),
        old(mem)@.len() + entry_count(info.mmap_length as int) <= MAX_PHYS_REGIONS,
    ensures
        final(mem).wf(),
        final(mem)@ == old(mem)@ + regions_of(mmap@, entry_count(info.mmap_length as int)),
{
    let nentries = info.mmap_length as usize / MMAP_ENTRY_SIZE;
    let mut i: usize = 0;
    assert(old(mem)@ + regions_of(mmap@, 0) =~= old(mem)@);
    while i < nentries
        invariant
            mem.wf(),
            i <= nentries,
            nentries * MMAP_ENTRY_SIZE <= mmap@.len(),
            old(mem)@.len() + nentries <= MAX_PHYS_REGIONS,
            mem@ == old(mem)@ + regions_of(mmap@, i as int),
        decreases nentries - i,
    {
        let at = i * MMAP_ENTRY_SIZE;
        let base = read_u64(mmap, at + 4);
        let length = read_u64(mmap, at + 12);
        let code = read_u32(mmap, at + 20);
        proof {
            lemma_regions_len(mmap@, i as int);
            assert(mem@.len() == mem.size);
            assert(mem@.len() == old(mem)@.len() + regions_of(mmap@, i as int).len());
        }
        if base <= LAST_ADDRESS {
            let size = if length > LAST_ADDRESS { LAST_ADDRESS } else { length };
            let ghost before = mem@;
            mem.add_entry(PhysicalRegion::new(base as usize, size as usize, code as usize));
            assert(mem@ =~= old(mem)@ + regions_of(mmap@, i + 1));
        }
        i = i + 1;
    }
}

/// Why the flags of an information block refuse it, if they do.
pub open spec fn flags_refused(flags: u32) -> Option<MbootError> {
    if flags & MULTIBOOT_INFO_AOUT_SYMS != 0 && flags & MULTIBOOT_INFO_ELF_SHDR != 0 {
        Some(MbootError::InvalidFlags)
    } else if flags & MULTIBOOT_INFO_MEM_MAP == 0 {
        Some(MbootError::NoMemoryMap)
    } else {
        None
    }
}

/// Checks the information block and appends to `mem` the regions that its
/// memory map `mmap` describes. A block that is refused leaves `mem` as it
/// is.
pub fn parse_mboot_info(info: &MultibootInfo, mmap: &[u8], mem: &mut PhysicalMemory) -> (r: Result<
    (),
    MbootError,
>)
    requires
        old(mem).wf(),
        info.mmap_length <= mmap@.len(),
        old(mem)@.len() + entry_count(info.mmap_length as int) <= MAX_PHYS_REGIONS,
    ensures
        final(mem).wf(),
        match flags_refused(info.flags) {
            Some(e) => r == Err::<(), MbootError>(e) && final(mem)@ == old(mem)@,
            None => r is Ok && final(mem)@ == old(mem)@ + regions_of(
                mmap@,
                entry_count(info.mmap_length as int),
            ),
        },
{
    if info.flags & MULTIBOOT_INFO_AOUT_SYMS != 0 && info.flags & MULTIBOOT_INFO_ELF_SHDR != 0 {
        return Err(MbootError::InvalidFlags);
    }
    if info.flags & MULTIBOOT_INFO_MEM_MAP != 0 {
        parse_memory_map(info, mmap, mem);
    } else {
        return Err(MbootError::NoMemoryMap);
    }
    Ok(())
}

} // verus!
