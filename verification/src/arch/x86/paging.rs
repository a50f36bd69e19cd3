//! The two-level page-table hierarchy and the kernel's view of it.
//!
//! On the machine the page tables are reached through the last two slots of
//! the directory: the last maps the directory onto itself, the one before
//! maps the 1024 page tables. Here the directory and the tables are plain
//! data, and [`PagingModel::translate`] walks them as the MMU does.

use vstd::prelude::*;
use crate::error::MappingError;
use crate::memory::{N_PAGES, PAGE_SIZE};
use crate::memory::pmm::{Frame, FrameRange, PageManager};
use crate::memory::pmm::bitmap::BitMap;

verus! {

/// Number of entries of a page directory and of a page table.
pub const ENTRIES: usize = 1024;

/// Bytes that one directory entry maps.
pub const LARGE_PAGE_SIZE: usize = 0x40_0000;

/// Size of the virtual and of the physical address space.
pub const ADDRESS_SPACE: u64 = 0x1_0000_0000;

/// Directory slot that maps the page tables.
pub const TABLES_SLOT: usize = 1022;

/// Directory slot that maps the directory onto itself.
pub const RECURSIVE_SLOT: usize = 1023;

/// First virtual address that the mapper keeps for itself.
pub const RESERVED_START: usize = 0xFF80_0000;

/// Virtual address at which the directory itself can be read.
pub const DIRECTORY_ADDRESS: usize = 0xFFFF_F000;

/// Number of 4 MiB entries that map low memory onto itself during boot.
pub const NPDE_EARLY: usize = 10;

pub const PRESENT: u32 = 0x001;

pub const WRITE: u32 = 0x002;

pub const USER: u32 = 0x004;

pub const WRITE_THROUGH: u32 = 0x008;

pub const CACHE_DISABLE: u32 = 0x010;

pub const ACCESSED: u32 = 0x020;

pub const DIRTY: u32 = 0x040;

pub const PAGE_SIZE_BIT: u32 = 0x080;

pub const GLOBAL: u32 = 0x100;

/// Flags of a present, writable entry.
pub const LINK: u32 = 0x003;

/// Flags of a directory entry.
#[derive(Clone, Copy, Debug, PartialEq, Eq, Structural)]
pub struct PDEF {
    bits: u32,
}

impl PDEF {
    pub closed spec fn spec_bits(&self) -> u32 {
        self.bits
    }

    /// The flags whose bits are `bits`.
    pub fn from_bits_retain(bits: u32) -> (f: Self)
        ensures
            f.spec_bits() == bits,
    {
        PDEF { bits }
    }

    /// No flag.
    pub fn empty() -> (f: Self)
        ensures
            f.spec_bits() == 0,
    {
        PDEF { bits: 0 }
    }

    #[verifier::when_used_as_spec(spec_bits)]
    pub fn bits(&self) -> (b: u32)
        ensures
            b == self.spec_bits(),
    {
        self.bits
    }

    /// The flags of `self` and those of `other`.
    pub fn union(self, other: Self) -> (f: Self)
        ensures
            f.spec_bits() == self.spec_bits() | other.spec_bits(),
    {
        PDEF { bits: self.bits | other.bits }
    }

    /// Whether every flag of `other` is in `self`.
    pub fn contains(&self, other: Self) -> (b: bool)
        ensures
            b == (self.spec_bits() & other.spec_bits() == other.spec_bits()),
    {
        self.bits & other.bits == other.bits
    }
}

/// Whether the entry is in use.
pub open spec fn entry_present(e: u32) -> bool {
    e % 2 == 1
}

/// Whether a directory entry maps 4 MiB directly.
pub open spec fn entry_large(e: u32) -> bool {
    (e / 0x80) % 2 == 1
}

/// Physical address of the frame or table that an entry points to.
pub open spec fn entry_frame(e: u32) -> int {
    (e / 0x1000) * 0x1000
}

/// Physical address of the 4 MiB that a large directory entry maps.
pub open spec fn entry_large_base(e: u32) -> int {
    (e / 0x40_0000) * 0x40_0000
}

/// For an aligned address and flags below the alignment, or-ing is adding.
pub proof fn lemma_or_is_add(address: u32, flags: u32)
    by (bit_vector)
    requires
        address & 0xfff == 0,
        flags <= 0xfff,
    ensures
        address | flags == address + flags,
{
}

/// A multiple of the page size has its low twelve bits clear.
pub proof fn lemma_aligned_mask(address: u32)
    by (bit_vector)
    requires
        address % 0x1000 == 0,
    ensures
        address & 0xfff == 0,
{
}

/// One entry of a page directory.
#[derive(Clone, Copy, Debug, PartialEq, Eq, Structural)]
pub struct PDE(pub u32);

impl PDE {
    /// The entry that points to `address` with `flags`.
    pub fn new(address: u32, flags: PDEF) -> (e: PDE)
        ensures
            e.0 == address | flags.spec_bits(),
    {
        PDE(address | flags.bits())
    }

    /// The entry for a page-aligned `address` with flags below the page size.
    pub fn aligned(address: u32, flags: u32) -> (e: PDE)
        requires
            address % 0x1000 == 0,
            flags <= 0xfff,
        ensures
            e.0 == address + flags,
    {
        proof {
            lemma_aligned_mask(address);
            lemma_or_is_add(address, flags);
        }
        PDE::new(address, PDEF::from_bits_retain(flags))
    }
}

/// What the MMU sees: the directory, the entries of the 1024 page tables one
/// table after the other, and where the directory lies in physical memory.
/// Page table `d` lies `d + 1` pages above the directory.
pub struct PagingModel {
    pub dir: Seq<u32>,
    pub ptes: Seq<u32>,
    pub base: int,
    /// A mapping changed since the translation cache was last flushed.
    pub stale: bool,
}

impl PagingModel {
    /// Physical address of the page table of directory slot `d`.
    pub open spec fn table_phys(&self, d: int) -> int {
        self.base + (d + 1) * 0x1000
    }

    /// The directory entry that links the page table of slot `d`.
    pub open spec fn link(&self, d: int) -> u32 {
        (self.table_phys(d) + LINK) as u32
    }

    /// The second-level entry that the MMU reads for virtual page `vpn`: for
    /// the pages of the recursive slot it is an entry of the directory.
    pub open spec fn leaf(&self, vpn: int) -> u32 {
        if vpn / 1024 == RECURSIVE_SLOT {
            self.dir[vpn % 1024]
        } else {
            self.ptes[vpn]
        }
    }

    /// The physical address that virtual address `v` translates to.
    pub open spec fn translate(&self, v: int) -> Option<int> {
        if !(0 <= v < ADDRESS_SPACE) {
            None
        } else {
            let pde = self.dir[v / 0x40_0000];
            if !entry_present(pde) {
                None
            } else if entry_large(pde) {
                Some(entry_large_base(pde) + v % 0x40_0000)
            } else {
                let pte = self.leaf(v / 0x1000);
                if !entry_present(pte) {
                    None
                } else {
                    Some(entry_frame(pte) + v % 0x1000)
                }
            }
        }
    }

    /// The directory and the tables are complete and lie below 4 GiB, the
    /// last slot maps the directory, the one before maps the tables, and
    /// every other slot is empty, maps 4 MiB, or links its own table.
    pub open spec fn wf(&self) -> bool {
        &&& self.dir.len() == ENTRIES
        &&& self.ptes.len() == ENTRIES * ENTRIES
        &&& 0 <= self.base
        &&& self.base % 0x1000 == 0
        &&& self.base + (ENTRIES + 1) * 0x1000 <= ADDRESS_SPACE
        &&& self.dir[RECURSIVE_SLOT as int] == (self.base + LINK) as u32
        &&& self.dir[TABLES_SLOT as int] == self.link(TABLES_SLOT as int)
        &&& forall|j: int|
            0 <= j < ENTRIES ==> #[trigger] self.ptes[TABLES_SLOT * 1024 + j] == self.link(j)
        &&& forall|d: int|
            0 <= d < TABLES_SLOT ==> {
                ||| #[trigger] self.dir[d] == 0
                ||| entry_present(self.dir[d]) && entry_large(self.dir[d])
                ||| self.dir[d] == self.link(d)
            }
    }

    /// Whether a 4 KiB mapping that the mapper may remove exists at `v`.
    pub open spec fn removable(&self, v: int) -> bool {
        &&& 0 <= v < RESERVED_START
        &&& self.dir[v / 0x40_0000] == self.link(v / 0x40_0000)
        &&& entry_present(self.ptes[v / 0x1000])
    }

    /// The state after frame `f` was mapped at the page of `v`: the table of
    /// the slot is linked, emptied first if it was not linked before, and its
    /// entry for the page points to the frame.
    pub open spec fn map_page(&self, f: int, v: int) -> PagingModel {
        let d = v / 0x40_0000;
        let linked = self.dir[d] == self.link(d);
        PagingModel {
            dir: self.dir.update(d, self.link(d)),
            ptes: Seq::new(
                self.ptes.len(),
                |i: int|
                    if i == v / 0x1000 {
                        (f * 0x1000 + LINK) as u32
                    } else if i / 1024 == d && !linked {
                        0u32
                    } else {
                        self.ptes[i]
                    },
            ),
            base: self.base,
            stale: true,
        }
    }

    /// The state after the mapping of the page of `v` was removed.
    pub open spec fn unmap_page(&self, v: int) -> PagingModel {
        PagingModel {
            dir: self.dir,
            ptes: self.ptes.update(v / 0x1000, 0u32),
            base: self.base,
            stale: true,
        }
    }

    /// The state after the `n` frames from `f` on were mapped at the pages
    /// from `v` on.
    pub open spec fn map_pages(&self, f: int, v: int, n: nat) -> PagingModel
        decreases n,
    {
        if n == 0 {
            *self
        } else {
            self.map_pages(f, v, (n - 1) as nat).map_page(f + n - 1, v + (n - 1) * 0x1000)
        }
    }

    /// The state after the mappings of the `n` pages from `v` on were
    /// removed.
    pub open spec fn unmap_pages(&self, v: int, n: nat) -> PagingModel
        decreases n,
    {
        if n == 0 {
            *self
        } else {
            self.unmap_pages(v, (n - 1) as nat).unmap_page(v + (n - 1) * 0x1000)
        }
    }
}

/// The directory entry at the last slot translates the directory's own
/// address: the page at `DIRECTORY_ADDRESS` is the directory itself.
pub proof fn lemma_recursive_self_map(m: PagingModel, offset: int)
    requires
        m.wf(),
        0 <= offset < PAGE_SIZE,
    ensures
        m.translate(DIRECTORY_ADDRESS + offset) == Some(m.base + offset),
{
    let e = m.dir[RECURSIVE_SLOT as int];
    assert(e == m.base + 3);
}

/// Through the last slot the page table of every slot that links one can be
/// read: page `d` of the last 4 MiB is the page table of slot `d`.
pub proof fn lemma_recursive_tables(m: PagingModel, d: int, offset: int)
    requires
        m.wf(),
        0 <= d < RECURSIVE_SLOT,
        m.dir[d] == m.link(d),
        0 <= offset < PAGE_SIZE,
    ensures
        m.translate(RECURSIVE_SLOT * LARGE_PAGE_SIZE + d * PAGE_SIZE + offset) == Some(
            m.table_phys(d) + offset,
        ),
{
    let e = m.dir[RECURSIVE_SLOT as int];
    assert(e == m.base + 3);
    let v = RECURSIVE_SLOT * LARGE_PAGE_SIZE + d * PAGE_SIZE + offset;
    assert(v / 0x1000 == RECURSIVE_SLOT * 1024 + d);
    assert(m.leaf(v / 0x1000) == m.dir[d]);
}

/// Through the slot before the last every page table can be read, linked or
/// not: page `j` of that slot's 4 MiB is the page table of slot `j`.
pub proof fn lemma_table_window(m: PagingModel, j: int, offset: int)
    requires
        m.wf(),
        0 <= j < ENTRIES,
        0 <= offset < PAGE_SIZE,
    ensures
        m.translate(RESERVED_START + j * PAGE_SIZE + offset) == Some(m.table_phys(j) + offset),
{
    let v = RESERVED_START + j * PAGE_SIZE + offset;
    assert(v / 0x1000 == TABLES_SLOT * 1024 + j);
    assert(m.ptes[TABLES_SLOT * 1024 + j] == m.link(j));
}

/// The kernel's page directory together with its page tables.
pub struct PageDir {
    entries: [PDE; ENTRIES],
    tables: Vec<u32>,
    base: usize,
    stale: bool,
}

impl View for PageDir {
    type V = PagingModel;

    closed spec fn view(&self) -> PagingModel {
        PagingModel {
            dir: Seq::new(ENTRIES as nat, |i: int| self.entries@[i].0),
            ptes: self.tables@,
            base: self.base as int,
            stale: self.stale,
        }
    }
}

/// The virtual address at which physical address `p` can be read, if it lies
/// in the window that the kernel maps linearly.
pub open spec fn linear_address(p: int) -> Option<int> {
    if 0 <= p < crate::arch::x86::KERNEL_TEMP_START - crate::arch::x86::KERNEL_LINEAR_START {
        Some(crate::arch::x86::KERNEL_LINEAR_START + p)
    } else {
        None
    }
}

impl PageDir {
    /// See [`PagingModel::wf`].
    pub open spec fn wf(&self) -> bool {
        self@.wf()
    }

    /// The directive entry that links the table of slot `d`.
    fn link_entry(&self, d: usize) -> (e: u32)
        requires
            self.wf(),
            d < ENTRIES,
        ensures
            e == self@.link(d as int),
            e == self@.table_phys(d as int) + 3,
    {
        (self.base + (d + 1) * PAGE_SIZE + 3) as u32
    }

    /// A directory that lies at physical address `base`, followed by its
    /// page tables, and maps nothing but itself and its tables.
    pub fn new(base: usize) -> (p: PageDir)
        requires
            base % PAGE_SIZE == 0,
            base + (ENTRIES + 1) * PAGE_SIZE <= ADDRESS_SPACE,
        ensures
            p.wf(),
            p@.base == base,
            !p@.stale,
            forall|d: int| 0 <= d < TABLES_SLOT ==> p@.dir[d] == 0,
    {
        let mut tables: Vec<u32> = Vec::new();
        let mut i: usize = 0;
        while i < ENTRIES * ENTRIES
            invariant
                i <= ENTRIES * ENTRIES,
                tables@.len() == i,
            decreases ENTRIES * ENTRIES - i,
        {
            tables.push(0);
            i = i + 1;
        }
        let mut p = PageDir { entries: [PDE(0); ENTRIES], tables, base, stale: false };
        let mut j: usize = 0;
        while j < ENTRIES
            invariant
                j <= ENTRIES,
                p.base == base,
                !p.stale,
                base % PAGE_SIZE == 0,
                base + (ENTRIES + 1) * PAGE_SIZE <= ADDRESS_SPACE,
                p.tables@.len() == ENTRIES * ENTRIES,
                forall|d: int| 0 <= d < ENTRIES ==> p.entries@[d].0 == 0,
                forall|k: int| 0 <= k < j ==> #[trigger] p.tables@[TABLES_SLOT * 1024 + k] == p@.link(k),
            decreases ENTRIES - j,
        {
            p.tables[TABLES_SLOT * ENTRIES + j] = (base + (j + 1) * PAGE_SIZE + 3) as u32;
            j = j + 1;
        }
        p.entries[TABLES_SLOT] = PDE((base + (TABLES_SLOT + 1) * PAGE_SIZE + 3) as u32);
        p.entries[RECURSIVE_SLOT] = PDE((base + 3) as u32);
        p
    }

    /// Physical address of the directory.
    pub fn base(&self) -> (b: usize)
        ensures
            b == self@.base,
    {
        self.base
    }

    /// The frames that hold the directory and its page tables.
    pub fn frames(&self) -> (r: FrameRange)
        requires
            self.wf(),
        ensures
            r.start.0 == self@.base / (PAGE_SIZE as int),
            r.size == ENTRIES + 1,
    {
        FrameRange { start: Frame(self.base / PAGE_SIZE), size: ENTRIES + 1 }
    }

    /// Whether a mapping changed since the last flush.
    pub fn is_stale(&self) -> (b: bool)
        ensures
            b == self@.stale,
    {
        self.stale
    }

    /// Records that the translation cache was flushed.
    pub fn flush(&mut self)
        ensures
            final(self)@ == (PagingModel { stale: false, ..old(self)@ }),
    {
        self.stale = false;
    }

    /// The physical address that `address` translates to, found by walking
    /// the directory and the page table as the MMU does.
    pub fn virt_to_phys(&self, address: usize) -> (r: Option<usize>)
        requires
            self.wf(),
        ensures
            match self@.translate(address as int) {
                Some(p) => r == Some(p as usize) && 0 <= p < ADDRESS_SPACE,
                None => r is None,
            },
    {
        if address > 0xFFFF_FFFF {
            return None;
        }
        let d = address / LARGE_PAGE_SIZE;
        let vpn = address / PAGE_SIZE;
        let pde = self.entries[d].0;
        if pde % 2 == 0 {
            return None;
        }
        if (pde / 0x80) % 2 == 1 {
            return Some((pde / 0x40_0000 * 0x40_0000) as usize + address % LARGE_PAGE_SIZE);
        }
        let pte = if d == RECURSIVE_SLOT {
            self.entries[vpn % ENTRIES].0
        } else {
            self.tables[vpn]
        };
        if pte % 2 == 0 {
            None
        } else {
            Some((pte / 0x1000 * 0x1000) as usize + address % PAGE_SIZE)
        }
    }

    /// The virtual address at which `address` can be read through the
    /// kernel's linear window, if it lies in it.
    pub fn phys_to_virt(&self, address: usize) -> (r: Option<usize>)
        ensures
            match linear_address(address as int) {
                Some(v) => r == Some(v as usize),
                None => r is None,
            },
    {
        if address < crate::arch::x86::KERNEL_TEMP_START - crate::arch::x86::KERNEL_LINEAR_START {
            Some(crate::arch::x86::KERNEL_LINEAR_START + address)
        } else {
            None
        }
    }
}

/// Why `map_single` refuses virtual address `v`, if it does.
pub open spec fn map_refusal(v: int) -> Option<MappingError> {
    if v % (PAGE_SIZE as int) != 0 {
        Some(MappingError::Unaligned)
    } else if v >= RESERVED_START {
        Some(MappingError::AlreadyMapped)
    } else {
        None
    }
}

/// Why `unmap_single` refuses virtual address `v`, if it does.
pub open spec fn unmap_refusal(m: PagingModel, v: int) -> Option<MappingError> {
    if v % (PAGE_SIZE as int) != 0 {
        Some(MappingError::Unaligned)
    } else if !m.removable(v) {
        Some(MappingError::NotMapped)
    } else {
        None
    }
}

/// The frame that the page of `v` is mapped to by its page-table entry.
pub open spec fn mapped_frame(m: PagingModel, v: int) -> int {
    entry_frame(m.ptes[v / 0x1000]) / 0x1000
}

/// `frames` after frame `f` was given back, if `frames` tracks it.
pub open spec fn released(frames: Seq<bool>, f: int) -> Seq<bool> {
    if 0 <= f < frames.len() {
        frames.update(f, false)
    } else {
        frames
    }
}

/// `frames` after the frames of the `n` pages from `v` on were given back.
pub open spec fn released_pages(frames: Seq<bool>, m: PagingModel, v: int, n: nat) -> Seq<bool>
    decreases n,
{
    if n == 0 {
        frames
    } else {
        released(
            released_pages(frames, m, v, (n - 1) as nat),
            mapped_frame(m, v + (n - 1) * 0x1000),
        )
    }
}

/// Number of pages among the `n` from `v` on that lie below the addresses
/// which the mapper keeps for itself.
pub open spec fn mappable_pages(v: int, n: int) -> int {
    if v >= RESERVED_START {
        0
    } else if v + n * 0x1000 <= RESERVED_START {
        n
    } else {
        (RESERVED_START - v) / 0x1000
    }
}

/// What `map_single` does: it refuses an address that is not page-aligned or
/// that the mapper keeps for itself, changing nothing, and else maps the
/// frame.
pub open spec fn single_mapped(
    before: PagingModel,
    after: PagingModel,
    f: Frame,
    address: usize,
    r: Result<(), MappingError>,
) -> bool {
    match map_refusal(address as int) {
        Some(e) => r == Err::<(), MappingError>(e) && after == before,
        None => r is Ok && after == before.map_page(f.0 as int, address as int),
    }
}

/// What `unmap_single` does: it refuses an address that is not page-aligned
/// or holds no mapping that can be removed, changing nothing, and else
/// removes the mapping and gives the frame back.
pub open spec fn single_unmapped(
    before: PagingModel,
    after: PagingModel,
    frames_before: Seq<bool>,
    frames_after: Seq<bool>,
    address: usize,
    r: Result<(), MappingError>,
) -> bool {
    match unmap_refusal(before, address as int) {
        Some(e) => {
            &&& r == Err::<(), MappingError>(e)
            &&& after == before
            &&& frames_after == frames_before
        },
        None => {
            &&& r is Ok
            &&& after == before.unmap_page(address as int)
            &&& frames_after == released(frames_before, mapped_frame(before, address as int))
        },
    }
}

/// What `map_range` does: it refuses a start that is not page-aligned,
/// changing nothing; else it maps page after page and stops with an error,
/// keeping what it mapped, at the first page that the mapper keeps for
/// itself.
pub open spec fn range_mapped(
    before: PagingModel,
    after: PagingModel,
    range: FrameRange,
    address: usize,
    r: Result<(), MappingError>,
) -> bool {
    if address % PAGE_SIZE != 0 {
        r == Err::<(), MappingError>(MappingError::Unaligned) && after == before
    } else {
        let k = mappable_pages(address as int, range.size as int);
        &&& after == before.map_pages(range.start.0 as int, address as int, k as nat)
        &&& k == range.size ==> r is Ok
        &&& k != range.size ==> r == Err::<(), MappingError>(MappingError::AlreadyMapped)
    }
}

/// Whether `x` is the address of one of the `n` pages from `v` on.
pub open spec fn page_of(v: int, n: int, x: int) -> bool {
    v <= x < v + n * 0x1000 && (x - v) % 0x1000 == 0
}

/// Those of the `n` pages from `v` on that lie below the addresses which
/// the mapper keeps for itself translate to nothing.
pub open spec fn pages_unmapped(m: PagingModel, v: int, n: int) -> bool {
    forall|x: int| page_of(v, n, x) && x < RESERVED_START ==> #[trigger] m.translate(x) is None
}

/// `unmap_single` refuses none of the `n` pages from `v` on.
pub open spec fn pages_removable(m: PagingModel, v: int, n: int) -> bool {
    forall|x: int| page_of(v, n, x) ==> #[trigger] unmap_refusal(m, x) is None
}

/// Page `i` from `address` on is the first that `unmap_single` refuses, and
/// it refuses it with `e`.
pub open spec fn first_refused(m: PagingModel, address: int, i: int, e: MappingError) -> bool {
    &&& pages_removable(m, address, i)
    &&& unmap_refusal(m, address + i * 0x1000) == Some(e)
}

/// What `unmap_range` does: it unmaps page after page and stops with the
/// error of the first page that `unmap_single` refuses, keeping what it
/// unmapped.
pub open spec fn range_unmapped(
    before: PagingModel,
    after: PagingModel,
    frames_before: Seq<bool>,
    frames_after: Seq<bool>,
    address: usize,
    npages: usize,
    r: Result<(), MappingError>,
) -> bool {
    match r {
        Ok(_) => {
            &&& pages_removable(before, address as int, npages as int)
            &&& after == before.unmap_pages(address as int, npages as nat)
            &&& frames_after == released_pages(
                frames_before,
                before,
                address as int,
                npages as nat,
            )
        },
        Err(e) => exists|i: int|
            {
                &&& 0 <= i < npages
                &&& #[trigger] first_refused(before, address as int, i, e)
                &&& after == before.unmap_pages(address as int, i as nat)
                &&& frames_after == released_pages(frames_before, before, address as int, i as nat)
            },
    }
}

/// The state after boot mapped the first `NPDE_EARLY` times 4 MiB of
/// physical memory onto themselves and the first 768 MiB at
/// `KERNEL_LINEAR_START`, all by large pages.
pub open spec fn early_paging(m: PagingModel) -> PagingModel {
    PagingModel {
        dir: Seq::new(
            m.dir.len(),
            |i: int|
                if 0 <= i < NPDE_EARLY {
                    (i * 0x40_0000 + 0x083) as u32
                } else if 768 <= i < 960 {
                    ((i - 768) * 0x40_0000 + 0x183) as u32
                } else {
                    m.dir[i]
                },
        ),
        ptes: m.ptes,
        base: m.base,
        stale: true,
    }
}

/// The state after the identity mapping of low memory was removed.
pub open spec fn finalized(m: PagingModel) -> PagingModel {
    PagingModel {
        dir: Seq::new(m.dir.len(), |i: int| if 0 <= i < NPDE_EARLY { 0u32 } else { m.dir[i] }),
        ptes: m.ptes,
        base: m.base,
        stale: true,
    }
}

/// Mapping a frame at an unmapped page makes the page translate to the
/// frame, links the page table of its slot, which thereby shows in the
/// recursive slot, and changes no other translation.
#[verifier::rlimit(50)]
pub proof fn lemma_map_page(m: PagingModel, f: int, v: int)
    requires
        m.wf(),
        0 <= f < N_PAGES,
        0 <= v < RESERVED_START,
        v % (PAGE_SIZE as int) == 0,
        m.translate(v) is None,
    ensures
        m.map_page(f, v).wf(),
        forall|x: int|
            0 <= x < ADDRESS_SPACE ==> #[trigger] m.map_page(f, v).translate(x) == (if x / 0x1000 == v
                / 0x1000 {
                Some(f * 0x1000 + x % 0x1000)
            } else if x / 0x1000 == RECURSIVE_SLOT * 1024 + v / 0x40_0000 {
                Some(m.table_phys(v / 0x40_0000) + x % 0x1000)
            } else {
                m.translate(x)
            }),
        m.map_page(f, v).removable(v),
        forall|w: int|
            w / 0x1000 != v / 0x1000 ==> (#[trigger] m.map_page(f, v).removable(w) == m.removable(w)),
{
    let n = m.map_page(f, v);
    let d = v / 0x40_0000;
    let l = m.link(d);
    assert(l == m.table_phys(d) + 3);
    assert(n.ptes[v / 0x1000] == f * 0x1000 + 3);
    assert forall|w: int| w / 0x1000 != v / 0x1000 implies (#[trigger] n.removable(w) == m.removable(
        w,
    )) by {
        if 0 <= w < RESERVED_START {
            let wd = w / 0x40_0000;
            assert(w / 0x1000 / 1024 == wd);
            if wd == d {
                if m.dir[d] == 0 {
                    assert(n.ptes[w / 0x1000] == 0);
                } else {
                    assert(n.ptes[w / 0x1000] == m.ptes[w / 0x1000]);
                }
            } else {
                assert(n.dir[wd] == m.dir[wd]);
                assert(n.ptes[w / 0x1000] == m.ptes[w / 0x1000]);
            }
        }
    }
    assert(m.dir[d] == 0 || m.dir[d] == l);
    assert forall|j: int| 0 <= j < ENTRIES implies #[trigger] n.ptes[TABLES_SLOT * 1024 + j]
        == n.link(j) by {
        assert(m.ptes[TABLES_SLOT * 1024 + j] == m.link(j));
    }
    assert forall|e: int| 0 <= e < TABLES_SLOT implies ({
        ||| #[trigger] n.dir[e] == 0
        ||| entry_present(n.dir[e]) && entry_large(n.dir[e])
        ||| n.dir[e] == n.link(e)
    }) by {
        if e != d {
            assert(n.dir[e] == m.dir[e]);
        }
    }
    assert forall|x: int| 0 <= x < ADDRESS_SPACE implies #[trigger] n.translate(x) == (if x / 0x1000
        == v / 0x1000 {
        Some(f * 0x1000 + x % 0x1000)
    } else if x / 0x1000 == RECURSIVE_SLOT * 1024 + v / 0x40_0000 {
        Some(m.table_phys(v / 0x40_0000) + x % 0x1000)
    } else {
        m.translate(x)
    }) by {
        let xd = x / 0x40_0000;
        let xp = x / 0x1000;
        assert(xp / 1024 == xd);
        assert(m.dir[RECURSIVE_SLOT as int] == m.base + 3);
        if xd == d {
            if xp == v / 0x1000 {
                assert(n.ptes[xp] == f * 0x1000 + 3);
            } else if m.dir[d] == 0 {
                assert(n.ptes[xp] == 0);
            } else {
                assert(n.ptes[xp] == m.ptes[xp]);
            }
        } else if xd == RECURSIVE_SLOT {
            assert(n.leaf(xp) == n.dir[xp % 1024]);
            if xp % 1024 != d {
                assert(n.dir[xp % 1024] == m.dir[xp % 1024]);
            }
        } else {
            assert(n.dir[xd] == m.dir[xd]);
            assert(n.ptes[xp] == m.ptes[xp]);
        }
    }
}

/// Removing a mapping makes its page translate to nothing and changes no
/// other translation.
#[verifier::rlimit(50)]
pub proof fn lemma_unmap_page(m: PagingModel, v: int)
    requires
        m.wf(),
        unmap_refusal(m, v) is None,
    ensures
        m.unmap_page(v).wf(),
        forall|x: int|
            0 <= x < ADDRESS_SPACE ==> #[trigger] m.unmap_page(v).translate(x) == (if x / 0x1000 == v
                / 0x1000 {
                None
            } else {
                m.translate(x)
            }),
        forall|w: int|
            w / 0x1000 != v / 0x1000 ==> (#[trigger] m.unmap_page(v).removable(w) == m.removable(w)),
        !m.unmap_page(v).removable(v),
{
    let n = m.unmap_page(v);
    let d = v / 0x40_0000;
    assert(m.link(d) == m.table_phys(d) + 3);
    assert forall|j: int| 0 <= j < ENTRIES implies #[trigger] n.ptes[TABLES_SLOT * 1024 + j]
        == n.link(j) by {
        assert(m.ptes[TABLES_SLOT * 1024 + j] == m.link(j));
    }
    assert forall|x: int| 0 <= x < ADDRESS_SPACE implies #[trigger] n.translate(x) == (if x / 0x1000
        == v / 0x1000 {
        None
    } else {
        m.translate(x)
    }) by {
        let xp = x / 0x1000;
        assert(xp / 1024 == x / 0x40_0000);
        if xp != v / 0x1000 {
            assert(n.ptes[xp] == m.ptes[xp]);
        }
    }
}

/// A page that was mapped translates to its frame, and to nothing once the
/// mapping was removed again.
pub proof fn lemma_map_unmap_round_trip(m: PagingModel, f: int, v: int)
    requires
        m.wf(),
        0 <= f < N_PAGES,
        0 <= v < RESERVED_START,
        v % (PAGE_SIZE as int) == 0,
        m.translate(v) is None,
    ensures
        m.map_page(f, v).translate(v) == Some(f * PAGE_SIZE),
        unmap_refusal(m.map_page(f, v), v) is None,
        mapped_frame(m.map_page(f, v), v) == f,
        m.map_page(f, v).unmap_page(v).translate(v) is None,
{
    lemma_map_page(m, f, v);
    let n = m.map_page(f, v);
    assert(n.ptes[v / 0x1000] == f * 0x1000 + 3);
    lemma_unmap_page(n, v);
}

impl PageDir {
    /// Maps frame `f` at the page that starts at `address`. An address that
    /// is not page-aligned, or that the mapper keeps for itself, is refused.
    #[verifier::rlimit(50)]
    pub fn map_single(&mut self, f: Frame, address: usize) -> (r: Result<(), MappingError>)
        requires
            old(self).wf(),
            f.0 < N_PAGES,
            address < ADDRESS_SPACE,
            address < RESERVED_START ==> old(self)@.translate(address as int) is None,
        ensures
            final(self).wf(),
            single_mapped(old(self)@, final(self)@, f, address, r),
    {
        if address % PAGE_SIZE != 0 {
            return Err(MappingError::Unaligned);
        }
        if address >= RESERVED_START {
            return Err(MappingError::AlreadyMapped);
        }
        let d = address / LARGE_PAGE_SIZE;
        let vpn = address / PAGE_SIZE;
        let link = self.link_entry(d);
        let ghost before = self@;
        proof {
            lemma_map_page(before, f.0 as int, address as int);
            assert(before.dir[d as int] == 0 || before.dir[d as int] == link);
        }
        if self.entries[d].0 != link {
            let mut i: usize = 0;
            while i < ENTRIES
                invariant
                    i <= ENTRIES,
                    d < TABLES_SLOT,
                    self.entries == old(self).entries,
                    self.base == old(self).base,
                    self.tables@.len() == ENTRIES * ENTRIES,
                    forall|k: int|
                        0 <= k < ENTRIES * ENTRIES ==> #[trigger] self.tables@[k] == (if d * 1024 <= k
                            < d * 1024 + i {
                            0u32
                        } else {
                            old(self).tables@[k]
                        }),
                decreases ENTRIES - i,
            {
                self.tables[d * ENTRIES + i] = 0;
                i = i + 1;
            }
            self.entries[d] = PDE(link);
        }
        self.tables[vpn] = (f.0 * PAGE_SIZE + 3) as u32;
        self.stale = true;
        proof {
            let after = before.map_page(f.0 as int, address as int);
            assert(self@.dir =~= after.dir);
            assert(self@.ptes =~= after.ptes);
        }
        Ok(())
    }

    /// Removes the mapping of the page that starts at `address` and gives
    /// its frame back to `pmm`.
    #[verifier::rlimit(50)]
    pub fn unmap_single(&mut self, pmm: &mut BitMap, address: usize) -> (r: Result<
        (),
        MappingError,
    >)
        requires
            old(self).wf(),
            old(pmm).inv(),
            address < ADDRESS_SPACE,
        ensures
            final(self).wf(),
            final(pmm).inv(),
            single_unmapped(old(self)@, final(self)@, old(pmm)@, final(pmm)@, address, r),
    {
        if address % PAGE_SIZE != 0 {
            return Err(MappingError::Unaligned);
        }
        if address >= RESERVED_START {
            return Err(MappingError::NotMapped);
        }
        let d = address / LARGE_PAGE_SIZE;
        let vpn = address / PAGE_SIZE;
        let link = self.link_entry(d);
        if self.entries[d].0 != link {
            return Err(MappingError::NotMapped);
        }
        let pte = self.tables[vpn];
        if pte % 2 == 0 {
            return Err(MappingError::NotMapped);
        }
        let ghost before = self@;
        proof {
            lemma_unmap_page(before, address as int);
        }
        self.tables[vpn] = 0;
        self.stale = true;
        let frame = (pte / 0x1000) as usize;
        if frame < pmm.len() {
            pmm.free_page(Frame(frame));
        }
        proof {
            assert(self@.ptes =~= before.unmap_page(address as int).ptes);
        }
        Ok(())
    }
}

/// After a run of frames was mapped at a run of unmapped pages, each page
/// translates to its frame, and below the addresses that the mapper keeps
/// for itself nothing else changed.
#[verifier::rlimit(50)]
pub proof fn lemma_map_pages(m: PagingModel, f: int, v: int, n: nat)
    requires
        m.wf(),
        0 <= f,
        f + n <= N_PAGES,
        0 <= v,
        v % (PAGE_SIZE as int) == 0,
        v + n * 0x1000 <= RESERVED_START,
        pages_unmapped(m, v, n as int),
    ensures
        m.map_pages(f, v, n).wf(),
        forall|x: int|
            0 <= x < RESERVED_START ==> #[trigger] m.map_pages(f, v, n).translate(x) == (if v <= x < v
                + n * 0x1000 {
                Some((f + (x - v) / 0x1000) * 0x1000 + x % 0x1000)
            } else {
                m.translate(x)
            }),
        forall|x: int|
            #[trigger] m.map_pages(f, v, n).removable(x) == (if v <= x < v + n * 0x1000 {
                true
            } else {
                m.removable(x)
            }),
    decreases n,
{
    if n > 0 {
        let k = (n - 1) as nat;
        let p = m.map_pages(f, v, k);
        lemma_map_pages(m, f, v, k);
        let w = v + k * 0x1000;
        assert(page_of(v, n as int, w));
        assert(m.translate(w) is None);
        assert(p.translate(w) == m.translate(w));
        lemma_map_page(p, f + k, w);
        let q = p.map_page(f + k, w);
        assert(q == m.map_pages(f, v, n));
        assert forall|x: int| 0 <= x < RESERVED_START implies #[trigger] q.translate(x) == (if v <= x
            < v + n * 0x1000 {
            Some((f + (x - v) / 0x1000) * 0x1000 + x % 0x1000)
        } else {
            m.translate(x)
        }) by {
            assert(x / 0x1000 < RECURSIVE_SLOT * 1024);
            if x / 0x1000 == w / 0x1000 {
                assert((x - v) / 0x1000 == k);
            } else {
                assert(q.translate(x) == p.translate(x));
            }
        }
        assert forall|x: int| #[trigger] q.removable(x) == (if v <= x < v + n * 0x1000 {
            true
        } else {
            m.removable(x)
        }) by {
            if x / 0x1000 == w / 0x1000 {
                assert(q.removable(w));
                assert(q.removable(x) == q.removable(w));
            } else {
                assert(q.removable(x) == p.removable(x));
            }
        }
    }
}

/// After the mappings of a run of pages were removed, each of the pages
/// translates to nothing and nothing else changed.
#[verifier::rlimit(50)]
pub proof fn lemma_unmap_pages(m: PagingModel, v: int, n: nat)
    requires
        m.wf(),
        0 <= v,
        v % (PAGE_SIZE as int) == 0,
        pages_removable(m, v, n as int),
    ensures
        m.unmap_pages(v, n).wf(),
        forall|x: int|
            0 <= x < ADDRESS_SPACE ==> #[trigger] m.unmap_pages(v, n).translate(x) == (if v <= x < v + n
                * 0x1000 {
                None
            } else {
                m.translate(x)
            }),
        forall|x: int|
            #[trigger] m.unmap_pages(v, n).removable(x) == (if v <= x < v + n * 0x1000 {
                false
            } else {
                m.removable(x)
            }),
    decreases n,
{
    if n > 0 {
        let k = (n - 1) as nat;
        let p = m.unmap_pages(v, k);
        lemma_unmap_pages(m, v, k);
        let w = v + k * 0x1000;
        assert(page_of(v, n as int, w));
        assert(unmap_refusal(m, w) is None);
        assert(p.removable(w) == m.removable(w));
        lemma_unmap_page(p, w);
        let q = p.unmap_page(w);
        assert forall|x: int| 0 <= x < ADDRESS_SPACE implies #[trigger] q.translate(x) == (if v <= x
            < v + n * 0x1000 {
            None
        } else {
            m.translate(x)
        }) by {
            if x / 0x1000 != w / 0x1000 {
                assert(q.translate(x) == p.translate(x));
            }
        }
        assert forall|x: int| #[trigger] q.removable(x) == (if v <= x < v + n * 0x1000 {
            false
        } else {
            m.removable(x)
        }) by {
            if x / 0x1000 == w / 0x1000 {
                assert(!q.removable(w));
                assert(q.removable(x) == q.removable(w));
            } else {
                assert(q.removable(x) == p.removable(x));
            }
        }
    }
}

/// Boot's large pages map low memory onto itself and physical memory into
/// the kernel's linear window.
pub proof fn lemma_early_paging(m: PagingModel)
    requires
        m.wf(),
    ensures
        early_paging(m).wf(),
        forall|p: int|
            0 <= p < NPDE_EARLY * LARGE_PAGE_SIZE ==> #[trigger] early_paging(m).translate(p) == Some(
                p,
            ),
        forall|p: int|
            linear_address(p) is Some ==> early_paging(m).translate(
                #[trigger] linear_address(p).unwrap(),
            ) == Some(p),
{
    let n = early_paging(m);
    assert forall|j: int| 0 <= j < ENTRIES implies #[trigger] n.ptes[TABLES_SLOT * 1024 + j]
        == n.link(j) by {
        assert(m.ptes[TABLES_SLOT * 1024 + j] == m.link(j));
    }
    assert forall|e: int| 0 <= e < TABLES_SLOT implies ({
        ||| #[trigger] n.dir[e] == 0
        ||| entry_present(n.dir[e]) && entry_large(n.dir[e])
        ||| n.dir[e] == n.link(e)
    }) by {
        if 0 <= e < NPDE_EARLY {
            assert(n.dir[e] == e * 0x40_0000 + 0x083);
        } else if 768 <= e < 960 {
            assert(n.dir[e] == (e - 768) * 0x40_0000 + 0x183);
        } else {
            assert(n.dir[e] == m.dir[e]);
        }
    }
    assert forall|p: int| 0 <= p < NPDE_EARLY * LARGE_PAGE_SIZE implies #[trigger] n.translate(p)
        == Some(p) by {
        let e = p / 0x40_0000;
        assert(n.dir[e] == e * 0x40_0000 + 0x083);
    }
    assert forall|p: int| linear_address(p) is Some implies n.translate(
        #[trigger] linear_address(p).unwrap(),
    ) == Some(p) by {
        let v = linear_address(p).unwrap();
        let e = v / 0x40_0000;
        assert(768 <= e < 960);
        assert(n.dir[e] == (e - 768) * 0x40_0000 + 0x183);
    }
}

/// Once the identity mapping was removed, low memory translates to nothing
/// and every other translation is as before.
pub proof fn lemma_finalized(m: PagingModel)
    requires
        m.wf(),
    ensures
        finalized(m).wf(),
        forall|v: int|
            0 <= v < ADDRESS_SPACE ==> #[trigger] finalized(m).translate(v) == (if v < NPDE_EARLY
                * LARGE_PAGE_SIZE {
                None
            } else if v / 0x1000 / 1024 == RECURSIVE_SLOT && v / 0x1000 % 1024 < NPDE_EARLY {
                None
            } else {
                m.translate(v)
            }),
{
    let n = finalized(m);
    assert(m.dir[RECURSIVE_SLOT as int] == m.base + 3);
    assert forall|j: int| 0 <= j < ENTRIES implies #[trigger] n.ptes[TABLES_SLOT * 1024 + j]
        == n.link(j) by {
        assert(m.ptes[TABLES_SLOT * 1024 + j] == m.link(j));
    }
    assert forall|e: int| 0 <= e < TABLES_SLOT implies ({
        ||| #[trigger] n.dir[e] == 0
        ||| entry_present(n.dir[e]) && entry_large(n.dir[e])
        ||| n.dir[e] == n.link(e)
    }) by {
        if e >= NPDE_EARLY {
            assert(n.dir[e] == m.dir[e]);
        }
    }
    assert forall|v: int| 0 <= v < ADDRESS_SPACE implies #[trigger] n.translate(v) == (if v
        < NPDE_EARLY * LARGE_PAGE_SIZE {
        None
    } else if v / 0x1000 / 1024 == RECURSIVE_SLOT && v / 0x1000 % 1024 < NPDE_EARLY {
        None
    } else {
        m.translate(v)
    }) by {
        let e = v / 0x40_0000;
        assert(v / 0x1000 / 1024 == e);
        if e >= NPDE_EARLY {
            assert(n.dir[e] == m.dir[e]);
        }
    }
}

impl PageDir {
    /// Maps the frames of `r`, in order, at the pages from `address` on.
    #[verifier::rlimit(50)]
    pub fn map_range(&mut self, r: FrameRange, address: usize) -> (res: Result<(), MappingError>)
        requires
            old(self).wf(),
            r.start.0 + r.size <= N_PAGES,
            address + r.size * PAGE_SIZE <= ADDRESS_SPACE,
            pages_unmapped(old(self)@, address as int, r.size as int),
        ensures
            final(self).wf(),
            range_mapped(old(self)@, final(self)@, r, address, res),
    {
        if address % PAGE_SIZE != 0 {
            return Err(MappingError::Unaligned);
        }
        let mut i: usize = 0;
        while i < r.size
            invariant
                self.wf(),
                old(self).wf(),
                i <= r.size,
                r.start.0 + r.size <= N_PAGES,
                address % PAGE_SIZE == 0,
                address + r.size * PAGE_SIZE <= ADDRESS_SPACE,
                i > 0 ==> address + i * PAGE_SIZE <= RESERVED_START,
                self@ == old(self)@.map_pages(r.start.0 as int, address as int, i as nat),
                pages_unmapped(self@, address + i * 0x1000, r.size - i),
            decreases r.size - i,
        {
            let ghost before = self@;
            let page = address + i * PAGE_SIZE;
            proof {
                assert(page_of(address + i * 0x1000, r.size - i, page as int));
                if page < RESERVED_START {
                    assert(before.translate(page as int) is None);
                }
            }
            match self.map_single(Frame(r.start.0 + i), page) {
                Ok(_) => {
                    proof {
                        lemma_map_page(before, r.start.0 + i, page as int);
                        assert forall|x: int|
                            page_of(address + (i + 1) * 0x1000, r.size - (i + 1), x) && x
                                < RESERVED_START implies #[trigger] self@.translate(x) is None by {
                            assert(page_of(address + i * 0x1000, r.size - i, x));
                            assert(x / 0x1000 != page / 0x1000);
                            assert(x / 0x1000 < RECURSIVE_SLOT * 1024);
                            assert(before.translate(x) is None);
                        }
                    }
                },
                Err(e) => {
                    proof {
                        assert(map_refusal(page as int) == Some(e));
                        assert(page >= RESERVED_START);
                        assert(i > 0 ==> page == RESERVED_START);
                        assert(mappable_pages(address as int, r.size as int) == i);
                    }
                    return Err(e);
                },
            }
            i = i + 1;
        }
        Ok(())
    }

    /// Removes the mappings of the `npages` pages from `address` on and
    /// gives their frames back to `pmm`.
    #[verifier::rlimit(50)]
    pub fn unmap_range(&mut self, pmm: &mut BitMap, address: usize, npages: usize) -> (res: Result<
        (),
        MappingError,
    >)
        requires
            old(self).wf(),
            old(pmm).inv(),
            address + npages * PAGE_SIZE <= ADDRESS_SPACE,
        ensures
            final(self).wf(),
            final(pmm).inv(),
            range_unmapped(old(self)@, final(self)@, old(pmm)@, final(pmm)@, address, npages, res),
    {
        let mut i: usize = 0;
        while i < npages
            invariant
                self.wf(),
                pmm.inv(),
                old(self).wf(),
                i <= npages,
                address + npages * PAGE_SIZE <= ADDRESS_SPACE,
                self@ == old(self)@.unmap_pages(address as int, i as nat),
                pmm@ == released_pages(old(pmm)@, old(self)@, address as int, i as nat),
                pages_removable(old(self)@, address as int, i as int),
                forall|x: int|
                    page_of(address + i * 0x1000, npages - i, x) ==> #[trigger] unmap_refusal(self@, x)
                        == unmap_refusal(old(self)@, x),
                forall|x: int|
                    page_of(address + i * 0x1000, npages - i, x) ==> #[trigger] mapped_frame(self@, x)
                        == mapped_frame(old(self)@, x),
            decreases npages - i,
        {
            let ghost before = self@;
            let page = address + i * PAGE_SIZE;
            proof {
                assert(page_of(address + i * 0x1000, npages - i, page as int));
                assert(unmap_refusal(before, page as int) == unmap_refusal(old(self)@, page as int));
                assert(mapped_frame(before, page as int) == mapped_frame(old(self)@, page as int));
            }
            match self.unmap_single(pmm, page) {
                Ok(_) => {
                    proof {
                        lemma_unmap_page(before, page as int);
                        assert forall|x: int|
                            page_of(address + (i + 1) * 0x1000, npages - (i + 1), x) implies (
                        #[trigger] unmap_refusal(self@, x)) == unmap_refusal(old(self)@, x) by {
                            assert(page_of(address + i * 0x1000, npages - i, x));
                            assert(x / 0x1000 != page / 0x1000);
                            assert(self@.removable(x) == before.removable(x));
                            assert(unmap_refusal(before, x) == unmap_refusal(old(self)@, x));
                        }
                        assert forall|x: int|
                            page_of(address + (i + 1) * 0x1000, npages - (i + 1), x) implies (
                        #[trigger] mapped_frame(self@, x)) == mapped_frame(old(self)@, x) by {
                            assert(page_of(address + i * 0x1000, npages - i, x));
                            assert(x / 0x1000 != page / 0x1000);
                            assert(mapped_frame(before, x) == mapped_frame(old(self)@, x));
                        }
                        assert forall|x: int|
                            page_of(address as int, i + 1, x) implies #[trigger] unmap_refusal(
                            old(self)@,
                            x,
                        ) is None by {
                            if x != page {
                                assert(page_of(address as int, i as int, x));
                            }
                        }
                    }
                },
                Err(e) => {
                    assert(first_refused(old(self)@, address as int, i as int, e));
                    return Err(e);
                },
            }
            i = i + 1;
        }
        Ok(())
    }

    /// Installs the large pages that boot needs: low memory mapped onto
    /// itself, and physical memory mapped at `KERNEL_LINEAR_START`.
    pub fn setup_early_paging(&mut self)
        requires
            old(self).wf(),
        ensures
            final(self).wf(),
            final(self)@ == early_paging(old(self)@),
    {
        proof {
            lemma_early_paging(self@);
        }
        let mut i: usize = 0;
        while i < NPDE_EARLY
            invariant
                i <= NPDE_EARLY,
                self.tables == old(self).tables,
                self.base == old(self).base,
                forall|k: int|
                    0 <= k < ENTRIES ==> #[trigger] self.entries@[k].0 == (if k < i {
                        (k * 0x40_0000 + 0x083) as u32
                    } else {
                        old(self).entries@[k].0
                    }),
            decreases NPDE_EARLY - i,
        {
            self.entries[i] = PDE::aligned((i * LARGE_PAGE_SIZE) as u32, 0x083);
            i = i + 1;
        }
        let mut j: usize = 768;
        while j < 960
            invariant
                768 <= j <= 960,
                self.tables == old(self).tables,
                self.base == old(self).base,
                forall|k: int|
                    0 <= k < ENTRIES ==> #[trigger] self.entries@[k].0 == (if k < NPDE_EARLY {
                        (k * 0x40_0000 + 0x083) as u32
                    } else if 768 <= k < j {
                        ((k - 768) * 0x40_0000 + 0x183) as u32
                    } else {
                        old(self).entries@[k].0
                    }),
            decreases 960 - j,
        {
            self.entries[j] = PDE::aligned(((j - 768) * LARGE_PAGE_SIZE) as u32, 0x183);
            j = j + 1;
        }
        self.stale = true;
        assert(self@.dir =~= early_paging(old(self)@).dir);
    }

    /// Removes the identity mapping of low memory, which is of no use once
    /// the kernel runs at its linked address.
    pub fn cleanup_post_jump(&mut self)
        requires
            old(self).wf(),
        ensures
            final(self).wf(),
            final(self)@ == finalized(old(self)@),
    {
        proof {
            lemma_finalized(self@);
        }
        let mut i: usize = 0;
        while i < NPDE_EARLY
            invariant
                i <= NPDE_EARLY,
                self.tables == old(self).tables,
                self.base == old(self).base,
                forall|k: int|
                    0 <= k < ENTRIES ==> #[trigger] self.entries@[k].0 == (if k < i {
                        0u32
                    } else {
                        old(self).entries@[k].0
                    }),
            decreases NPDE_EARLY - i,
        {
            assert(0u32 | 0u32 == 0u32) by (bit_vector);
            self.entries[i] = PDE::new(0, PDEF::empty());
            i = i + 1;
        }
        self.stale = true;
        assert(self@.dir =~= finalized(old(self)@).dir);
    }
}

/// One thing that the error code of a page fault says.
#[derive(Clone, Copy, Debug, PartialEq, Eq, Structural)]
pub enum Cause {
    /// The page was present: its protection was violated.
    PageProtection,
    /// The page was not present.
    PageNotPresent,
    /// The access was a write.
    Write,
    /// The access was a read.
    Read,
    /// The access came from user mode.
    Cpl3,
    /// A reserved bit was set in an entry.
    ReservedWriteBits,
    /// The access was an instruction fetch.
    InstructionFetch,
    /// A protection key forbade the access.
    KeyProtection,
    /// The access was to a shadow stack.
    ShadowStack,
    /// The access violated SGX's rules.
    SgxViolation,
}

/// Whether bit `k` of `code` is set.
pub open spec fn bit(code: u32, k: nat) -> bool
    decreases k,
{
    if k == 0 {
        code % 2 == 1
    } else {
        bit(code / 2, (k - 1) as nat)
    }
}

/// The flags of the error code of a page fault.
#[derive(Clone, Copy, Debug, PartialEq, Eq, Structural)]
pub struct PF {
    bits: u32,
}

impl PF {
    pub closed spec fn spec_bits(&self) -> u32 {
        self.bits
    }

    /// The flags of error code `bits`; every bit is a flag.
    pub fn from_bits(bits: u32) -> (f: Option<PF>)
        ensures
            f is Some,
            f->Some_0.spec_bits() == bits,
    {
        Some(PF { bits })
    }

    #[verifier::when_used_as_spec(spec_bits)]
    pub fn bits(&self) -> (b: u32)
        ensures
            b == self.spec_bits(),
    {
        self.bits
    }

    /// Whether flag number `k`, counted from the lowest bit, is set.
    pub fn has(&self, k: u32) -> (b: bool)
        requires
            k < 8,
        ensures
            b == bit(self.spec_bits(), k as nat),
    {
        let mut v = self.bits;
        let mut i: u32 = 0;
        while i < k
            invariant
                i <= k,
                bit(self.bits, k as nat) == bit(v, (k - i) as nat),
            decreases k - i,
        {
            v = v / 2;
            i = i + 1;
        }
        v % 2 == 1
    }
}

/// `said` with `cause` added if flag `k` of `code` is set.
pub open spec fn and_if(said: Seq<Cause>, code: u32, k: nat, cause: Cause) -> Seq<Cause> {
    if bit(code, k) {
        said.push(cause)
    } else {
        said
    }
}

/// What error code `code` says, in the order in which the kernel reports
/// it: whether the page was present, whether the access was a write, and
/// then each further thing whose flag is set.
pub open spec fn causes_of(code: u32) -> Seq<Cause> {
    let first = seq![
        if bit(code, 0) { Cause::PageProtection } else { Cause::PageNotPresent },
        if bit(code, 1) { Cause::Write } else { Cause::Read },
    ];
    let s2 = and_if(first, code, 2, Cause::Cpl3);
    let s3 = and_if(s2, code, 3, Cause::ReservedWriteBits);
    let s4 = and_if(s3, code, 4, Cause::InstructionFetch);
    let s5 = and_if(s4, code, 5, Cause::KeyProtection);
    let s6 = and_if(s5, code, 6, Cause::ShadowStack);
    and_if(s6, code, 7, Cause::SgxViolation)
}

/// Adds `cause` to `causes` if flag `k` of `flags` is set.
fn add_if(causes: &mut Vec<Cause>, flags: &PF, k: u32, cause: Cause)
    requires
        k < 8,
    ensures
        final(causes)@ == and_if(old(causes)@, flags.spec_bits(), k as nat, cause),
{
    if flags.has(k) {
        causes.push(cause);
    }
}

/// What the error code of a page fault says.
pub fn page_fault_causes(code: u32) -> (causes: Vec<Cause>)
    ensures
        causes@ == causes_of(code),
{
    let flags = PF { bits: code };
    let mut causes: Vec<Cause> = Vec::new();
    causes.push(if flags.has(0) { Cause::PageProtection } else { Cause::PageNotPresent });
    causes.push(if flags.has(1) { Cause::Write } else { Cause::Read });
    assert(causes@ =~= seq![
        if bit(code, 0) { Cause::PageProtection } else { Cause::PageNotPresent },
        if bit(code, 1) { Cause::Write } else { Cause::Read },
    ]);
    add_if(&mut causes, &flags, 2, Cause::Cpl3);
    add_if(&mut causes, &flags, 3, Cause::ReservedWriteBits);
    add_if(&mut causes, &flags, 4, Cause::InstructionFetch);
    add_if(&mut causes, &flags, 5, Cause::KeyProtection);
    add_if(&mut causes, &flags, 6, Cause::ShadowStack);
    add_if(&mut causes, &flags, 7, Cause::SgxViolation);
    causes
}

impl PageDir {
    /// Entry `i` of the directory.
    pub fn entry(&self, i: usize) -> (e: PDE)
        requires
            self.wf(),
            i < ENTRIES,
        ensures
            e.0 == self@.dir[i as int],
    {
        self.entries[i]
    }

    /// The entry for virtual page `vpn` in the page table of its slot.
    pub fn table_entry(&self, vpn: usize) -> (e: u32)
        requires
            self.wf(),
            vpn < ENTRIES * ENTRIES,
        ensures
            e == self@.ptes[vpn as int],
    {
        self.tables[vpn]
    }
}

impl PageDir {
    /// Whether `unmap_single` would remove a mapping at `address`.
    pub fn can_unmap(&self, address: usize) -> (b: bool)
        requires
            self.wf(),
        ensures
            b == (unmap_refusal(self@, address as int) is None),
    {
        if address % PAGE_SIZE != 0 || address >= RESERVED_START {
            return false;
        }
        let d = address / LARGE_PAGE_SIZE;
        if self.entries[d].0 != self.link_entry(d) {
            return false;
        }
        self.tables[address / PAGE_SIZE] % 2 == 1
    }
}

/// One line of a dump of the page tables.
#[derive(Clone, Copy, Debug, PartialEq, Eq, Structural)]
pub enum DumpLine {
    /// A directory entry that is not 0: its index, its value, and the
    /// virtual addresses from and up to which it maps.
    Directory { index: usize, entry: u32, from: u64, to: u64 },
    /// An entry of a page table: its index, its value, and the virtual
    /// address of its page.
    Table { index: usize, entry: u32, address: u64 },
    /// So many entries were left out; each differs from the one before it
    /// by `delta`.
    Run { count: u64, delta: i64 },
}

/// Where the dump of a page table stands: how many entries in a row
/// differed from their predecessor by `delta`, less one, and the entry
/// looked at last.
pub struct Streak {
    pub count: int,
    pub prev: int,
    pub delta: int,
}

/// The lines of the dump of the page table of slot `i` from entry `j` on,
/// added to `lines`. Of entries in a row that differ from their predecessor
/// by the same amount only the first three are shown; a line that says how
/// many were left out follows them when the difference changes.
pub open spec fn table_lines(m: PagingModel, i: int, j: int, at: Streak, lines: Seq<DumpLine>) -> Seq<
    DumpLine,
>
    decreases ENTRIES - j,
{
    if j >= ENTRIES {
        lines
    } else {
        let entry = m.leaf(i * 1024 + j);
        let delta = entry - at.prev;
        let count = if delta == at.delta {
            at.count + 1
        } else {
            0
        };
        let closed = if delta != at.delta && at.count >= 3 {
            lines.push(DumpLine::Run { count: (at.count - 3) as u64, delta: at.delta as i64 })
        } else {
            lines
        };
        let shown = if count < 3 {
            closed.push(
                DumpLine::Table {
                    index: j as usize,
                    entry,
                    address: (i * 0x40_0000 + j * 0x1000) as u64,
                },
            )
        } else {
            closed
        };
        table_lines(m, i, j + 1, Streak { count, prev: entry as int, delta }, shown)
    }
}

/// The lines of the dump from directory slot `i` on, added to `lines`: for
/// each entry of the directory that is not 0 a line for the entry, followed
/// by the lines of its page table.
pub open spec fn dump_lines(m: PagingModel, i: int, lines: Seq<DumpLine>) -> Seq<DumpLine>
    decreases ENTRIES - i,
{
    if i >= ENTRIES {
        lines
    } else if m.dir[i] == 0 {
        dump_lines(m, i + 1, lines)
    } else {
        let head = DumpLine::Directory {
            index: i as usize,
            entry: m.dir[i],
            from: (i * 0x40_0000) as u64,
            to: ((i + 1) * 0x40_0000) as u64,
        };
        dump_lines(
            m,
            i + 1,
            table_lines(
                m,
                i,
                0,
                Streak { count: -1, prev: m.leaf(i * 1024) as int, delta: 0 },
                lines.push(head),
            ),
        )
    }
}

impl PageDir {
    /// The entry that the MMU reads for virtual page `vpn`.
    fn leaf(&self, vpn: usize) -> (e: u32)
        requires
            self.wf(),
            vpn < ENTRIES * ENTRIES,
        ensures
            e == self@.leaf(vpn as int),
    {
        if vpn / ENTRIES == RECURSIVE_SLOT {
            self.entries[vpn % ENTRIES].0
        } else {
            self.tables[vpn]
        }
    }

    /// Adds to `lines` the dump of the page table of slot `i`.
    fn dump_table(&self, i: usize, lines: &mut Vec<DumpLine>)
        requires
            self.wf(),
            i < ENTRIES,
        ensures
            final(lines)@ == table_lines(
                self@,
                i as int,
                0,
                Streak { count: -1, prev: self@.leaf(i * 1024) as int, delta: 0 },
                old(lines)@,
            ),
    {
        let mut count: i64 = -1;
        let mut prev: u32 = self.leaf(i * ENTRIES);
        let mut pdelta: i64 = 0;
        let mut j: usize = 0;
        while j < ENTRIES
            invariant
                self.wf(),
                i < ENTRIES,
                j <= ENTRIES,
                -1 <= count <= j,
                -0x1_0000_0000 < pdelta < 0x1_0000_0000,
                table_lines(
                    self@,
                    i as int,
                    0,
                    Streak { count: -1, prev: self@.leaf(i * 1024) as int, delta: 0 },
                    old(lines)@,
                ) == table_lines(
                    self@,
                    i as int,
                    j as int,
                    Streak { count: count as int, prev: prev as int, delta: pdelta as int },
                    lines@,
                ),
            decreases ENTRIES - j,
        {
            let entry = self.leaf(i * ENTRIES + j);
            let delta = entry as i64 - prev as i64;
            if delta == pdelta {
                count = count + 1;
            } else {
                if count >= 3 {
                    lines.push(DumpLine::Run { count: (count - 3) as u64, delta: pdelta });
                }
                count = 0;
                pdelta = delta;
            }
            if count < 3 {
                lines.push(
                    DumpLine::Table {
                        index: j,
                        entry,
                        address: i as u64 * 0x40_0000 + j as u64 * 0x1000,
                    },
                );
            }
            prev = entry;
            j = j + 1;
        }
    }

    /// The lines of a dump of the directory and of the page tables.
    pub fn dump_dbg(&self) -> (lines: Vec<DumpLine>)
        requires
            self.wf(),
        ensures
            lines@ == dump_lines(self@, 0, Seq::empty()),
    {
        let mut lines: Vec<DumpLine> = Vec::new();
        let mut i: usize = 0;
        while i < ENTRIES
            invariant
                self.wf(),
                i <= ENTRIES,
                dump_lines(self@, 0, Seq::empty()) == dump_lines(self@, i as int, lines@),
            decreases ENTRIES - i,
        {
            let entry = self.entries[i].0;
            if entry != 0 {
                lines.push(
                    DumpLine::Directory {
                        index: i,
                        entry,
                        from: i as u64 * 0x40_0000,
                        to: (i as u64 + 1) * 0x40_0000,
                    },
                );
                self.dump_table(i, &mut lines);
            }
            i = i + 1;
        }
        lines
    }
}

} // verus!
