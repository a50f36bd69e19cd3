//! Physical memory as the boot loader describes it.

pub mod context;
pub mod pmm;
pub mod vmm;

use vstd::prelude::*;

verus! {

/// Size of one page and of one physical frame, in bytes.
pub const PAGE_SIZE: usize = 0x1000;

/// Number of frames in the 4 GiB physical address space.
pub const N_PAGES: usize = 0x10_0000;

/// How many regions a [`PhysicalMemory`] can hold.
pub const MAX_PHYS_REGIONS: usize = 10;

/// What a region of physical memory may be used for.
#[derive(Clone, Copy, Debug, PartialEq, Eq, Structural)]
pub enum RegionType {
    Unknown,
    Available,
    Reserved,
    ACPI,
    NVS,
    BadRAM,
}

/// The region kind that a memory-map type code stands for.
pub open spec fn region_type_of(code: int) -> RegionType {
    if code == 1 {
        RegionType::Available
    } else if code == 2 {
        RegionType::Reserved
    } else if code == 3 {
        RegionType::ACPI
    } else if code == 4 {
        RegionType::NVS
    } else if code == 5 {
        RegionType::BadRAM
    } else {
        RegionType::Unknown
    }
}

/// One contiguous range `[start, start + size)` of physical addresses.
#[derive(Clone, Copy, Debug, PartialEq, Eq, Structural)]
pub struct PhysicalRegion {
    pub start: usize,
    pub size: usize,
    pub rtype: RegionType,
}

impl PhysicalRegion {
    /// Builds a region from a memory-map record; a type code outside 1..=5
    /// gives `Unknown`.
    pub fn new(start: usize, size: usize, rtype: usize) -> (r: Self)
        ensures
            r.start == start,
            r.size == size,
            r.rtype == region_type_of(rtype as int),
    {
        PhysicalRegion {
            start,
            size,
            rtype: match rtype {
                1 => RegionType::Available,
                2 => RegionType::Reserved,
                3 => RegionType::ACPI,
                4 => RegionType::NVS,
                5 => RegionType::BadRAM,
                _ => RegionType::Unknown,
            },
        }
    }

    /// First address past the region.
    pub open spec fn end(&self) -> int {
        self.start + self.size
    }

    /// Whether frame `frame` lies entirely inside the region.
    pub open spec fn holds_frame(&self, frame: int) -> bool {
        self.start <= frame * PAGE_SIZE && (frame + 1) * PAGE_SIZE <= self.end()
    }
}

/// The regions of physical memory of the machine, in the order in which they
/// were added.
pub struct PhysicalMemory {
    pub regions: [PhysicalRegion; MAX_PHYS_REGIONS],
    /// Number of entries in use.
    pub size: usize,
}

impl View for PhysicalMemory {
    type V = Seq<PhysicalRegion>;

    /// The regions in use.
    open spec fn view(&self) -> Seq<PhysicalRegion> {
        self.regions@.subrange(0, self.size as int)
    }
}

impl PhysicalMemory {
    /// At most `MAX_PHYS_REGIONS` entries are in use.
    pub open spec fn wf(&self) -> bool {
        self.size <= MAX_PHYS_REGIONS
    }

    /// A list with no region: no entry is in use, and every entry is the
    /// region of no bytes at address 0, of unknown type.
    pub fn new() -> (m: Self)
        ensures
            m.wf(),
            m@ == Seq::<PhysicalRegion>::empty(),
            m.size == 0,
            m.regions@ == Seq::new(
                MAX_PHYS_REGIONS as nat,
                |i: int| (PhysicalRegion { start: 0, size: 0, rtype: RegionType::Unknown }),
            ),
    {
        let m = PhysicalMemory {
            regions: [PhysicalRegion { start: 0, size: 0, rtype: RegionType::Unknown };
                MAX_PHYS_REGIONS],
            size: 0,
        };
        assert(m@ =~= Seq::<PhysicalRegion>::empty());
        assert(m.regions@ =~= Seq::new(
            MAX_PHYS_REGIONS as nat,
            |i: int| (PhysicalRegion { start: 0, size: 0, rtype: RegionType::Unknown }),
        ));
        m
    }

    /// Whether no further region can be added.
    pub fn is_full(&self) -> (b: bool)
        ensures
            b == (self.size >= MAX_PHYS_REGIONS),
    {
        self.size >= MAX_PHYS_REGIONS
    }

    /// Appends `region`.
    pub fn add_entry(&mut self, region: PhysicalRegion)
        requires
            old(self).size < MAX_PHYS_REGIONS,
        ensures
            final(self).wf(),
            final(self)@ == old(self)@.push(region),
    {
        self.regions[self.size] = region;
        self.size += 1;
        assert(self@ =~= old(self)@.push(region));
    }

    /// The `i`-th region.
    pub fn get(&self, i: usize) -> (r: PhysicalRegion)
        requires
            self.wf(),
            i < self.size,
        ensures
            r == self@[i as int],
    {
        self.regions[i]
    }
}

} // verus!
