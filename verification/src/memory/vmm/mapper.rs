//! The interface of the virtual-address mapper, and the kernel's use of it.

use vstd::prelude::*;
use crate::arch::x86::paging::{
    linear_address, pages_unmapped, range_mapped, range_unmapped, single_mapped, single_unmapped, PageDir,
    PagingModel, ADDRESS_SPACE, RESERVED_START,
};
use crate::error::MappingError;
use crate::memory::{N_PAGES, PAGE_SIZE};
use crate::memory::pmm::{Frame, FrameRange};
use crate::memory::pmm::bitmap::BitMap;

verus! {

/// What a mapper of virtual addresses offers.
pub trait MapperInterface {
    /// The page-table hierarchy as the MMU sees it.
    spec fn model(&self) -> PagingModel;

    /// Maps a single frame.
    fn map_single(&mut self, f: Frame, address: usize) -> (r: Result<(), MappingError>)
        requires
            old(self).model().wf(),
            f.0 < N_PAGES,
            address < ADDRESS_SPACE,
            address < RESERVED_START ==> old(self).model().translate(address as int) is None,
        ensures
            final(self).model().wf(),
            single_mapped(old(self).model(), final(self).model(), f, address, r),
    ;

    /// Unmaps a single page and gives its frame back.
    fn unmap_single(&mut self, pmm: &mut BitMap, address: usize) -> (r: Result<(), MappingError>)
        requires
            old(self).model().wf(),
            old(pmm).inv(),
            address < ADDRESS_SPACE,
        ensures
            final(self).model().wf(),
            final(pmm).inv(),
            single_unmapped(
                old(self).model(),
                final(self).model(),
                old(pmm)@,
                final(pmm)@,
                address,
                r,
            ),
    ;

    /// Maps the frames of `f` at consecutive pages from `address` on.
    fn map_range(&mut self, f: FrameRange, address: usize) -> (r: Result<(), MappingError>)
        requires
            old(self).model().wf(),
            f.start.0 + f.size <= N_PAGES,
            address + f.size * PAGE_SIZE <= ADDRESS_SPACE,
            pages_unmapped(old(self).model(), address as int, f.size as int),
        ensures
            final(self).model().wf(),
            range_mapped(old(self).model(), final(self).model(), f, address, r),
    ;

    /// Unmaps `npages` consecutive pages from `address` on.
    fn unmap_range(&mut self, pmm: &mut BitMap, address: usize, npages: usize) -> (r: Result<
        (),
        MappingError,
    >)
        requires
            old(self).model().wf(),
            old(pmm).inv(),
            address + npages * PAGE_SIZE <= ADDRESS_SPACE,
        ensures
            final(self).model().wf(),
            final(pmm).inv(),
            range_unmapped(
                old(self).model(),
                final(self).model(),
                old(pmm)@,
                final(pmm)@,
                address,
                npages,
                r,
            ),
    ;

    /// The physical address of a virtual, mapped address.
    fn virt_to_phys(&self, address: usize) -> (r: Option<usize>)
        requires
            self.model().wf(),
        ensures
            match self.model().translate(address as int) {
                Some(p) => r == Some(p as usize) && 0 <= p < ADDRESS_SPACE,
                None => r is None,
            },
    ;

    /// The virtual address of a physical address that lies within the
    /// kernel's linear mapping of physical memory.
    fn phys_to_virt(&self, address: usize) -> (r: Option<usize>)
        ensures
            match linear_address(address as int) {
                Some(v) => r == Some(v as usize),
                None => r is None,
            },
    ;
}

impl MapperInterface for PageDir {
    open spec fn model(&self) -> PagingModel {
        self@
    }

    fn map_single(&mut self, f: Frame, address: usize) -> (r: Result<(), MappingError>) {
        PageDir::map_single(self, f, address)
    }

    fn unmap_single(&mut self, pmm: &mut BitMap, address: usize) -> (r: Result<(), MappingError>) {
        PageDir::unmap_single(self, pmm, address)
    }

    fn map_range(&mut self, f: FrameRange, address: usize) -> (r: Result<(), MappingError>) {
        PageDir::map_range(self, f, address)
    }

    fn unmap_range(&mut self, pmm: &mut BitMap, address: usize, npages: usize) -> (r: Result<
        (),
        MappingError,
    >) {
        PageDir::unmap_range(self, pmm, address, npages)
    }

    fn virt_to_phys(&self, address: usize) -> (r: Option<usize>) {
        PageDir::virt_to_phys(self, address)
    }

    fn phys_to_virt(&self, address: usize) -> (r: Option<usize>) {
        PageDir::phys_to_virt(self, address)
    }
}

/// Maps a single frame in the kernel's address space.
pub fn map_single_kernel(mapper: &mut PageDir, f: Frame, address: usize) -> (r: Result<
    (),
    MappingError,
>)
    requires
        old(mapper).wf(),
        f.0 < N_PAGES,
        address < ADDRESS_SPACE,
        address < RESERVED_START ==> old(mapper)@.translate(address as int) is None,
    ensures
        final(mapper).wf(),
        single_mapped(old(mapper)@, final(mapper)@, f, address, r),
{
    mapper.map_single(f, address)
}

/// Maps the frames of `r` at consecutive pages of the kernel's address space
/// from `address` on.
pub fn map_range_kernel(mapper: &mut PageDir, r: FrameRange, address: usize) -> (res: Result<
    (),
    MappingError,
>)
    requires
        old(mapper).wf(),
        r.start.0 + r.size <= N_PAGES,
        address + r.size * PAGE_SIZE <= ADDRESS_SPACE,
        pages_unmapped(old(mapper)@, address as int, r.size as int),
    ensures
        final(mapper).wf(),
        range_mapped(old(mapper)@, final(mapper)@, r, address, res),
{
    mapper.map_range(r, address)
}

/// The physical address of a virtual address that the kernel has mapped.
pub fn virt_to_phys_kernel(mapper: &PageDir, address: usize) -> (r: Option<usize>)
    requires
        mapper.wf(),
    ensures
        match mapper@.translate(address as int) {
            Some(p) => r == Some(p as usize) && 0 <= p < ADDRESS_SPACE,
            None => r is None,
        },
{
    mapper.virt_to_phys(address)
}

/// The virtual address of a physical address within the kernel's linear
/// mapping of physical memory.
pub fn phys_to_virt(address: usize) -> (r: Option<usize>)
    ensures
        match linear_address(address as int) {
            Some(v) => r == Some(v as usize),
            None => r is None,
        },
{
    if address < crate::arch::x86::KERNEL_TEMP_START - crate::arch::x86::KERNEL_LINEAR_START {
        Some(crate::arch::x86::KERNEL_LINEAR_START + address)
    } else {
        None
    }
}

/// Unmaps a single page of the kernel's address space.
pub fn unmap_single_kernel(mapper: &mut PageDir, pmm: &mut BitMap, address: usize) -> (r: Result<
    (),
    MappingError,
>)
    requires
        old(mapper).wf(),
        old(pmm).inv(),
        address < ADDRESS_SPACE,
    ensures
        final(mapper).wf(),
        final(pmm).inv(),
        single_unmapped(old(mapper)@, final(mapper)@, old(pmm)@, final(pmm)@, address, r),
{
    mapper.unmap_single(pmm, address)
}

/// Unmaps `n` consecutive pages of the kernel's address space.
pub fn unmap_range_kernel(mapper: &mut PageDir, pmm: &mut BitMap, address: usize, n: usize) -> (r:
    Result<(), MappingError>)
    requires
        old(mapper).wf(),
        old(pmm).inv(),
        address + n * PAGE_SIZE <= ADDRESS_SPACE,
    ensures
        final(mapper).wf(),
        final(pmm).inv(),
        range_unmapped(old(mapper)@, final(mapper)@, old(pmm)@, final(pmm)@, address, n, r),
{
    mapper.unmap_range(pmm, address, n)
}

} // verus!
