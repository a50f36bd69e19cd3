//! Access to device memory.

use vstd::prelude::*;
use crate::arch::x86::paging::linear_address;
use crate::memory::vmm::mapper;

verus! {

/// The virtual address at which the `size` bytes of device memory at
/// physical address `phys_addr` can be accessed: the address in the
/// kernel's linear window, if `phys_addr` lies in it.
pub fn remap_phys(phys_addr: usize, size: usize) -> (r: Result<usize, &'static str>)
    ensures
        match linear_address(phys_addr as int) {
            Some(v) => r == Ok::<usize, &'static str>(v as usize),
            None => r is Err,
        },
{
    match mapper::phys_to_virt(phys_addr) {
        Some(v) => Ok(v),
        None => Err("Could not remap physical address"),
    }
}

} // verus!
