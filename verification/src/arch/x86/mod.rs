//! 32-bit x86 without PAE.
//!
//! Virtual memory map:
//!
//! | from         | to           | use                                   |
//! |--------------|--------------|---------------------------------------|
//! | `0x00000000` | `0xC0000000` | user space                            |
//! | `0xC0000000` | `0xF0000000` | linear mapping of physical memory     |
//! | `0xF0000000` | `0xFF800000` | temporary mappings, kernel heap       |
//! | `0xFF800000` | `0xFFC00000` | the page tables                       |
//! | `0xFFC00000` | 4 GiB        | the page directory, mapped onto itself|

pub mod acpi;
pub mod apic;
pub mod context;
pub mod cpu;
pub mod gdt;
pub mod io;
pub mod iomem;
pub mod irq;
pub mod kstart;
pub mod lock;
pub mod paging;
pub mod pci;
pub mod pic;

use vstd::prelude::*;

verus! {

/// Start of the linear mapping of physical memory.
pub const KERNEL_LINEAR_START: usize = 0xC000_0000;

/// Start of the area without fixed mappings.
pub const KERNEL_TEMP_START: usize = 0xF000_0000;

/// Last address below the 4 MiB that are kept to remap device memory.
pub const KERNEL_IO_REMAP: usize = 0xffbf_ffff;

} // verus!
