//! Memory-management core and hardware-facing logic of a small x86 kernel.
//!
//! Every state the kernel keeps (region list, frame bitmap, page directory,
//! heap) is an ordinary value that is passed to the functions working on it,
//! so that each operation has a contract over the value before and after.
//! [`memory::context::KernelMemory`] owns the four as the kernel's single
//! instance of each, brings them up in order and guards them with a lock.

pub mod error;
pub mod memory;
pub mod arch;
pub mod driver;
pub mod fs;
pub mod klib;
pub mod proc;
pub mod utils;
