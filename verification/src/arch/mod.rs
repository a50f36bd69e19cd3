//! Architecture-specific code.

pub mod common;
pub mod x86;

pub use x86::{KERNEL_IO_REMAP, KERNEL_LINEAR_START, KERNEL_TEMP_START};
