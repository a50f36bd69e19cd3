//! What the kernel has in place of a C library.

pub mod lock;
pub mod mem;
