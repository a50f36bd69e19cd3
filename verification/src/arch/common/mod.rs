//! Code shared by the architectures the kernel boots on.

pub mod multiboot;
