//! File systems.

pub mod block;
pub mod ext2;
pub mod vfs;
