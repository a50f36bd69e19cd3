//! Error values shared by the kernel's subsystems.

use vstd::prelude::*;

verus! {

/// Failure of a kernel service, one variant per errno the kernel uses.
#[derive(Clone, Copy, Debug, PartialEq, Eq, Structural)]
pub enum Error {
    /// No memory left to satisfy the request.
    OutOfMemory,
    /// Bad address.
    Fault,
    /// The operation is not implemented by the object it was asked of.
    NotImplemented,
    /// No such file or directory.
    NotFound,
    /// Invalid argument.
    InvalidArgument,
}

pub type Result<T> = core::result::Result<T, Error>;

/// The errno number of each error, as in POSIX.
pub open spec fn errno_of(e: Error) -> int {
    match e {
        Error::OutOfMemory => 12,
        Error::Fault => 14,
        Error::NotImplemented => 38,
        Error::NotFound => 2,
        Error::InvalidArgument => 22,
    }
}

impl Error {
    /// The errno number of this error.
    pub fn code(&self) -> (c: u32)
        ensures
            c == errno_of(*self),
    {
        match self {
            Error::OutOfMemory => 12,
            Error::Fault => 14,
            Error::NotImplemented => 38,
            Error::NotFound => 2,
            Error::InvalidArgument => 22,
        }
    }
}

/// Why a request to the virtual-address mapper was refused.
#[derive(Clone, Copy, Debug, PartialEq, Eq, Structural)]
pub enum MappingError {
    /// The virtual address is not a multiple of the page size.
    Unaligned,
    /// The virtual address already translates to a physical address.
    AlreadyMapped,
    /// No 4 KiB mapping that the mapper may remove exists at the address.
    NotMapped,
}

} // verus!
