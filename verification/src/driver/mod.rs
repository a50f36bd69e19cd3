//! Device drivers.

pub mod input;
pub mod kbd;
pub mod pci;
pub mod pci_ide;
pub mod serial;
pub mod timer;
pub mod vga;

use vstd::prelude::*;

verus! {

/// What every driver offers.
pub trait DriverInterface {
    /// Brings the driver up.
    fn init() -> Result<(), ()>;
}

} // verus!
