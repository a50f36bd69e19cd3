//! The devices on the PCI buses.

pub mod config;
pub mod id;

use vstd::prelude::*;
use crate::driver::pci::config::PCIEndpointConfig;

verus! {

/// The kinds of device that the kernel has a driver for.
#[derive(Clone, Copy, Debug, PartialEq, Eq, Structural)]
pub enum PCIType {
    Unsupported,
    IDE,
    ATA,
    SATA,
}

/// One function of a device on a PCI bus.
#[derive(Clone, Copy, Debug, PartialEq, Eq, Structural)]
pub struct PCIDevice {
    pub config: PCIEndpointConfig,
    pub bus_num: u8,
    pub dev_num: u8,
    pub fn_num: u8,
    pub kind: PCIType,
}

/// Finds the devices on the PCI buses.
pub fn init<B: crate::arch::x86::io::PortBus>(bus: &mut B) -> (r: Result<
    Vec<PCIDevice>,
    crate::error::Error,
>)
    ensures
        old(bus).trace().len() <= final(bus).trace().len(),
        final(bus).trace().subrange(0, old(bus).trace().len() as int) == old(bus).trace(),
        ({
            let made = final(bus).trace().subrange(
                old(bus).trace().len() as int,
                final(bus).trace().len() as int,
            );
            let outcome = id::survey(
                made,
                0,
                255,
                -1,
                crate::arch::x86::pci::Position { b: 0, dev: 0, f: -1 },
                Seq::empty(),
            );
            match r {
                Ok(devices) => outcome == id::Outcome::Done(made.len() as int, devices@),
                Err(e) => e == crate::error::Error::NotImplemented && outcome is Failed,
            }
        }),
{
    let mut devices: Vec<PCIDevice> = Vec::new();
    match id::enumerate(bus, &mut devices) {
        Ok(_) => Ok(devices),
        Err(e) => Err(e),
    }
}

} // verus!
