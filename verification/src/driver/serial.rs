//! The first serial port, to which debug output goes.

use vstd::prelude::*;
use crate::arch::x86::io::{Pio, PortBus, PortIO, PortOp};

verus! {

/// Data port of COM1.
pub const COM1: u16 = 0x3f8;

/// The driver of a serial port.
pub struct SerialDriver {
    pub com1: Pio<u8>,
}

/// The accesses that write the bytes `bytes` to `port`, one after the other.
pub open spec fn byte_writes(port: u16, bytes: Seq<u8>) -> Seq<PortOp> {
    Seq::new(bytes.len(), |i: int| PortOp::Out8(port, bytes[i]))
}

impl SerialDriver {
    /// The driver of COM1.
    pub fn new() -> (d: SerialDriver)
        ensures
            d.com1.port == COM1,
    {
        SerialDriver { com1: Pio::new(COM1) }
    }

    /// Sends `bytes`.
    pub fn puts<B: PortBus>(&mut self, bus: &mut B, bytes: &[u8])
        ensures
            final(self).com1.port == old(self).com1.port,
            final(bus).trace() == old(bus).trace() + byte_writes(old(self).com1.port, bytes@),
    {
        let n = bytes.len();
        let mut i: usize = 0;
        assert(bus.trace() =~= old(bus).trace() + byte_writes(self.com1.port, bytes@.subrange(0, 0)));
        while i < n
            invariant
                i <= n,
                n == bytes@.len(),
                self.com1.port == old(self).com1.port,
                bus.trace() == old(bus).trace() + byte_writes(
                    self.com1.port,
                    bytes@.subrange(0, i as int),
                ),
            decreases n - i,
        {
            self.com1.write(bus, bytes[i]);
            assert(bus.trace() =~= old(bus).trace() + byte_writes(
                self.com1.port,
                bytes@.subrange(0, i + 1),
            ));
            i = i + 1;
        }
        assert(bytes@.subrange(0, n as int) =~= bytes@);
    }
}

} // verus!
