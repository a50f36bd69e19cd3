//! The two cascaded 8259 interrupt controllers.

use vstd::prelude::*;
use crate::arch::x86::io::{
    PortBus, PortOp, PICMASTERCOMMAND, PICMASTERDATA, PICSLAVECOMMAND, PICSLAVEDATA,
};

verus! {

/// First initialization word: initialize, a fourth word will follow.
pub const ICW1_INIT_ICW4: u8 = 0x11;

/// Command word: end of interrupt.
pub const ICW1_EOI: u8 = 0x20;

/// Fourth initialization word: 8086 mode.
pub const ICW4_8086: u8 = 0x01;

/// Vector of the first interrupt of the master controller; the vectors
/// below it are the CPU's exceptions.
pub const MASTER_OFFSET: u8 = 0x20;

/// Vector of the first interrupt of the slave controller.
pub const SLAVE_OFFSET: u8 = 0x28;

/// The accesses that initialize both controllers so that the master's
/// interrupts start at vector `offset1` and the slave's at `offset2`, and
/// that then mask the master's line 0 only.
pub open spec fn remap_ops(offset1: u8, offset2: u8) -> Seq<PortOp> {
    seq![
        PortOp::Out8(PICMASTERCOMMAND, ICW1_INIT_ICW4),
        PortOp::Wait,
        PortOp::Out8(PICSLAVECOMMAND, ICW1_INIT_ICW4),
        PortOp::Wait,
        PortOp::Out8(PICMASTERDATA, offset1),
        PortOp::Wait,
        PortOp::Out8(PICSLAVEDATA, offset2),
        PortOp::Wait,
        PortOp::Out8(PICMASTERDATA, 4),
        PortOp::Wait,
        PortOp::Out8(PICSLAVEDATA, 2),
        PortOp::Wait,
        PortOp::Out8(PICMASTERDATA, ICW4_8086),
        PortOp::Wait,
        PortOp::Out8(PICSLAVEDATA, ICW4_8086),
        PortOp::Wait,
        PortOp::Out8(PICMASTERDATA, 1),
        PortOp::Out8(PICSLAVEDATA, 0),
        PortOp::Wait,
    ]
}

/// Initializes both controllers with the given vector offsets.
pub fn pic_remap<B: PortBus>(bus: &mut B, offset1: u8, offset2: u8)
    ensures
        final(bus).trace() == old(bus).trace() + remap_ops(offset1, offset2),
{
    bus.outb(PICMASTERCOMMAND, ICW1_INIT_ICW4);
    bus.wait();
    bus.outb(PICSLAVECOMMAND, ICW1_INIT_ICW4);
    bus.wait();
    bus.outb(PICMASTERDATA, offset1);
    bus.wait();
    bus.outb(PICSLAVEDATA, offset2);
    bus.wait();
    bus.outb(PICMASTERDATA, 4);
    bus.wait();
    bus.outb(PICSLAVEDATA, 2);
    bus.wait();
    bus.outb(PICMASTERDATA, ICW4_8086);
    bus.wait();
    bus.outb(PICSLAVEDATA, ICW4_8086);
    bus.wait();
    bus.outb(PICMASTERDATA, 1);
    bus.outb(PICSLAVEDATA, 0);
    bus.wait();
    assert(bus.trace() =~= old(bus).trace() + remap_ops(offset1, offset2));
}

/// The accesses that acknowledge interrupt line `interrupt_code`: the slave
/// is told only if the line is one of its own.
pub open spec fn eoi_ops(interrupt_code: u32) -> Seq<PortOp> {
    if interrupt_code >= 8 {
        seq![PortOp::Out8(PICSLAVECOMMAND, ICW1_EOI), PortOp::Out8(PICMASTERCOMMAND, ICW1_EOI)]
    } else {
        seq![PortOp::Out8(PICMASTERCOMMAND, ICW1_EOI)]
    }
}

/// Acknowledges interrupt line `interrupt_code`.
pub fn eoi<B: PortBus>(bus: &mut B, interrupt_code: u32)
    ensures
        final(bus).trace() == old(bus).trace() + eoi_ops(interrupt_code),
{
    if interrupt_code >= 8 {
        bus.outb(PICSLAVECOMMAND, ICW1_EOI);
    }
    bus.outb(PICMASTERCOMMAND, ICW1_EOI);
    assert(bus.trace() =~= old(bus).trace() + eoi_ops(interrupt_code));
}

/// Moves the controllers' interrupts behind the vectors of the CPU's
/// exceptions.
pub fn setup<B: PortBus>(bus: &mut B)
    ensures
        final(bus).trace() == old(bus).trace() + remap_ops(MASTER_OFFSET, SLAVE_OFFSET),
{
    pic_remap(bus, MASTER_OFFSET, SLAVE_OFFSET);
}

/// The accesses that mask every line of both controllers.
pub open spec fn mask_ops() -> Seq<PortOp> {
    seq![PortOp::Out8(PICMASTERDATA, 0xFF), PortOp::Out8(PICSLAVEDATA, 0xFF), PortOp::Wait]
}

/// Sets the controllers up and then masks all their lines.
pub fn disable<B: PortBus>(bus: &mut B)
    ensures
        final(bus).trace() == old(bus).trace() + remap_ops(MASTER_OFFSET, SLAVE_OFFSET)
            + mask_ops(),
{
    setup(bus);
    bus.outb(PICMASTERDATA, 0xFF);
    bus.outb(PICSLAVEDATA, 0xFF);
    bus.wait();
    assert(bus.trace() =~= old(bus).trace() + remap_ops(MASTER_OFFSET, SLAVE_OFFSET) + mask_ops());
}

} // verus!
