//! The PS/2 keyboard.

use vstd::prelude::*;
use std::collections::VecDeque;
use crate::arch::x86::io::{PortBus, PortOp, PS2CONTROL, PS2DATA};
use crate::arch::x86::irq::{request_irq_top, Handler, IrqTable, LINES};
use crate::driver::input::{push_event, InputEvent};

verus! {

/// Command: read the controller's configuration byte.
pub const READ_CONF: u8 = 0x20;

/// Interrupt line of the keyboard.
pub const KEYBOARD_LINE: u32 = 42;

/// The value that the access `op` read, if it read a byte.
pub open spec fn in8_value(op: PortOp) -> u8 {
    match op {
        PortOp::In8(_, v) => v,
        _ => 0,
    }
}

/// Reads the data port.
pub fn read_data<B: PortBus>(bus: &mut B) -> (data: u8)
    ensures
        final(bus).trace() == old(bus).trace().push(PortOp::In8(PS2DATA, data)),
{
    bus.inb(PS2DATA)
}

/// Asks the controller for its configuration byte and reads it.
pub fn read_conf_byte<B: PortBus>(bus: &mut B) -> (conf: u8)
    ensures
        final(bus).trace() == old(bus).trace().push(PortOp::Out8(PS2CONTROL, READ_CONF)).push(
            PortOp::In8(PS2DATA, conf),
        ),
{
    bus.outb(PS2CONTROL, READ_CONF);
    bus.inb(PS2DATA)
}

/// Handles the keyboard's interrupt: reads the scan code and queues it.
pub fn int_handler<B: PortBus>(bus: &mut B, queue: &mut VecDeque<InputEvent>) -> (r: Result<(), ()>)
    ensures
        r is Ok,
        final(bus).trace() == old(bus).trace().push(
            PortOp::In8(PS2DATA, in8_value(final(bus).trace().last())),
        ),
        final(queue)@ == old(queue)@.push(
            InputEvent::Keyboard(in8_value(final(bus).trace().last()) as u32),
        ),
{
    let event = read_data(bus);
    push_event(queue, InputEvent::Keyboard(event as u32));
    Ok(())
}

/// Brings the keyboard driver up: reads the controller's configuration and
/// registers the handler of the keyboard's interrupt line.
pub fn init<B: PortBus>(bus: &mut B, table: &mut IrqTable) -> (r: Result<(), ()>)
    requires
        old(table).wf(),
    ensures
        r is Ok,
        final(table).wf(),
        final(bus).trace() == old(bus).trace().push(PortOp::Out8(PS2CONTROL, READ_CONF)).push(
            PortOp::In8(PS2DATA, in8_value(final(bus).trace().last())),
        ),
        forall|i: int|
            0 <= i < LINES ==> #[trigger] final(table).handlers(i) == (if i == KEYBOARD_LINE {
                old(table).handlers(i).push(Handler::Keyboard)
            } else {
                old(table).handlers(i)
            }),
{
    let _conf = read_conf_byte(bus);
    let _ = request_irq_top(table, KEYBOARD_LINE, Handler::Keyboard);
    Ok(())
}

} // verus!
