//! The system timer.

use vstd::prelude::*;
use crate::arch::x86::irq::{request_irq_top, Handler, IrqTable, LINES};

verus! {

/// Interrupt line of the timer.
pub const TIMER_LINE: u32 = 50;

/// The number of ticks since the kernel started, which starts again at 0
/// after the largest number.
pub struct Timer {
    pub jiffies: u64,
}

impl Timer {
    /// A timer that has not ticked.
    pub fn new() -> (t: Timer)
        ensures
            t.jiffies == 0,
    {
        Timer { jiffies: 0 }
    }
}

/// Counts a tick. The caller then runs the scheduler.
pub fn do_timer(timer: &mut Timer) -> (r: Result<(), ()>)
    ensures
        r is Ok,
        final(timer).jiffies == if old(timer).jiffies == u64::MAX {
            0
        } else {
            old(timer).jiffies + 1
        },
{
    if timer.jiffies == u64::MAX {
        timer.jiffies = 0;
    } else {
        timer.jiffies = timer.jiffies + 1;
    }
    Ok(())
}

/// The number of ticks counted.
pub fn get_jiffies(timer: &Timer) -> (n: u64)
    ensures
        n == timer.jiffies,
{
    timer.jiffies
}

/// Registers the timer's handler on the timer's interrupt line.
pub fn init(table: &mut IrqTable)
    requires
        old(table).wf(),
    ensures
        final(table).wf(),
        forall|i: int|
            0 <= i < LINES ==> #[trigger] final(table).handlers(i) == (if i == TIMER_LINE {
                old(table).handlers(i).push(Handler::Timer)
            } else {
                old(table).handlers(i)
            }),
{
    let _ = request_irq_top(table, TIMER_LINE, Handler::Timer);
}

} // verus!
