//! The handlers of the interrupt lines.
//!
//! A handler is named by what it does; running it is left to the code that
//! took the interrupt.

use vstd::prelude::*;

verus! {

/// Number of interrupt lines.
pub const LINES: usize = 256;

/// What can be done when an interrupt arrives.
#[derive(Clone, Copy, Debug, PartialEq, Eq, Structural)]
pub enum Handler {
    /// Read the keyboard's scan code and queue it.
    Keyboard,
    /// Count the tick and call the scheduler.
    Timer,
    /// Switch to the next task.
    Schedule,
}

/// The handlers registered for each line, in the order in which they were
/// registered.
pub struct IrqTable {
    pub lines: Vec<Vec<Handler>>,
}

impl IrqTable {
    /// There is a list for each line.
    pub open spec fn wf(&self) -> bool {
        self.lines@.len() == LINES
    }

    /// The handlers of line `irq`.
    pub open spec fn handlers(&self, irq: int) -> Seq<Handler> {
        self.lines@[irq]@
    }

    /// A table without handlers.
    pub fn new() -> (t: IrqTable)
        ensures
            t.wf(),
            forall|i: int| 0 <= i < LINES ==> #[trigger] t.handlers(i) == Seq::<Handler>::empty(),
    {
        let mut lines: Vec<Vec<Handler>> = Vec::new();
        let mut i: usize = 0;
        while i < LINES
            invariant
                i <= LINES,
                lines@.len() == i,
                forall|k: int| 0 <= k < i ==> (#[trigger] lines@[k])@ == Seq::<Handler>::empty(),
            decreases LINES - i,
        {
            lines.push(Vec::new());
            i = i + 1;
        }
        IrqTable { lines }
    }
}

/// The handlers to run for interrupt line `irq`, in their order; a line that
/// does not exist is refused.
pub fn top_handlers(table: &IrqTable, irq: u32) -> (r: Result<Vec<Handler>, ()>)
    requires
        table.wf(),
    ensures
        irq > 255 ==> r is Err,
        irq <= 255 ==> r is Ok && r->Ok_0@ == table.handlers(irq as int),
{
    if irq > 255 {
        return Err(());
    }
    let line = &table.lines[irq as usize];
    let mut out: Vec<Handler> = Vec::new();
    let mut i: usize = 0;
    while i < line.len()
        invariant
            i <= line@.len(),
            out@ == line@.subrange(0, i as int),
        decreases line@.len() - i,
    {
        out.push(line[i]);
        assert(out@ =~= line@.subrange(0, i + 1));
        i = i + 1;
    }
    assert(out@ =~= line@);
    Ok(out)
}

/// Registers `handler` for interrupt line `irq_line`; a line that does not
/// exist is refused.
pub fn request_irq_top(table: &mut IrqTable, irq_line: u32, handler: Handler) -> (r: Result<(), ()>)
    requires
        old(table).wf(),
    ensures
        final(table).wf(),
        irq_line > 255 ==> r is Err && forall|i: int|
            0 <= i < LINES ==> #[trigger] final(table).handlers(i) == old(table).handlers(i),
        irq_line <= 255 ==> r is Ok && forall|i: int|
            0 <= i < LINES ==> #[trigger] final(table).handlers(i) == (if i == irq_line {
                old(table).handlers(i).push(handler)
            } else {
                old(table).handlers(i)
            }),
{
    if irq_line > 255 {
        return Err(());
    }
    let i = irq_line as usize;
    let mut line: Vec<Handler> = Vec::new();
    core::mem::swap(&mut line, &mut table.lines[i]);
    line.push(handler);
    table.lines[i] = line;
    Ok(())
}

} // verus!
