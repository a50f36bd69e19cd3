//! The scheduler: the tasks take turns in the order in which they were
//! created.

use vstd::prelude::*;
use crate::arch::x86::context::{switch, Context, Registers, STACK_SIZE};
use crate::arch::x86::irq::{request_irq_top, Handler, IrqTable, LINES};

verus! {

/// Interrupt line on which the scheduler is called.
pub const SCHEDULE_LINE: u32 = 50;

/// The interrupt enable bit of the flags register.
pub const EFLAGS_IF: u32 = 0x200;

/// Selector of the kernel's code segment.
pub const KERNEL_CS: u32 = 0x8;

/// A task.
pub struct Task {
    pub context: Context,
}

impl Task {
    /// A task whose stack lies at address `base`.
    pub fn new(base: u32) -> (t: Task)
        requires
            base <= u32::MAX - STACK_SIZE,
        ensures
            t.context.wf(),
            t.context.base == base,
            t.context.esp == base + STACK_SIZE,
            t.context.pushed() == Seq::<u32>::empty(),
    {
        Task { context: Context::new(base) }
    }
}

/// The tasks and which of them runs.
pub struct Scheduler {
    pub tasks: Vec<Task>,
    pub current: usize,
}

impl Scheduler {
    /// The running task is one of the tasks, if there is any.
    pub open spec fn wf(&self) -> bool {
        self.tasks@.len() == 0 && self.current == 0 || self.current < self.tasks@.len()
    }

    /// A scheduler without tasks.
    pub fn new() -> (s: Scheduler)
        ensures
            s.wf(),
            s.tasks@.len() == 0,
    {
        Scheduler { tasks: Vec::new(), current: 0 }
    }
}

/// The task that runs after task `current` of `n`.
pub open spec fn next_task(current: int, n: int) -> int {
    if current + 1 >= n {
        0
    } else {
        current + 1
    }
}

/// Gives the CPU to the next task: the registers in `cpu` are saved in the
/// running task and replaced by those of the task after it, which runs
/// from now on. With fewer than two tasks nothing happens.
pub fn schedule(s: &mut Scheduler, cpu: &mut Registers) -> (r: Result<(), ()>)
    requires
        old(s).wf(),
    ensures
        r is Ok,
        final(s).wf(),
        final(s).tasks@.len() == old(s).tasks@.len(),
        old(s).tasks@.len() < 2 ==> final(s).current == old(s).current && *final(cpu) == *old(cpu),
        old(s).tasks@.len() >= 2 ==> {
            let prev = old(s).current as int;
            let next = next_task(prev, old(s).tasks@.len() as int);
            &&& final(s).current == next
            &&& *final(cpu) == (Registers {
                ebx: old(s).tasks@[next].context.ebx,
                esi: old(s).tasks@[next].context.esi,
                edi: old(s).tasks@[next].context.edi,
                ebp: old(s).tasks@[next].context.ebp,
                esp: old(s).tasks@[next].context.esp,
                eflags: old(s).tasks@[next].context.eflags,
            })
            &&& final(s).tasks@[prev].context.esp == old(cpu).esp
            &&& final(s).tasks@[prev].context.ebp == old(cpu).ebp
            &&& final(s).tasks@[prev].context.ebx == old(cpu).ebx
            &&& final(s).tasks@[prev].context.esi == old(cpu).esi
            &&& final(s).tasks@[prev].context.edi == old(cpu).edi
            &&& final(s).tasks@[prev].context.eflags == old(cpu).eflags
            &&& final(s).tasks@[prev].context.eax == old(s).tasks@[prev].context.eax
            &&& final(s).tasks@[prev].context.ecx == old(s).tasks@[prev].context.ecx
            &&& final(s).tasks@[prev].context.edx == old(s).tasks@[prev].context.edx
            &&& final(s).tasks@[prev].context.eip == old(s).tasks@[prev].context.eip
            &&& final(s).tasks@[prev].context.base == old(s).tasks@[prev].context.base
            &&& final(s).tasks@[prev].context.stack@ == old(s).tasks@[prev].context.stack@
            &&& forall|i: int|
                0 <= i < old(s).tasks@.len() && i != prev ==> final(s).tasks@[i] == old(s).tasks@[i]
        },
{
    let n = s.tasks.len();
    if n < 2 {
        return Ok(());
    }
    let prev = s.current;
    let next = if prev + 1 >= n { 0 } else { prev + 1 };
    let target = s.tasks[next].context.registers();
    let saved = *cpu;
    *cpu = target;
    s.tasks[prev].context.ebx = saved.ebx;
    s.tasks[prev].context.esi = saved.esi;
    s.tasks[prev].context.edi = saved.edi;
    s.tasks[prev].context.ebp = saved.ebp;
    s.tasks[prev].context.esp = saved.esp;
    s.tasks[prev].context.eflags = saved.eflags;
    s.current = next;
    Ok(())
}

/// What a new task's stack holds, the word pushed last first: the address
/// at which the first switch to the task returns, and what `iret` takes
/// from there, the task's entry point, the code segment and the flags.
pub open spec fn first_frame(entry_point: u32, trampoline: u32, eflags: u32) -> Seq<u32> {
    seq![trampoline, entry_point, KERNEL_CS, eflags | EFLAGS_IF]
}

/// Creates a task that starts at `entry_point` with interrupts enabled.
/// Its stack lies at address `stack_base`; `trampoline` is the address of
/// the code that leaves the first switch to the task with `iret`, and
/// `eflags` the flags of the CPU.
pub fn new_kernel_thread(
    s: &mut Scheduler,
    entry_point: u32,
    trampoline: u32,
    eflags: u32,
    stack_base: u32,
)
    requires
        old(s).wf(),
        stack_base <= u32::MAX - STACK_SIZE,
    ensures
        final(s).wf(),
        final(s).current == old(s).current,
        final(s).tasks@.len() == old(s).tasks@.len() + 1,
        forall|i: int| 0 <= i < old(s).tasks@.len() ==> final(s).tasks@[i] == old(s).tasks@[i],
        final(s).tasks@.last().context.wf(),
        final(s).tasks@.last().context.base == stack_base,
        final(s).tasks@.last().context.pushed() == first_frame(entry_point, trampoline, eflags),
{
    let mut task = Task::new(stack_base);
    task.context.push(eflags | EFLAGS_IF);
    task.context.push(KERNEL_CS);
    task.context.push(entry_point);
    task.context.push(trampoline);
    assert(task.context.pushed() =~= first_frame(entry_point, trampoline, eflags));
    s.tasks.push(task);
}

/// Registers the scheduler on its interrupt line.
pub fn init(table: &mut IrqTable)
    requires
        old(table).wf(),
    ensures
        final(table).wf(),
        forall|i: int|
            0 <= i < LINES ==> #[trigger] final(table).handlers(i) == (if i == SCHEDULE_LINE {
                old(table).handlers(i).push(Handler::Schedule)
            } else {
                old(table).handlers(i)
            }),
{
    let _ = request_irq_top(table, SCHEDULE_LINE, Handler::Schedule);
}

} // verus!
