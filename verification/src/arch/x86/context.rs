//! The registers of a task that is not running, and its stack.

use vstd::prelude::*;

verus! {

/// Size of a task's stack in bytes.
pub const STACK_SIZE: usize = 4096;

/// Number of words of a task's stack.
pub const STACK_WORDS: usize = 1024;

/// The registers that a context switch saves and restores.
#[derive(Clone, Copy, Debug, PartialEq, Eq, Structural)]
pub struct Registers {
    pub ebx: u32,
    pub esi: u32,
    pub edi: u32,
    pub ebp: u32,
    pub esp: u32,
    pub eflags: u32,
}

/// What is kept of a task while it does not run. The stack lies at the
/// addresses from `base` on and grows down from its end.
pub struct Context {
    pub eax: u32,
    pub ebx: u32,
    pub ecx: u32,
    pub edx: u32,
    pub esi: u32,
    pub edi: u32,
    pub ebp: u32,
    pub esp: u32,
    pub eip: u32,
    pub eflags: u32,
    /// Address of the stack.
    pub base: u32,
    pub stack: Vec<u32>,
}

impl Context {
    /// The stack has all its words and the stack pointer points to one of
    /// them, or just behind the last.
    pub open spec fn wf(&self) -> bool {
        &&& self.stack@.len() == STACK_WORDS
        &&& self.base + STACK_SIZE <= u32::MAX
        &&& self.base <= self.esp <= self.base + STACK_SIZE
        &&& (self.esp - self.base) % 4 == 0
    }

    /// The words on the stack, the one pushed last first.
    pub open spec fn pushed(&self) -> Seq<u32> {
        self.stack@.subrange((self.esp - self.base) / 4, STACK_WORDS as int)
    }

    /// A context with all registers cleared and a stack at address `base`,
    /// empty.
    pub fn new(base: u32) -> (c: Context)
        requires
            base <= u32::MAX - STACK_SIZE,
        ensures
            c.wf(),
            c.base == base,
            c.esp == base + STACK_SIZE,
            c.ebp == c.esp,
            c.eip == 0,
            c.eflags == 0,
            c.pushed() == Seq::<u32>::empty(),
    {
        let mut stack: Vec<u32> = Vec::new();
        let mut i: usize = 0;
        while i < STACK_WORDS
            invariant
                i <= STACK_WORDS,
                stack@.len() == i,
            decreases STACK_WORDS - i,
        {
            stack.push(0);
            i = i + 1;
        }
        let top = base + STACK_SIZE as u32;
        let c = Context {
            eax: 0,
            ebx: 0,
            ecx: 0,
            edx: 0,
            esi: 0,
            edi: 0,
            ebp: top,
            esp: top,
            eip: 0,
            eflags: 0,
            base,
            stack,
        };
        assert(c.pushed() =~= Seq::<u32>::empty());
        c
    }

    /// Empties the stack.
    pub fn init_stack(&mut self)
        requires
            old(self).stack@.len() == STACK_WORDS,
            old(self).base + STACK_SIZE <= u32::MAX,
        ensures
            final(self).wf(),
            final(self).esp == old(self).base + STACK_SIZE,
            final(self).ebp == final(self).esp,
            final(self).pushed() == Seq::<u32>::empty(),
            final(self).base == old(self).base,
    {
        self.ebp = self.base + STACK_SIZE as u32;
        self.esp = self.ebp;
        assert(self.pushed() =~= Seq::<u32>::empty());
    }

    /// Pushes `value` onto the stack, which must not be full.
    pub fn push(&mut self, value: u32)
        requires
            old(self).wf(),
            old(self).esp >= old(self).base + 4,
        ensures
            final(self).wf(),
            final(self).esp == old(self).esp - 4,
            final(self).pushed() == seq![value] + old(self).pushed(),
            final(self).base == old(self).base,
            final(self).ebp == old(self).ebp,
    {
        self.esp = self.esp - 4;
        let index = ((self.esp - self.base) / 4) as usize;
        self.stack[index] = value;
        assert(self.pushed() =~= seq![value] + old(self).pushed());
    }

    /// The registers that a switch to this context loads.
    pub fn registers(&self) -> (r: Registers)
        ensures
            r == (Registers {
                ebx: self.ebx,
                esi: self.esi,
                edi: self.edi,
                ebp: self.ebp,
                esp: self.esp,
                eflags: self.eflags,
            }),
    {
        Registers {
            ebx: self.ebx,
            esi: self.esi,
            edi: self.edi,
            ebp: self.ebp,
            esp: self.esp,
            eflags: self.eflags,
        }
    }
}

/// Switches from the task of `prev` to the task of `next`: the registers in
/// `cpu` are saved in `prev` and replaced by those of `next`.
pub fn switch(cpu: &mut Registers, prev: &mut Context, next: &Context)
    ensures
        *final(cpu) == (Registers {
            ebx: next.ebx,
            esi: next.esi,
            edi: next.edi,
            ebp: next.ebp,
            esp: next.esp,
            eflags: next.eflags,
        }),
        final(prev).ebx == old(cpu).ebx,
        final(prev).esi == old(cpu).esi,
        final(prev).edi == old(cpu).edi,
        final(prev).ebp == old(cpu).ebp,
        final(prev).esp == old(cpu).esp,
        final(prev).eflags == old(cpu).eflags,
        final(prev).eax == old(prev).eax,
        final(prev).ecx == old(prev).ecx,
        final(prev).edx == old(prev).edx,
        final(prev).eip == old(prev).eip,
        final(prev).base == old(prev).base,
        final(prev).stack@ == old(prev).stack@,
{
    prev.eflags = cpu.eflags;
    prev.ebx = cpu.ebx;
    prev.esi = cpu.esi;
    prev.edi = cpu.edi;
    prev.esp = cpu.esp;
    prev.ebp = cpu.ebp;
    cpu.eflags = next.eflags;
    cpu.ebx = next.ebx;
    cpu.esi = next.esi;
    cpu.edi = next.edi;
    cpu.esp = next.esp;
    cpu.ebp = next.ebp;
}

} // verus!
