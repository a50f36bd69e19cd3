//! The I/O ports of the machine, and the device registers that lie in
//! memory.
//!
//! Code that talks to devices does so through a [`PortBus`], or through a
//! [`RegisterBus`] where the device has registers in memory. What it did is
//! the bus's trace: the accesses in their order, each read with the value
//! that came back. A driver's contract says which accesses it appends to
//! the trace and how its result depends on the values read.

use vstd::prelude::*;
use core::marker::PhantomData;

verus! {

/// One access to the I/O ports.
#[derive(Clone, Copy, Debug, PartialEq, Eq, Structural)]
pub enum PortOp {
    /// A byte was written to a port.
    Out8(u16, u8),
    /// A word was written to a port.
    Out16(u16, u16),
    /// A double word was written to a port.
    Out32(u16, u32),
    /// A byte was read from a port.
    In8(u16, u8),
    /// A word was read from a port.
    In16(u16, u16),
    /// A double word was read from a port.
    In32(u16, u32),
    /// A write to the unused port `0x80`, which takes the time of one bus
    /// cycle.
    Wait,
    /// A double word was read from the device register at an address.
    Load(usize, u32),
    /// A double word was written to the device register at an address.
    Store(usize, u32),
}

/// Whether the trace `before` is how the trace `after` starts.
pub open spec fn extends(before: Seq<PortOp>, after: Seq<PortOp>) -> bool {
    before.len() <= after.len() && after.subrange(0, before.len() as int) == before
}

/// Whether `s` holds the accesses `ops` from index `k` on.
pub open spec fn holds(s: Seq<PortOp>, k: int, ops: Seq<PortOp>) -> bool {
    0 <= k && k + ops.len() <= s.len() && s.subrange(k, k + ops.len()) == ops
}

/// A trace that extends a trace which extends a third extends the third.
pub proof fn lemma_extends(a: Seq<PortOp>, b: Seq<PortOp>, c: Seq<PortOp>)
    requires
        extends(a, b),
        extends(b, c),
    ensures
        extends(a, c),
{
    assert(c.subrange(0, a.len() as int) =~= c.subrange(0, b.len() as int).subrange(0, a.len() as int));
}

/// A trace that extends another holds the accesses of the other.
pub proof fn lemma_extended(a: Seq<PortOp>, b: Seq<PortOp>)
    requires
        extends(a, b),
    ensures
        forall|j: int| 0 <= j < a.len() ==> a[j] == #[trigger] b[j],
{
    assert forall|j: int| 0 <= j < a.len() implies a[j] == #[trigger] b[j] by {
        assert(b.subrange(0, a.len() as int)[j] == b[j]);
    }
}

/// A trace extends itself, and one more access extends a trace.
pub proof fn lemma_extends_push(a: Seq<PortOp>, op: PortOp)
    ensures
        extends(a, a),
        extends(a, a.push(op)),
{
    assert(a.subrange(0, a.len() as int) =~= a);
    assert(a.push(op).subrange(0, a.len() as int) =~= a);
}

/// More accesses extend a trace.
pub proof fn lemma_extends_add(a: Seq<PortOp>, ops: Seq<PortOp>)
    ensures
        extends(a, a + ops),
{
    assert((a + ops).subrange(0, a.len() as int) =~= a);
}

/// Accesses that a trace holds are held by a trace that extends it.
pub proof fn lemma_holds_stable(s: Seq<PortOp>, s2: Seq<PortOp>, k: int, ops: Seq<PortOp>)
    requires
        extends(s, s2),
        holds(s, k, ops),
    ensures
        holds(s2, k, ops),
{
    lemma_extended(s, s2);
    assert(s2.subrange(k, k + ops.len()) =~= s.subrange(k, k + ops.len()));
}

/// The I/O ports as the drivers use them.
pub trait PortBus {
    /// The accesses made so far.
    spec fn trace(&self) -> Seq<PortOp>;

    fn outb(&mut self, port: u16, byte: u8)
        ensures
            final(self).trace() == old(self).trace().push(PortOp::Out8(port, byte)),
    ;

    fn inb(&mut self, port: u16) -> (byte: u8)
        ensures
            final(self).trace() == old(self).trace().push(PortOp::In8(port, byte)),
    ;

    fn outw(&mut self, port: u16, word: u16)
        ensures
            final(self).trace() == old(self).trace().push(PortOp::Out16(port, word)),
    ;

    fn inw(&mut self, port: u16) -> (word: u16)
        ensures
            final(self).trace() == old(self).trace().push(PortOp::In16(port, word)),
    ;

    fn outl(&mut self, port: u16, long: u32)
        ensures
            final(self).trace() == old(self).trace().push(PortOp::Out32(port, long)),
    ;

    fn inl(&mut self, port: u16) -> (long: u32)
        ensures
            final(self).trace() == old(self).trace().push(PortOp::In32(port, long)),
    ;

    fn wait(&mut self)
        ensures
            final(self).trace() == old(self).trace().push(PortOp::Wait),
    ;
}

/// The ports together with the device registers in memory.
pub trait RegisterBus: PortBus {
    fn load(&mut self, address: usize) -> (value: u32)
        ensures
            final(self).trace() == old(self).trace().push(PortOp::Load(address, value)),
    ;

    fn store(&mut self, address: usize, value: u32)
        ensures
            final(self).trace() == old(self).trace().push(PortOp::Store(address, value)),
    ;
}

/// The value that a read of a device register gave, 0 for another access.
pub open spec fn load_value(op: PortOp) -> u32 {
    match op {
        PortOp::Load(_, v) => v,
        _ => 0,
    }
}

/// Reads and writes of device registers in memory, as the machine offers
/// them. Nothing is known of what a read gives.
pub trait RawRegisters {
    fn load(&mut self, address: usize) -> u32;

    fn store(&mut self, address: usize, value: u32);
}

/// The instructions that access the I/O ports, as the machine offers them.
/// Nothing is known of what a read gives.
pub trait RawPorts {
    fn outb(&mut self, port: u16, byte: u8);

    fn inb(&mut self, port: u16) -> u8;

    fn outw(&mut self, port: u16, word: u16);

    fn inw(&mut self, port: u16) -> u16;

    fn outl(&mut self, port: u16, long: u32);

    fn inl(&mut self, port: u16) -> u32;

    fn wait(&mut self);
}

/// The ports of a machine together with the trace of the accesses made
/// through them.
pub struct Traced<P: RawPorts> {
    pub ports: P,
    pub made: Ghost<Seq<PortOp>>,
}

impl<P: RawPorts> Traced<P> {
    /// The ports `ports`, through which no access was made yet.
    pub fn new(ports: P) -> (t: Self)
        ensures
            t.trace() == Seq::<PortOp>::empty(),
    {
        Traced { ports, made: Ghost(Seq::empty()) }
    }
}

impl<P: RawPorts> PortBus for Traced<P> {
    open spec fn trace(&self) -> Seq<PortOp> {
        self.made@
    }

    fn outb(&mut self, port: u16, byte: u8) {
        self.ports.outb(port, byte);
        self.made = Ghost(self.made@.push(PortOp::Out8(port, byte)));
    }

    fn inb(&mut self, port: u16) -> (byte: u8) {
        let byte = self.ports.inb(port);
        self.made = Ghost(self.made@.push(PortOp::In8(port, byte)));
        byte
    }

    fn outw(&mut self, port: u16, word: u16) {
        self.ports.outw(port, word);
        self.made = Ghost(self.made@.push(PortOp::Out16(port, word)));
    }

    fn inw(&mut self, port: u16) -> (word: u16) {
        let word = self.ports.inw(port);
        self.made = Ghost(self.made@.push(PortOp::In16(port, word)));
        word
    }

    fn outl(&mut self, port: u16, long: u32) {
        self.ports.outl(port, long);
        self.made = Ghost(self.made@.push(PortOp::Out32(port, long)));
    }

    fn inl(&mut self, port: u16) -> (long: u32) {
        let long = self.ports.inl(port);
        self.made = Ghost(self.made@.push(PortOp::In32(port, long)));
        long
    }

    fn wait(&mut self) {
        self.ports.wait();
        self.made = Ghost(self.made@.push(PortOp::Wait));
    }
}

impl<P: RawPorts + RawRegisters> RegisterBus for Traced<P> {
    fn load(&mut self, address: usize) -> (value: u32) {
        let value = self.ports.load(address);
        self.made = Ghost(self.made@.push(PortOp::Load(address, value)));
        value
    }

    fn store(&mut self, address: usize, value: u32) {
        self.ports.store(address, value);
        self.made = Ghost(self.made@.push(PortOp::Store(address, value)));
    }
}

/// Ports that answer reads from a prepared list of values and keep a log of
/// all accesses. A read takes the next value of the list, cut to the width
/// read; once the list is used up every read gives all bits set, as a port
/// does that no device listens on.
pub struct ScriptedPorts {
    pub answers: Vec<u32>,
    /// Number of answers given.
    pub given: usize,
    pub log: Vec<PortOp>,
}

/// The value that the `given`-th read gets from `answers`.
pub open spec fn answer(answers: Seq<u32>, given: int) -> u32 {
    if 0 <= given < answers.len() {
        answers[given]
    } else {
        0xffff_ffff
    }
}

impl ScriptedPorts {
    /// Ports that will answer reads with `answers`.
    pub fn new(answers: Vec<u32>) -> (p: Self)
        ensures
            p.answers@ == answers@,
            p.given == 0,
            p.log@ == Seq::<PortOp>::empty(),
    {
        ScriptedPorts { answers, given: 0, log: Vec::new() }
    }

    /// Takes the next answer.
    fn next(&mut self) -> (v: u32)
        ensures
            v == answer(old(self).answers@, old(self).given as int),
            final(self).answers@ == old(self).answers@,
            final(self).log@ == old(self).log@,
            final(self).given == if old(self).given < old(self).answers@.len() {
                old(self).given + 1
            } else {
                old(self).given as int
            },
    {
        if self.given < self.answers.len() {
            let v = self.answers[self.given];
            self.given = self.given + 1;
            v
        } else {
            0xffff_ffff
        }
    }
}

impl PortBus for ScriptedPorts {
    open spec fn trace(&self) -> Seq<PortOp> {
        self.log@
    }

    fn outb(&mut self, port: u16, byte: u8) {
        self.log.push(PortOp::Out8(port, byte));
    }

    fn inb(&mut self, port: u16) -> (byte: u8)
        ensures
            byte == answer(old(self).answers@, old(self).given as int) % 0x100,
    {
        let v = self.next();
        let byte = (v % 0x100) as u8;
        self.log.push(PortOp::In8(port, byte));
        byte
    }

    fn outw(&mut self, port: u16, word: u16) {
        self.log.push(PortOp::Out16(port, word));
    }

    fn inw(&mut self, port: u16) -> (word: u16)
        ensures
            word == answer(old(self).answers@, old(self).given as int) % 0x1_0000,
    {
        let v = self.next();
        let word = (v % 0x1_0000) as u16;
        self.log.push(PortOp::In16(port, word));
        word
    }

    fn outl(&mut self, port: u16, long: u32) {
        self.log.push(PortOp::Out32(port, long));
    }

    fn inl(&mut self, port: u16) -> (long: u32)
        ensures
            long == answer(old(self).answers@, old(self).given as int),
    {
        let long = self.next();
        self.log.push(PortOp::In32(port, long));
        long
    }

    fn wait(&mut self) {
        self.log.push(PortOp::Wait);
    }
}

impl RegisterBus for ScriptedPorts {
    fn load(&mut self, address: usize) -> (value: u32)
        ensures
            value == answer(old(self).answers@, old(self).given as int),
    {
        let value = self.next();
        self.log.push(PortOp::Load(address, value));
        value
    }

    fn store(&mut self, address: usize, value: u32) {
        self.log.push(PortOp::Store(address, value));
    }
}

/// One port, read and written in units of `Op`.
pub struct Pio<Op> {
    pub port: u16,
    pub _value: PhantomData<Op>,
}

/// A port with a read and write interface.
pub trait PortIO {
    type Op;

    /// The access that a read which gives `value` is.
    spec fn read_op(&self, value: Self::Op) -> PortOp;

    /// The access that a write of `value` is.
    spec fn write_op(&self, value: Self::Op) -> PortOp;

    fn read<B: PortBus>(&self, bus: &mut B) -> (value: Self::Op)
        ensures
            final(bus).trace() == old(bus).trace().push(self.read_op(value)),
    ;

    fn write<B: PortBus>(&self, bus: &mut B, op: Self::Op)
        ensures
            final(bus).trace() == old(bus).trace().push(self.write_op(op)),
    ;
}

impl<T> Pio<T> {
    pub fn new(port: u16) -> (p: Self)
        ensures
            p.port == port,
    {
        Pio { port, _value: PhantomData }
    }
}

impl PortIO for Pio<u8> {
    type Op = u8;

    open spec fn read_op(&self, value: u8) -> PortOp {
        PortOp::In8(self.port, value)
    }

    open spec fn write_op(&self, value: u8) -> PortOp {
        PortOp::Out8(self.port, value)
    }

    fn read<B: PortBus>(&self, bus: &mut B) -> (value: u8) {
        bus.inb(self.port)
    }

    fn write<B: PortBus>(&self, bus: &mut B, op: u8) {
        bus.outb(self.port, op);
    }
}

impl PortIO for Pio<u16> {
    type Op = u16;

    open spec fn read_op(&self, value: u16) -> PortOp {
        PortOp::In16(self.port, value)
    }

    open spec fn write_op(&self, value: u16) -> PortOp {
        PortOp::Out16(self.port, value)
    }

    fn read<B: PortBus>(&self, bus: &mut B) -> (value: u16) {
        bus.inw(self.port)
    }

    fn write<B: PortBus>(&self, bus: &mut B, op: u16) {
        bus.outw(self.port, op);
    }
}

impl PortIO for Pio<u32> {
    type Op = u32;

    open spec fn read_op(&self, value: u32) -> PortOp {
        PortOp::In32(self.port, value)
    }

    open spec fn write_op(&self, value: u32) -> PortOp {
        PortOp::Out32(self.port, value)
    }

    fn read<B: PortBus>(&self, bus: &mut B) -> (value: u32) {
        bus.inl(self.port)
    }

    fn write<B: PortBus>(&self, bus: &mut B, op: u32) {
        bus.outl(self.port, op);
    }
}

/// PS/2 data port.
pub const PS2DATA: u16 = 0x60;

/// PS/2 control port: read to get the status, write to send a command.
pub const PS2CONTROL: u16 = 0x24;

pub const PICMASTERCOMMAND: u16 = 0x20;

pub const PICMASTERDATA: u16 = 0x21;

pub const PICSLAVECOMMAND: u16 = 0xA0;

pub const PICSLAVEDATA: u16 = 0xA1;

pub const PITCHAN0: u16 = 0x40;

pub const PITCHAN1: u16 = 0x41;

pub const PITCHAN2: u16 = 0x42;

pub const PITCONTROL: u16 = 0x43;

pub const PITGATE: u16 = 0x61;

pub const PCICONFIG_ADDRESS: u16 = 0xCF8;

pub const PCICONFIG_DATA: u16 = 0xCFC;

} // verus!
