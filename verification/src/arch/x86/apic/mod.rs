//! The table of interrupt controllers, and the registers of the local APIC
//! and of the I/O APIC.

pub mod timer;

use vstd::prelude::*;
use crate::arch::common::multiboot::{le_u16, le_u32, read_u16, read_u32};
use crate::arch::x86::io::{load_value, PortOp, RegisterBus};
use crate::arch::x86::acpi::HEADER_SIZE;
use crate::error::{Error, Result};

verus! {

/// Offset of the first entry of the table.
pub const ENTRIES_START: usize = 44;

/// Type of the entry of an I/O APIC.
pub const ENTRY_IOAPIC: u8 = 1;

/// Type of the entry of an interrupt source override.
pub const ENTRY_OVERRIDE: u8 = 2;

/// Offset of the local APIC's identifier register.
pub const REG_APIC_ID: usize = 0x20;

/// Offset of the local APIC's end-of-interrupt register.
pub const REG_EOI: usize = 0xb0;

/// Offset of the local APIC's spurious interrupt register.
pub const REG_SPURIOUS: usize = 0xf0;

/// Offset of the local APIC's timer register.
pub const REG_LVT_TIMER: usize = 0x320;

/// Offset of the register with the timer's initial count.
pub const REG_INIT_TIMER: usize = 0x380;

/// Offset of the register with the timer's current count.
pub const REG_CURRENT_TIMER: usize = 0x390;

/// An I/O APIC as the table describes it.
#[derive(Clone, Copy, Debug, PartialEq, Eq, Structural)]
pub struct EntryIOAPIC {
    pub id: u8,
    pub address: u32,
    /// The first interrupt that the controller handles.
    pub gib: u32,
}

/// An interrupt source override as the table describes it.
#[derive(Clone, Copy, Debug, PartialEq, Eq, Structural)]
pub struct EntrySourceOverride {
    pub bus: u8,
    pub irq: u8,
    /// Global system interrupt.
    pub gsi: u32,
    pub flags: u16,
}

/// What the kernel takes from the table.
pub struct Madt {
    pub lapic_address: u32,
    pub flags: u32,
    pub ioapic: Option<EntryIOAPIC>,
    pub overrides: Vec<EntrySourceOverride>,
}

/// What was found in the table so far.
pub struct Found {
    pub ioapic: Option<EntryIOAPIC>,
    pub overrides: Seq<EntrySourceOverride>,
}

/// The I/O APIC that the entry at `at` in `s` describes.
pub open spec fn ioapic_at(s: Seq<u8>, at: int) -> EntryIOAPIC {
    EntryIOAPIC { id: s[at + 2], address: le_u32(s, at + 4) as u32, gib: le_u32(s, at + 8) as u32 }
}

/// The override that the entry at `at` in `s` describes.
pub open spec fn override_at(s: Seq<u8>, at: int) -> EntrySourceOverride {
    EntrySourceOverride {
        bus: s[at + 2],
        irq: s[at + 3],
        gsi: le_u32(s, at + 4) as u32,
        flags: le_u16(s, at + 8) as u16,
    }
}

/// What the entries of `s` from `at` to `end` add to `found`. Each entry
/// starts with its type and its length. An entry without length, one that
/// reaches beyond `end` or is too short for its type, and a second I/O APIC
/// are refused.
pub open spec fn scan(s: Seq<u8>, at: int, end: int, found: Found) -> Result<Found>
    decreases end - at,
{
    if at >= end {
        Ok(found)
    } else if at + 2 > end {
        Err(Error::InvalidArgument)
    } else {
        let kind = s[at];
        let length = s[at + 1] as int;
        if length < 2 || at + length > end {
            Err(Error::InvalidArgument)
        } else if kind == ENTRY_IOAPIC {
            if length < 12 {
                Err(Error::InvalidArgument)
            } else if found.ioapic is Some {
                Err(Error::NotImplemented)
            } else {
                scan(
                    s,
                    at + length,
                    end,
                    Found { ioapic: Some(ioapic_at(s, at)), overrides: found.overrides },
                )
            }
        } else if kind == ENTRY_OVERRIDE {
            if length < 10 {
                Err(Error::InvalidArgument)
            } else {
                scan(
                    s,
                    at + length,
                    end,
                    Found { ioapic: found.ioapic, overrides: found.overrides.push(override_at(s, at)) },
                )
            }
        } else {
            scan(s, at + length, end, found)
        }
    }
}

/// Where the entries of the table `s` end: where its header says, and no
/// further than `s` itself.
pub open spec fn table_end(s: Seq<u8>) -> int {
    let length = le_u32(s, 4);
    if length < s.len() {
        length
    } else {
        s.len() as int
    }
}

/// Reads the table of interrupt controllers: the address and the flags of
/// the local APIC, the I/O APIC, and the interrupt source overrides in
/// their order. Entries of other types are passed over.
pub fn parse_madt(table: &[u8]) -> (r: Result<Madt>)
    requires
        table@.len() >= ENTRIES_START,
    ensures
        match scan(
            table@,
            ENTRIES_START as int,
            table_end(table@),
            Found { ioapic: None, overrides: Seq::empty() },
        ) {
            Ok(found) => {
                &&& r is Ok
                &&& r->Ok_0.lapic_address == le_u32(table@, HEADER_SIZE as int)
                &&& r->Ok_0.flags == le_u32(table@, HEADER_SIZE + 4)
                &&& r->Ok_0.ioapic == found.ioapic
                &&& r->Ok_0.overrides@ == found.overrides
            },
            Err(e) => r is Err && r->Err_0 == e,
        },
{
    let total = table.len();
    let length = read_u32(table, 4) as usize;
    let end = if length < total { length } else { total };
    let lapic_address = read_u32(table, HEADER_SIZE);
    let flags = read_u32(table, HEADER_SIZE + 4);
    let mut ioapic: Option<EntryIOAPIC> = None;
    let mut overrides: Vec<EntrySourceOverride> = Vec::new();
    let mut at: usize = ENTRIES_START;
    let ghost start = Found { ioapic: None, overrides: Seq::empty() };
    while at < end
        invariant
            ENTRIES_START <= at,
            end <= total,
            total == table@.len(),
            end == table_end(table@),
            start == (Found { ioapic: None, overrides: Seq::empty() }),
            scan(table@, ENTRIES_START as int, end as int, start) == scan(
                table@,
                at as int,
                end as int,
                Found { ioapic, overrides: overrides@ },
            ),
        decreases end - at,
    {
        let ghost cur = Found { ioapic, overrides: overrides@ };
        if end - at < 2 {
            assert(scan(table@, at as int, end as int, cur) == Err::<Found, Error>(
                Error::InvalidArgument,
            ));
            return Err(Error::InvalidArgument);
        }
        let kind = table[at];
        let length = table[at + 1] as usize;
        if length < 2 || length > end - at {
            assert(scan(table@, at as int, end as int, cur) == Err::<Found, Error>(
                Error::InvalidArgument,
            ));
            return Err(Error::InvalidArgument);
        }
        if kind == ENTRY_IOAPIC {
            if length < 12 {
                assert(scan(table@, at as int, end as int, cur) == Err::<Found, Error>(
                    Error::InvalidArgument,
                ));
                return Err(Error::InvalidArgument);
            }
            if ioapic.is_some() {
                assert(scan(table@, at as int, end as int, cur) == Err::<Found, Error>(
                    Error::NotImplemented,
                ));
                return Err(Error::NotImplemented);
            }
            ioapic = Some(
                EntryIOAPIC {
                    id: table[at + 2],
                    address: read_u32(table, at + 4),
                    gib: read_u32(table, at + 8),
                },
            );
        } else if kind == ENTRY_OVERRIDE {
            if length < 10 {
                assert(scan(table@, at as int, end as int, cur) == Err::<Found, Error>(
                    Error::InvalidArgument,
                ));
                return Err(Error::InvalidArgument);
            }
            overrides.push(
                EntrySourceOverride {
                    bus: table[at + 2],
                    irq: table[at + 3],
                    gsi: read_u32(table, at + 4),
                    flags: read_u16(table, at + 8),
                },
            );
        }
        assert(scan(table@, at as int, end as int, cur) == scan(
            table@,
            at + length,
            end as int,
            Found { ioapic, overrides: overrides@ },
        ));
        at = at + length;
    }
    assert(scan(table@, at as int, end as int, Found { ioapic, overrides: overrides@ }) == Ok::<
        Found,
        Error,
    >(Found { ioapic, overrides: overrides@ }));
    Ok(Madt { lapic_address, flags, ioapic, overrides })
}

/// The base address of the local APIC's registers that the low half of the
/// APIC base register names.
pub fn lapic_base(msr_low: u32) -> (base: u32)
    ensures
        base == msr_low - msr_low % 0x1000,
{
    msr_low - msr_low % 0x1000
}

/// The value that enables the local APIC, given the value `current` of its
/// spurious interrupt register: the spurious vector is 255 and bit 8 is
/// set.
pub open spec fn enabled(current: u32) -> u32 {
    current | 0x1ff
}

/// The value to write to the spurious interrupt register to enable the
/// local APIC.
pub fn spurious_enable(current: u32) -> (v: u32)
    ensures
        v == enabled(current),
{
    current | 0x1ff
}

/// The number of timer ticks that passed while the counter ran down from
/// its largest value to `current`.
pub fn elapsed_ticks(current: u32) -> (ticks: u32)
    ensures
        ticks == u32::MAX - current,
{
    u32::MAX - current
}

/// Offset of the window through which the selected register of an I/O
/// APIC is read and written.
pub const IOAPIC_WINDOW: usize = 0x10;

/// Size of the registers of a local APIC and of an I/O APIC in memory.
pub const REGISTERS_SIZE: usize = 0x1000;

/// Number of the register of an I/O APIC with the low half of the entry
/// for interrupt 1.
pub const IOAPIC_IRQ1_LOW: u32 = 0x12;

/// Number of the register of an I/O APIC with the high half of the entry
/// for interrupt 1.
pub const IOAPIC_IRQ1_HIGH: u32 = 0x13;

/// Interrupt vector of the keyboard.
pub const KEYBOARD_VECTOR: u32 = 42;

/// The accesses that read `value` from register `reg` of the I/O APIC
/// whose registers lie at `io`.
pub open spec fn ioapic_read_ops(io: usize, reg: u32, value: u32) -> Seq<PortOp> {
    seq![PortOp::Store(io, reg), PortOp::Load((io + IOAPIC_WINDOW) as usize, value)]
}

/// The accesses that write `value` to register `reg` of the I/O APIC whose
/// registers lie at `io`.
pub open spec fn ioapic_write_ops(io: usize, reg: u32, value: u32) -> Seq<PortOp> {
    seq![PortOp::Store(io, reg), PortOp::Store((io + IOAPIC_WINDOW) as usize, value)]
}

/// Reads register `reg` of the I/O APIC whose registers lie at `io`.
pub fn ioapic_read_reg<B: RegisterBus>(bus: &mut B, io: usize, reg: u32) -> (value: u32)
    requires
        io <= usize::MAX - REGISTERS_SIZE,
    ensures
        final(bus).trace() == old(bus).trace() + ioapic_read_ops(io, reg, value),
{
    bus.store(io, reg);
    let value = bus.load(io + IOAPIC_WINDOW);
    assert(bus.trace() =~= old(bus).trace() + ioapic_read_ops(io, reg, value));
    value
}

/// Writes `value` to register `reg` of the I/O APIC whose registers lie at
/// `io`.
pub fn ioapic_write_reg<B: RegisterBus>(bus: &mut B, io: usize, reg: u32, value: u32)
    requires
        io <= usize::MAX - REGISTERS_SIZE,
    ensures
        final(bus).trace() == old(bus).trace() + ioapic_write_ops(io, reg, value),
{
    bus.store(io, reg);
    bus.store(io + IOAPIC_WINDOW, value);
    assert(bus.trace() =~= old(bus).trace() + ioapic_write_ops(io, reg, value));
}

/// Reads register `offset` of the local APIC whose registers lie at
/// `lapic`.
pub fn lapic_read_reg<B: RegisterBus>(bus: &mut B, lapic: usize, offset: usize) -> (value: u32)
    requires
        lapic <= usize::MAX - REGISTERS_SIZE,
        offset < REGISTERS_SIZE,
    ensures
        final(bus).trace() == old(bus).trace().push(PortOp::Load((lapic + offset) as usize, value)),
{
    bus.load(lapic + offset)
}

/// Writes `value` to register `offset` of the local APIC whose registers
/// lie at `lapic`.
pub fn lapic_write_reg<B: RegisterBus>(bus: &mut B, lapic: usize, offset: usize, value: u32)
    requires
        lapic <= usize::MAX - REGISTERS_SIZE,
        offset < REGISTERS_SIZE,
    ensures
        final(bus).trace() == old(bus).trace().push(PortOp::Store((lapic + offset) as usize, value)),
{
    bus.store(lapic + offset, value);
}

/// Tells the local APIC whose registers lie at `lapic` that the interrupt
/// was handled.
pub fn end_of_interrupt<B: RegisterBus>(bus: &mut B, lapic: usize)
    requires
        lapic <= usize::MAX - REGISTERS_SIZE,
    ensures
        final(bus).trace() == old(bus).trace().push(PortOp::Store((lapic + REG_EOI) as usize, 0)),
{
    lapic_write_reg(bus, lapic, REG_EOI, 0);
}

/// The accesses that route interrupt 1 of the I/O APIC at `io` to the
/// keyboard's vector: the entry of the interrupt is read, which gives `low`
/// and `high`, then the identifier of the local APIC at `lapic`, which
/// gives `id`, and the vector is written to the low half of the entry.
pub open spec fn route_ops(io: usize, lapic: usize, low: u32, high: u32, id: u32) -> Seq<PortOp> {
    ioapic_read_ops(io, IOAPIC_IRQ1_LOW, low) + ioapic_read_ops(io, IOAPIC_IRQ1_HIGH, high)
        + seq![PortOp::Load((lapic + REG_APIC_ID) as usize, id)] + ioapic_write_ops(
        io,
        IOAPIC_IRQ1_LOW,
        KEYBOARD_VECTOR,
    )
}

/// Routes interrupt 1 of the I/O APIC whose registers lie at `io` to the
/// keyboard's vector.
pub fn enable_ioapic_interrupts<B: RegisterBus>(bus: &mut B, io: usize, lapic: usize)
    requires
        io <= usize::MAX - REGISTERS_SIZE,
        lapic <= usize::MAX - REGISTERS_SIZE,
    ensures
        ({
            let k = old(bus).trace().len() as int;
            let t = final(bus).trace();
            t == old(bus).trace() + route_ops(
                io,
                lapic,
                load_value(t[k + 1]),
                load_value(t[k + 3]),
                load_value(t[k + 4]),
            )
        }),
{
    let low = ioapic_read_reg(bus, io, IOAPIC_IRQ1_LOW);
    let high = ioapic_read_reg(bus, io, IOAPIC_IRQ1_HIGH);
    let id = lapic_read_reg(bus, lapic, REG_APIC_ID);
    ioapic_write_reg(bus, io, IOAPIC_IRQ1_LOW, KEYBOARD_VECTOR);
    assert(bus.trace() =~= old(bus).trace() + route_ops(io, lapic, low, high, id));
}

/// Value of the timer register that masks the timer and names vector 0x43.
pub const TIMER_OFF: u32 = 0x43;

/// The accesses that enable the local APIC whose registers lie at `lapic`,
/// where its spurious interrupt register held `current`: the spurious
/// vector is set and the APIC switched on, and the timer gets its vector.
pub open spec fn lapic_enable_ops(lapic: usize, current: u32) -> Seq<PortOp> {
    seq![
        PortOp::Load((lapic + REG_SPURIOUS) as usize, current),
        PortOp::Store((lapic + REG_SPURIOUS) as usize, enabled(current)),
        PortOp::Store((lapic + REG_LVT_TIMER) as usize, TIMER_OFF),
    ]
}

/// Enables the local APIC whose registers lie at `lapic`.
pub fn enable_lapic<B: RegisterBus>(bus: &mut B, lapic: usize)
    requires
        lapic <= usize::MAX - REGISTERS_SIZE,
    ensures
        final(bus).trace() == old(bus).trace() + lapic_enable_ops(
            lapic,
            load_value(final(bus).trace()[old(bus).trace().len() as int]),
        ),
{
    let current = lapic_read_reg(bus, lapic, REG_SPURIOUS);
    lapic_write_reg(bus, lapic, REG_SPURIOUS, spurious_enable(current));
    lapic_write_reg(bus, lapic, REG_LVT_TIMER, TIMER_OFF);
    assert(bus.trace() =~= old(bus).trace() + lapic_enable_ops(lapic, current));
}

} // verus!
