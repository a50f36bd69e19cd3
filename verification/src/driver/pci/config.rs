//! The configuration space of a plain PCI function.
//!
//! Every field is read with its own access to the register that holds it,
//! so what a device answers may differ from one read to the next.

use vstd::prelude::*;
use crate::arch::x86::io::{PortBus, PortOp, PCICONFIG_ADDRESS, PCICONFIG_DATA};
use crate::arch::x86::pci::{in32_value, select_read, select_write};

verus! {

/// A base address register, which names either I/O ports or memory.
#[derive(Clone, Copy, Debug, PartialEq, Eq, Structural)]
pub enum BarType {
    /// First port, a multiple of four.
    IO(u32),
    /// First address, a multiple of eight.
    MMIO(u32),
}

/// The command register of a function.
#[derive(Clone, Copy, Debug, PartialEq, Eq, Structural)]
pub struct PCICommand {
    pub base: u32,
    pub value: u16,
}

/// A capability of a function.
#[derive(Clone, Copy, Debug, PartialEq, Eq, Structural)]
pub struct Caps {
    pub base: u32,
}

/// The configuration space of a plain function.
#[derive(Clone, Copy, Debug, PartialEq, Eq, Structural)]
pub struct PCIEndpointConfig {
    /// What to write to the address port to reach the function's register 0.
    pub base: u32,
    pub vendor: u16,
    pub dev_id: u16,
    pub command: PCICommand,
    pub rev_id: u8,
    pub progif: u8,
    pub class: u16,
    pub cache_line_size: u8,
    pub latency_timer: u8,
    pub header_type: u8,
    pub cardbus: u32,
    pub sub_vendor: u16,
    pub sub_system: u16,
    pub rom_base: u32,
    pub caps: Option<Caps>,
    pub int_line: u8,
    pub int_pin: u8,
    pub min_grant: u8,
    pub max_latency: u8,
}

/// Offset of the register that holds the byte at `offset`.
pub open spec fn register_of(offset: u32) -> u32 {
    (offset - offset % 4) as u32
}

/// What is left of the register value `raw` from the byte at `offset` on.
pub open spec fn field_of(raw: u32, offset: u32) -> u32 {
    if offset % 4 == 0 {
        raw
    } else if offset % 4 == 1 {
        raw / 0x100
    } else if offset % 4 == 2 {
        raw / 0x1_0000
    } else {
        raw / 0x100_0000
    }
}

/// Reads register `offset`, a multiple of four, of the function that `base`
/// selects.
pub fn read_reg<B: PortBus>(bus: &mut B, base: u32, offset: u32) -> (value: u32)
    requires
        offset % 4 == 0,
    ensures
        final(bus).trace() == old(bus).trace() + select_read(base | offset, value),
{
    bus.outl(PCICONFIG_ADDRESS, base | offset);
    let value = bus.inl(PCICONFIG_DATA);
    assert(bus.trace() =~= old(bus).trace() + select_read(base | offset, value));
    value
}

/// Writes register `offset`, a multiple of four, of the function that
/// `base` selects.
pub fn write_reg<B: PortBus>(bus: &mut B, base: u32, offset: u32, data: u32)
    requires
        offset % 4 == 0,
    ensures
        final(bus).trace() == old(bus).trace() + select_write(base | offset, data),
{
    bus.outl(PCICONFIG_ADDRESS, base | offset);
    bus.outl(PCICONFIG_DATA, data);
    assert(bus.trace() =~= old(bus).trace() + select_write(base | offset, data));
}

/// Reads the register that holds the byte at `offset` and gives what is
/// left of it from that byte on.
pub fn read_field<B: PortBus>(bus: &mut B, base: u32, offset: u32) -> (value: u32)
    ensures
        ({
            let raw = in32_value(final(bus).trace().last());
            &&& final(bus).trace() == old(bus).trace() + select_read(base | register_of(offset), raw)
            &&& value == field_of(raw, offset)
        }),
{
    let shift = offset % 4;
    let raw = read_reg(bus, base, offset - shift);
    if shift == 0 {
        raw
    } else if shift == 1 {
        raw / 0x100
    } else if shift == 2 {
        raw / 0x1_0000
    } else {
        raw / 0x100_0000
    }
}

impl PCICommand {
    /// Reads the command register.
    pub fn get<B: PortBus>(&self, bus: &mut B) -> (value: u16)
        ensures
            ({
                let raw = in32_value(final(bus).trace().last());
                &&& final(bus).trace() == old(bus).trace() + select_read(self.base | 0x4, raw)
                &&& value == raw % 0x1_0000
            }),
    {
        (read_reg(bus, self.base, 0x4) % 0x1_0000) as u16
    }

    /// Sets the bits of `flag` in the command register.
    pub fn setf<B: PortBus>(&mut self, bus: &mut B, flag: u32)
        ensures
            *final(self) == *old(self),
            ({
                let raw = in32_value(final(bus).trace()[old(bus).trace().len() as int + 1]);
                final(bus).trace() == old(bus).trace() + select_read(old(self).base | 0x4, raw)
                    + select_write(old(self).base | 0x4, raw | flag)
            }),
    {
        let raw = read_reg(bus, self.base, 0x4);
        write_reg(bus, self.base, 0x4, raw | flag);
        assert(bus.trace() =~= old(bus).trace() + select_read(self.base | 0x4, raw) + select_write(
            self.base | 0x4,
            raw | flag,
        ));
    }

    /// Clears the bits of `flag` in the command register.
    pub fn unsetf<B: PortBus>(&mut self, bus: &mut B, flag: u32)
        ensures
            *final(self) == *old(self),
            ({
                let raw = in32_value(final(bus).trace()[old(bus).trace().len() as int + 1]);
                final(bus).trace() == old(bus).trace() + select_read(old(self).base | 0x4, raw)
                    + select_write(old(self).base | 0x4, raw & !flag)
            }),
    {
        let raw = read_reg(bus, self.base, 0x4);
        write_reg(bus, self.base, 0x4, raw & !flag);
        assert(bus.trace() =~= old(bus).trace() + select_read(self.base | 0x4, raw) + select_write(
            self.base | 0x4,
            raw & !flag,
        ));
    }
}

impl Caps {
    /// Reads the capability's identifier.
    pub fn id<B: PortBus>(&self, bus: &mut B) -> (id: u8)
        ensures
            ({
                let raw = in32_value(final(bus).trace().last());
                &&& final(bus).trace() == old(bus).trace() + select_read(self.base | 0x0, raw)
                &&& id == raw % 0x100
            }),
    {
        (read_field(bus, self.base, 0x0) % 0x100) as u8
    }

    /// Steps to the next capability of the list, if this is not its end.
    pub fn next<B: PortBus>(&mut self, bus: &mut B) -> (r: Option<Caps>)
        ensures
            old(self).base == 0 ==> r is None && *final(self) == *old(self) && final(bus).trace()
                == old(bus).trace(),
            old(self).base != 0 ==> ({
                let raw = in32_value(final(bus).trace().last());
                &&& final(bus).trace() == old(bus).trace() + select_read(
                    old(self).base | 0x0,
                    raw,
                )
                &&& final(self).base == (raw / 0x100) % 0x100
                &&& r == Some(*final(self))
            }),
    {
        if self.base == 0 {
            return None;
        }
        self.base = read_field(bus, self.base, 0x1) % 0x100;
        Some(*self)
    }
}

/// Offsets of the fields of the configuration space in the order in which
/// they are read.
pub open spec fn field_offsets() -> Seq<u32> {
    seq![
        0x0, 0x2, 0x4, 0x8, 0x9, 0xA, 0xC, 0xD, 0xE, 0x28, 0x2C, 0x2E, 0x30, 0x3C, 0x3D, 0x3E, 0x3F,
    ]
}

/// The accesses that read the fields at the first `n` of `offsets`, with
/// the register values `raws` that came back.
pub open spec fn field_reads(base: u32, offsets: Seq<u32>, raws: Seq<u32>, n: int) -> Seq<PortOp>
    decreases n,
{
    if n <= 0 {
        Seq::empty()
    } else {
        field_reads(base, offsets, raws, n - 1) + select_read(
            base | register_of(offsets[n - 1]),
            raws[n - 1],
        )
    }
}

/// Reads the registers that hold the fields at `offsets`, one access per
/// field, and gives the register values.
fn read_fields<B: PortBus>(bus: &mut B, base: u32, offsets: &[u32]) -> (raws: Vec<u32>)
    ensures
        raws@.len() == offsets@.len(),
        final(bus).trace() == old(bus).trace() + field_reads(
            base,
            offsets@,
            raws@,
            offsets@.len() as int,
        ),
        forall|i: int|
            0 <= i < raws@.len() ==> #[trigger] raws@[i] == in32_value(
                final(bus).trace()[old(bus).trace().len() as int + 2 * i + 1],
            ),
{
    let mut raws: Vec<u32> = Vec::new();
    let n = offsets.len();
    let mut i: usize = 0;
    assert(bus.trace() =~= old(bus).trace() + field_reads(base, offsets@, raws@, 0));
    while i < n
        invariant
            i <= n,
            n == offsets@.len(),
            raws@.len() == i,
            bus.trace() == old(bus).trace() + field_reads(base, offsets@, raws@, i as int),
            bus.trace().len() == old(bus).trace().len() + 2 * i,
            forall|k: int|
                0 <= k < i ==> #[trigger] raws@[k] == in32_value(
                    bus.trace()[old(bus).trace().len() as int + 2 * k + 1],
                ),
        decreases n - i,
    {
        let offset = offsets[i];
        let ghost before = bus.trace();
        let ghost raws_before = raws@;
        let raw = read_reg(bus, base, offset - offset % 4);
        raws.push(raw);
        proof {
            lemma_field_reads_stable(base, offsets@, raws_before, raws@, i as int);
            assert(bus.trace() =~= old(bus).trace() + field_reads(base, offsets@, raws@, i + 1));
        }
        i = i + 1;
    }
    raws
}

/// The accesses for the first `n` fields depend on the first `n` register
/// values only.
proof fn lemma_field_reads_stable(base: u32, offsets: Seq<u32>, a: Seq<u32>, b: Seq<u32>, n: int)
    requires
        n <= a.len() <= b.len(),
        forall|i: int| 0 <= i < a.len() ==> a[i] == b[i],
    ensures
        field_reads(base, offsets, a, n) == field_reads(base, offsets, b, n),
    decreases n,
{
    if n > 0 {
        lemma_field_reads_stable(base, offsets, a, b, n - 1);
    }
}

/// The configuration that the register values `raws`, read for the fields
/// at `field_offsets()`, hold.
pub open spec fn config_of(base: u32, caps: Caps, raws: Seq<u32>) -> PCIEndpointConfig {
    PCIEndpointConfig {
        base,
        vendor: (field_of(raws[0], 0x0) % 0x1_0000) as u16,
        dev_id: (field_of(raws[1], 0x2) % 0x1_0000) as u16,
        command: PCICommand { base, value: (field_of(raws[2], 0x4) % 0x1_0000) as u16 },
        rev_id: (field_of(raws[3], 0x8) % 0x100) as u8,
        progif: (field_of(raws[4], 0x9) % 0x100) as u8,
        class: (field_of(raws[5], 0xA) % 0x1_0000) as u16,
        cache_line_size: (field_of(raws[6], 0xC) % 0x100) as u8,
        latency_timer: (field_of(raws[7], 0xD) % 0x100) as u8,
        header_type: (field_of(raws[8], 0xE) % 0x100) as u8,
        cardbus: field_of(raws[9], 0x28),
        sub_vendor: (field_of(raws[10], 0x2C) % 0x1_0000) as u16,
        sub_system: (field_of(raws[11], 0x2E) % 0x1_0000) as u16,
        rom_base: field_of(raws[12], 0x30),
        caps: Some(caps),
        int_line: (field_of(raws[13], 0x3C) % 0x100) as u8,
        int_pin: (field_of(raws[14], 0x3D) % 0x100) as u8,
        min_grant: (field_of(raws[15], 0x3E) % 0x100) as u8,
        max_latency: (field_of(raws[16], 0x3F) % 0x100) as u8,
    }
}

/// Whether a status register says that the function has a list of
/// capabilities.
pub open spec fn has_caps(status: u32) -> bool {
    (status / 0x20) % 2 == 1
}

/// The accesses that precede the reading of the fields: the status is
/// read, from register value `raw`, and if it says that there are
/// capabilities, the pointer to the first, from register value `pointer`.
pub open spec fn caps_reads(base: u32, raw: u32, pointer: u32) -> Seq<PortOp> {
    if has_caps(field_of(raw, 0x6)) {
        select_read(base | 0x4, raw) + select_read(base | 0x34, pointer)
    } else {
        select_read(base | 0x4, raw)
    }
}

/// The first capability that the register values say there is; its base is
/// 0 if there is none.
pub open spec fn caps_of(raw: u32, pointer: u32) -> Caps {
    if has_caps(field_of(raw, 0x6)) {
        Caps { base: pointer % 0x100 }
    } else {
        Caps { base: 0 }
    }
}

impl PCIEndpointConfig {
    /// Reads the capability list's start of the function that `base`
    /// selects.
    fn read_caps<B: PortBus>(bus: &mut B, base: u32) -> (caps: Caps)
        ensures
            ({
                let t = final(bus).trace();
                let n = old(bus).trace().len() as int;
                let raw = in32_value(t[n + 1]);
                let pointer = in32_value(t[n + 3]);
                &&& t == old(bus).trace() + caps_reads(base, raw, pointer)
                &&& caps == caps_of(raw, pointer)
            }),
    {
        let raw = read_reg(bus, base, 0x4);
        let status = raw / 0x1_0000;
        if (status / 0x20) % 2 == 1 {
            let pointer = read_reg(bus, base, 0x34);
            assert(bus.trace() =~= old(bus).trace() + caps_reads(base, raw, pointer));
            Caps { base: pointer % 0x100 }
        } else {
            assert(bus.trace() =~= old(bus).trace() + caps_reads(base, raw, 0));
            Caps { base: 0 }
        }
    }

    /// Reads the configuration of the function that `base` selects: first
    /// where its capabilities start, then field by field.
    pub fn from_io_space<B: PortBus>(bus: &mut B, base: u32) -> (conf: Self)
        requires
            base % 0x100 == 0,
        ensures
            ({
                let t = final(bus).trace();
                let n = old(bus).trace().len() as int;
                let raw = in32_value(t[n + 1]);
                let pointer = in32_value(t[n + 3]);
                let m = n + caps_reads(base, raw, pointer).len();
                let raws = Seq::new(17, |i: int| in32_value(t[m + 2 * i + 1]));
                &&& t == old(bus).trace() + caps_reads(base, raw, pointer) + field_reads(
                    base,
                    field_offsets(),
                    raws,
                    17,
                )
                &&& conf == config_of(base, caps_of(raw, pointer), raws)
            }),
    {
        let caps = Self::read_caps(bus, base);
        let ghost mid = bus.trace();
        let offsets: [u32; 17] = [
            0x0, 0x2, 0x4, 0x8, 0x9, 0xA, 0xC, 0xD, 0xE, 0x28, 0x2C, 0x2E, 0x30, 0x3C, 0x3D, 0x3E,
            0x3F,
        ];
        assert(offsets@ =~= field_offsets());
        let raws = read_fields(bus, base, offsets.as_slice());
        proof {
            let t = bus.trace();
            let n = old(bus).trace().len() as int;
            let raw = in32_value(t[n + 1]);
            let pointer = in32_value(t[n + 3]);
            assert(in32_value(mid[n + 1]) == raw);
            if has_caps(field_of(raw, 0x6)) {
                assert(in32_value(mid[n + 3]) == pointer);
            }
            let m = n + caps_reads(base, raw, pointer).len();
            assert(mid.len() == m);
            let spec_raws = Seq::new(17, |i: int| in32_value(t[m + 2 * i + 1]));
            assert(spec_raws =~= raws@);
        }
        PCIEndpointConfig {
            base,
            vendor: (raws[0] % 0x1_0000) as u16,
            dev_id: ((raws[1] / 0x1_0000) % 0x1_0000) as u16,
            command: PCICommand { base, value: (raws[2] % 0x1_0000) as u16 },
            rev_id: (raws[3] % 0x100) as u8,
            progif: ((raws[4] / 0x100) % 0x100) as u8,
            class: ((raws[5] / 0x1_0000) % 0x1_0000) as u16,
            cache_line_size: (raws[6] % 0x100) as u8,
            latency_timer: ((raws[7] / 0x100) % 0x100) as u8,
            header_type: ((raws[8] / 0x1_0000) % 0x100) as u8,
            cardbus: raws[9],
            sub_vendor: (raws[10] % 0x1_0000) as u16,
            sub_system: ((raws[11] / 0x1_0000) % 0x1_0000) as u16,
            rom_base: raws[12],
            caps: Some(caps),
            int_line: (raws[13] % 0x100) as u8,
            int_pin: ((raws[14] / 0x100) % 0x100) as u8,
            min_grant: ((raws[15] / 0x1_0000) % 0x100) as u8,
            max_latency: ((raws[16] / 0x100_0000) % 0x100) as u8,
        }
    }

    /// Looks at the first capability of the function, as setting up
    /// message signalled interrupts starts: gives where it lies and which
    /// it is. Interrupts are not set up.
    pub fn setup_msi<B: PortBus>(&self, bus: &mut B) -> (r: Option<(u32, u8)>)
        ensures
            self.caps is None ==> r is None && final(bus).trace() == old(bus).trace(),
            self.caps is Some ==> ({
                let raw = in32_value(final(bus).trace().last());
                &&& final(bus).trace() == old(bus).trace() + select_read(
                    self.caps->Some_0.base | 0x0,
                    raw,
                )
                &&& r == Some((self.caps->Some_0.base, (raw % 0x100) as u8))
            }),
    {
        match self.caps {
            None => None,
            Some(c) => {
                let id = c.id(bus);
                Some((c.base, id))
            },
        }
    }

    /// Reads the status register.
    pub fn status<B: PortBus>(&self, bus: &mut B) -> (status: u16)
        ensures
            ({
                let raw = in32_value(final(bus).trace().last());
                &&& final(bus).trace() == old(bus).trace() + select_read(self.base | 0x4, raw)
                &&& status == raw / 0x1_0000
            }),
    {
        (read_field(bus, self.base, 0x6) % 0x1_0000) as u16
    }

    /// What base address register `i`, of which a function has six, names.
    pub fn get_bar<B: PortBus>(&self, bus: &mut B, i: u32) -> (bar: BarType)
        requires
            i < 6,
        ensures
            ({
                let raw = in32_value(final(bus).trace().last());
                &&& final(bus).trace() == old(bus).trace() + select_read(
                    self.base | (0x10 + i * 4) as u32,
                    raw,
                )
                &&& bar == bar_of(raw)
            }),
    {
        let val = read_reg(bus, self.base, 0x10 + i * 4);
        if val % 2 == 1 {
            BarType::IO(val - val % 4)
        } else {
            BarType::MMIO(val - val % 8)
        }
    }

    /// Reads base address register `i`, of which a function has six.
    pub fn get_bar_raw<B: PortBus>(&self, bus: &mut B, i: u32) -> (value: u32)
        requires
            i < 6,
        ensures
            final(bus).trace() == old(bus).trace() + select_read(
                self.base | (0x10 + i * 4) as u32,
                value,
            ),
    {
        read_reg(bus, self.base, 0x10 + i * 4)
    }
}

/// What a base address register with value `raw` names: I/O ports if its
/// lowest bit is set, memory if not, with the flag bits cleared.
pub open spec fn bar_of(raw: u32) -> BarType {
    if raw % 2 == 1 {
        BarType::IO((raw - raw % 4) as u32)
    } else {
        BarType::MMIO((raw - raw % 8) as u32)
    }
}

} // verus!
