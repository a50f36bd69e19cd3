//! PCI configuration space, reached through the two configuration ports.

use vstd::prelude::*;
use crate::arch::x86::io::{PortBus, PortOp, PCICONFIG_ADDRESS, PCICONFIG_DATA};
use crate::error::Error;

verus! {

/// The first sixteen bytes of a function's configuration space.
#[derive(Clone, Copy, Debug, PartialEq, Eq, Structural)]
pub struct PCIHeader {
    pub vendor: u16,
    pub id: u16,
    pub command: u16,
    pub status: u16,
    pub revid: u8,
    pub progif: u8,
    /// Class in the high byte, subclass in the low byte.
    pub class: u16,
    pub cache_line_size: u8,
    pub latency_timer: u8,
    pub header_type: u8,
    pub bist: u8,
}

/// The kinds of device that the kernel knows.
#[derive(Clone, Copy, Debug, PartialEq, Eq, Structural)]
pub enum PCIType {
    Unclassified,
    IDE,
    ATA,
    SATA,
}

/// One function of a device on a PCI bus.
#[derive(Clone, Copy, Debug, PartialEq, Eq, Structural)]
pub struct PCIDevice {
    pub header: PCIHeader,
    pub bus_num: u8,
    pub dev_num: u8,
    pub fn_num: u8,
    /// What to write to the address port to reach the function's register 0.
    pub address: u32,
    pub kind: PCIType,
}

/// The value for the address port that selects register `reg_off` of
/// function `fn_num` of device `dev_num` on bus `bus_num`.
pub open spec fn config_address(bus_num: u8, dev_num: u8, fn_num: u8, reg_off: u8) -> int {
    0x8000_0000 + bus_num * 0x1_0000 + dev_num * 0x800 + fn_num * 0x100 + reg_off
}

/// The value for the address port that selects a register of a function. A
/// bus has 32 devices of 8 functions each, and registers are addressed in
/// units of four bytes.
pub fn build_address(bus_num: u8, dev_num: u8, fn_num: u8, reg_off: u8) -> (address: u32)
    requires
        dev_num < 32,
        fn_num < 8,
        reg_off % 4 == 0,
    ensures
        address == config_address(bus_num, dev_num, fn_num, reg_off),
{
    0x8000_0000 + bus_num as u32 * 0x1_0000 + dev_num as u32 * 0x800 + fn_num as u32 * 0x100
        + reg_off as u32
}

/// The value that the access `op` read, if it read a double word.
pub open spec fn in32_value(op: PortOp) -> u32 {
    match op {
        PortOp::In32(_, v) => v,
        _ => 0,
    }
}

/// The accesses that select a register with `address` and read `value` from
/// it.
pub open spec fn select_read(address: u32, value: u32) -> Seq<PortOp> {
    seq![PortOp::Out32(PCICONFIG_ADDRESS, address), PortOp::In32(PCICONFIG_DATA, value)]
}

/// The accesses that select a register with `address` and write `value` to
/// it.
pub open spec fn select_write(address: u32, value: u32) -> Seq<PortOp> {
    seq![PortOp::Out32(PCICONFIG_ADDRESS, address), PortOp::Out32(PCICONFIG_DATA, value)]
}

/// Whether a function is there: one that is not answers a read of its
/// register 0 with all bits set.
pub fn device_exist<B: PortBus>(bus: &mut B, bus_num: u8, dev_num: u8, fn_num: u8) -> (r: bool)
    requires
        dev_num < 32,
        fn_num < 8,
    ensures
        final(bus).trace() == old(bus).trace() + select_read(
            config_address(bus_num, dev_num, fn_num, 0) as u32,
            in32_value(final(bus).trace().last()),
        ),
        r == (in32_value(final(bus).trace().last()) != 0xffff_ffff),
{
    bus.outl(PCICONFIG_ADDRESS, build_address(bus_num, dev_num, fn_num, 0));
    let idvendor = bus.inl(PCICONFIG_DATA);
    assert(bus.trace() =~= old(bus).trace() + select_read(
        config_address(bus_num, dev_num, fn_num, 0) as u32,
        idvendor,
    ));
    idvendor != 0xffff_ffff
}

/// Reads register `reg_off` of the function that `device_base` selects.
pub fn read_reg<B: PortBus>(bus: &mut B, device_base: u32, reg_off: u8) -> (value: u32)
    ensures
        final(bus).trace() == old(bus).trace() + select_read(device_base | reg_off as u32, value),
{
    bus.outl(PCICONFIG_ADDRESS, device_base | reg_off as u32);
    let value = bus.inl(PCICONFIG_DATA);
    assert(bus.trace() =~= old(bus).trace() + select_read(device_base | reg_off as u32, value));
    value
}

/// Writes `data` to register `reg_off` of the function that `device_base`
/// selects.
pub fn write_reg<B: PortBus>(bus: &mut B, device_base: u32, reg_off: u8, data: u32)
    ensures
        final(bus).trace() == old(bus).trace() + select_write(device_base | reg_off as u32, data),
{
    bus.outl(PCICONFIG_ADDRESS, device_base | reg_off as u32);
    bus.outl(PCICONFIG_DATA, data);
    assert(bus.trace() =~= old(bus).trace() + select_write(device_base | reg_off as u32, data));
}

/// The header that the first four registers of a function hold.
pub open spec fn header_of(r0: u32, r1: u32, r2: u32, r3: u32) -> PCIHeader {
    PCIHeader {
        vendor: (r0 % 0x1_0000) as u16,
        id: (r0 / 0x1_0000) as u16,
        command: (r1 % 0x1_0000) as u16,
        status: (r1 / 0x1_0000) as u16,
        revid: (r2 % 0x100) as u8,
        progif: ((r2 / 0x100) % 0x100) as u8,
        class: (r2 / 0x1_0000) as u16,
        cache_line_size: (r3 % 0x100) as u8,
        latency_timer: ((r3 / 0x100) % 0x100) as u8,
        header_type: ((r3 / 0x1_0000) % 0x100) as u8,
        bist: (r3 / 0x100_0000) as u8,
    }
}

/// The accesses that read the first four registers of the function that
/// `base` selects, with the values that came back.
pub open spec fn header_reads(base: u32, r0: u32, r1: u32, r2: u32, r3: u32) -> Seq<PortOp> {
    select_read(base | 0x0, r0) + select_read(base | 0x4, r1) + select_read(base | 0x8, r2)
        + select_read(base | 0xC, r3)
}

/// Reads the header of the function that `device_base` selects.
pub fn read_header<B: PortBus>(bus: &mut B, device_base: u32) -> (header: PCIHeader)
    ensures
        ({
            let t = final(bus).trace();
            let n = old(bus).trace().len() as int;
            let r0 = in32_value(t[n + 1]);
            let r1 = in32_value(t[n + 3]);
            let r2 = in32_value(t[n + 5]);
            let r3 = in32_value(t[n + 7]);
            &&& t == old(bus).trace() + header_reads(device_base, r0, r1, r2, r3)
            &&& header == header_of(r0, r1, r2, r3)
        }),
{
    let r0 = read_reg(bus, device_base, 0x0);
    let r1 = read_reg(bus, device_base, 0x4);
    let r2 = read_reg(bus, device_base, 0x8);
    let r3 = read_reg(bus, device_base, 0xC);
    assert(bus.trace() =~= old(bus).trace() + header_reads(device_base, r0, r1, r2, r3));
    PCIHeader {
        vendor: (r0 % 0x1_0000) as u16,
        id: (r0 / 0x1_0000) as u16,
        command: (r1 % 0x1_0000) as u16,
        status: (r1 / 0x1_0000) as u16,
        revid: (r2 % 0x100) as u8,
        progif: ((r2 / 0x100) % 0x100) as u8,
        class: (r2 / 0x1_0000) as u16,
        cache_line_size: (r3 % 0x100) as u8,
        latency_timer: ((r3 / 0x100) % 0x100) as u8,
        header_type: ((r3 / 0x1_0000) % 0x100) as u8,
        bist: (r3 / 0x100_0000) as u8,
    }
}

/// The kind of device that a class code stands for.
pub open spec fn kind_of(class: u16) -> PCIType {
    if class == 0x101 {
        PCIType::IDE
    } else if class == 0x105 {
        PCIType::ATA
    } else if class == 0x106 {
        PCIType::SATA
    } else {
        PCIType::Unclassified
    }
}

/// Classifies `dev` by its header. Only plain devices are known: a header
/// of another layout, such as a bridge's, is refused and leaves `dev` as it
/// is.
pub fn investigate_device(dev: &mut PCIDevice) -> (r: Result<(), Error>)
    ensures
        old(dev).header.header_type % 4 != 0 ==> r == Err::<(), Error>(Error::NotImplemented)
            && *final(dev) == *old(dev),
        old(dev).header.header_type % 4 == 0 ==> r is Ok && *final(dev) == (PCIDevice {
            kind: kind_of(old(dev).header.class),
            ..*old(dev)
        }),
{
    if dev.header.header_type % 4 != 0 {
        return Err(Error::NotImplemented);
    }
    let class = dev.header.class;
    if class == 0x101 {
        dev.kind = PCIType::IDE;
    } else if class == 0x105 {
        dev.kind = PCIType::ATA;
    } else if class == 0x106 {
        dev.kind = PCIType::SATA;
    } else {
        dev.kind = PCIType::Unclassified;
    }
    Ok(())
}

/// The accesses that set the bus master bit in the command register of the
/// function that `base` selects and read the register back.
pub open spec fn busmaster_ops(base: u32, before: u32, after: u32) -> Seq<PortOp> {
    select_read(base | 0x4, before) + select_write(base | 0x4, before | 0x4) + select_read(
        base | 0x4,
        after,
    )
}

impl PCIDevice {
    /// The function `fn_num` of device `dev_num` on bus `bus_num`, not yet
    /// classified, with an empty header.
    pub fn new(bus_num: u8, dev_num: u8, fn_num: u8) -> (d: Self)
        requires
            dev_num < 32,
            fn_num < 8,
        ensures
            d.bus_num == bus_num,
            d.dev_num == dev_num,
            d.fn_num == fn_num,
            d.address == config_address(bus_num, dev_num, fn_num, 0),
            d.kind == PCIType::Unclassified,
            d.header == header_of(0, 0, 0, 0),
    {
        PCIDevice {
            header: PCIHeader {
                vendor: 0,
                id: 0,
                command: 0,
                status: 0,
                revid: 0,
                progif: 0,
                class: 0,
                cache_line_size: 0,
                latency_timer: 0,
                header_type: 0,
                bist: 0,
            },
            bus_num,
            dev_num,
            fn_num,
            address: build_address(bus_num, dev_num, fn_num, 0),
            kind: PCIType::Unclassified,
        }
    }

    /// Reads base address register `index`, of which a function has six.
    pub fn get_bar<B: PortBus>(&self, bus: &mut B, index: u8) -> (value: u32)
        requires
            index < 6,
        ensures
            final(bus).trace() == old(bus).trace() + select_read(
                self.address | (0x10 + index * 4) as u32,
                value,
            ),
    {
        read_reg(bus, self.address, 0x10 + index * 4)
    }

    /// Writes base address register `index`, of which a function has six.
    pub fn set_bar<B: PortBus>(&self, bus: &mut B, index: u8, value: u32)
        requires
            index < 6,
        ensures
            final(bus).trace() == old(bus).trace() + select_write(
                self.address | (0x10 + index * 4) as u32,
                value,
            ),
    {
        write_reg(bus, self.address, 0x10 + index * 4, value);
    }

    /// Lets the function take control of the bus for DMA.
    pub fn enable_busmaster<B: PortBus>(&self, bus: &mut B)
        ensures
            ({
                let t = final(bus).trace();
                let n = old(bus).trace().len() as int;
                t == old(bus).trace() + busmaster_ops(
                    self.address,
                    in32_value(t[n + 1]),
                    in32_value(t[n + 5]),
                )
            }),
    {
        let val = read_reg(bus, self.address, 0x4);
        write_reg(bus, self.address, 0x4, val | 0x4);
        let after = read_reg(bus, self.address, 0x4);
        assert(bus.trace() =~= old(bus).trace() + busmaster_ops(self.address, val, after));
    }
}

/// How a scan of the buses ended.
pub enum Outcome {
    /// All buses were scanned. The accesses up to this index were made,
    /// and these devices are known.
    Done(int, Seq<PCIDevice>),
    /// A device with a header that is not a plain device's stopped the scan
    /// after the accesses up to this index; these devices were known by
    /// then.
    Failed(int, Seq<PCIDevice>),
    /// The accesses are not those of a scan.
    Mismatch,
}

/// The value that the two accesses of `s` from index `k` on read from the
/// register that `address` selects, if that is what they do.
pub open spec fn read_at(s: Seq<PortOp>, k: int, address: u32) -> Option<u32> {
    if 0 <= k && k + 1 < s.len() && s[k] == PortOp::Out32(PCICONFIG_ADDRESS, address) && s[k + 1]
        == PortOp::In32(PCICONFIG_DATA, in32_value(s[k + 1])) {
        Some(in32_value(s[k + 1]))
    } else {
        None
    }
}

/// The header that the eight accesses of `s` from index `k` on read from
/// the function that `base` selects, if that is what they do.
pub open spec fn header_at(s: Seq<PortOp>, k: int, base: u32) -> Option<PCIHeader> {
    match (
        read_at(s, k, base | 0x0),
        read_at(s, k + 2, base | 0x4),
        read_at(s, k + 4, base | 0x8),
        read_at(s, k + 6, base | 0xC),
    ) {
        (Some(r0), Some(r1), Some(r2), Some(r3)) => Some(header_of(r0, r1, r2, r3)),
        _ => None,
    }
}

/// Where a scan stands: at function `f` of device `dev` on bus `b`, or,
/// with `f` below 0, at the question whether the device is there at all.
pub struct Position {
    pub b: int,
    pub dev: int,
    pub f: int,
}

impl Position {
    /// The first function of the position, which is the one asked whether
    /// the device is there.
    pub open spec fn function(&self) -> int {
        if self.f < 0 {
            0
        } else {
            self.f
        }
    }

    /// What selects register 0 of the function of the position.
    pub open spec fn address(&self) -> u32 {
        config_address(self.b as u8, self.dev as u8, self.function() as u8, 0) as u32
    }

    /// The position is one of a scan up to bus `last`.
    pub open spec fn valid(&self, last: int) -> bool {
        0 <= self.b <= last <= 255 && 0 <= self.dev < 32 && -1 <= self.f < 8
    }

    /// The position at the next device.
    pub open spec fn next_device(&self) -> Position {
        if self.dev + 1 >= 32 {
            Position { b: self.b + 1, dev: 0, f: -1 }
        } else {
            Position { b: self.b, dev: self.dev + 1, f: -1 }
        }
    }

    /// The position at the next function of the device, or at the next
    /// device behind its last function.
    pub open spec fn next_function(&self) -> Position {
        if self.f + 1 >= 8 {
            self.next_device()
        } else {
            Position { b: self.b, dev: self.dev, f: self.f + 1 }
        }
    }

    /// The position that follows a function that is not there.
    pub open spec fn skip(&self) -> Position {
        if self.f < 0 {
            self.next_device()
        } else {
            self.next_function()
        }
    }

    /// How far the scan up to bus `last` has to go from the position.
    pub open spec fn left(&self, last: int) -> int {
        if self.b > last {
            0
        } else {
            1 + ((last - self.b) * 32 + (31 - self.dev)) * 9 + (7 - self.f)
        }
    }

    /// The device that was found at the position with header `header`.
    pub open spec fn device(&self, header: PCIHeader) -> PCIDevice {
        PCIDevice {
            header,
            bus_num: self.b as u8,
            dev_num: self.dev as u8,
            fn_num: self.f as u8,
            address: self.address(),
            kind: kind_of(header.class),
        }
    }
}

/// What a scan of the buses up to `last` does from position `at` on, where
/// the accesses `s` from index `k` on are those that it makes and `known`
/// are the devices found before. Each device is asked whether it is there
/// by a read of register 0 of its first function. The functions of a
/// device that is there are asked the same, one after the other; the header
/// of one that is there is read, and the function is added to the devices
/// known, with its kind. The functions behind one that does not say that
/// its device has several are not looked at.
pub open spec fn scan(s: Seq<PortOp>, k: int, last: int, at: Position, known: Seq<PCIDevice>) -> Outcome
    decreases at.left(last),
{
    if !at.valid(last) {
        Outcome::Done(k, known)
    } else {
        match read_at(s, k, at.address()) {
            None => Outcome::Mismatch,
            Some(v) => if v == 0xffff_ffff {
                scan(s, k + 2, last, at.skip(), known)
            } else if at.f < 0 {
                scan(s, k + 2, last, Position { b: at.b, dev: at.dev, f: 0 }, known)
            } else {
                match header_at(s, k + 2, at.address()) {
                    None => Outcome::Mismatch,
                    Some(h) => if h.header_type % 4 != 0 {
                        Outcome::Failed(k + 10, known)
                    } else if h.header_type / 0x80 == 0 {
                        scan(s, k + 10, last, at.next_device(), known.push(at.device(h)))
                    } else {
                        scan(s, k + 10, last, at.next_function(), known.push(at.device(h)))
                    },
                }
            },
        }
    }
}

/// Whether a scan that started with the devices `known0` at the first
/// device of bus `first`, has made the accesses `made` and goes on with the
/// accesses `coming`, ends as the scan from position `at` with the devices
/// `known` does on the accesses that are coming.
pub open spec fn synced(
    made: Seq<PortOp>,
    coming: Seq<PortOp>,
    last: int,
    first: int,
    known0: Seq<PCIDevice>,
    at: Position,
    known: Seq<PCIDevice>,
) -> bool {
    scan(made + coming, 0, last, Position { b: first, dev: 0, f: -1 }, known0) == scan(
        made + coming,
        made.len() as int,
        last,
        at,
        known,
    )
}

/// `synced` holds whatever accesses are coming.
#[verifier::opaque]
pub open spec fn all_synced(
    made: Seq<PortOp>,
    last: int,
    first: int,
    known0: Seq<PCIDevice>,
    at: Position,
    known: Seq<PCIDevice>,
) -> bool {
    forall|coming: Seq<PortOp>| #[trigger] synced(made, coming, last, first, known0, at, known)
}

proof fn lemma_probe(
    made: Seq<PortOp>,
    last: int,
    first: int,
    known0: Seq<PCIDevice>,
    at: Position,
    known: Seq<PCIDevice>,
    v: u32,
)
    requires
        all_synced(made, last, first, known0, at, known),
        at.valid(last),
        v == 0xffff_ffff || at.f < 0,
    ensures
        all_synced(
            made + select_read(at.address(), v),
            last,
            first,
            known0,
            if v == 0xffff_ffff {
                at.skip()
            } else {
                Position { b: at.b, dev: at.dev, f: 0 }
            },
            known,
        ),
{
    reveal(all_synced);
    let ops = select_read(at.address(), v);
    let next = if v == 0xffff_ffff {
        at.skip()
    } else {
        Position { b: at.b, dev: at.dev, f: 0 }
    };
    assert forall|coming: Seq<PortOp>| #[trigger]
        synced(made + ops, coming, last, first, known0, next, known) by {
        let s = (made + ops) + coming;
        assert(s =~= made + (ops + coming));
        assert(synced(made, ops + coming, last, first, known0, at, known));
        assert(s[made.len() as int] == ops[0]);
        assert(s[made.len() as int + 1] == ops[1]);
        assert(read_at(s, made.len() as int, at.address()) == Some(v));
    }
}

proof fn lemma_function(
    made: Seq<PortOp>,
    last: int,
    first: int,
    known0: Seq<PCIDevice>,
    at: Position,
    known: Seq<PCIDevice>,
    v: u32,
    r0: u32,
    r1: u32,
    r2: u32,
    r3: u32,
)
    requires
        all_synced(made, last, first, known0, at, known),
        at.valid(last),
        at.f >= 0,
        v != 0xffff_ffff,
    ensures
        ({
            let h = header_of(r0, r1, r2, r3);
            let ops = select_read(at.address(), v) + header_reads(at.address(), r0, r1, r2, r3);
            if h.header_type % 4 != 0 {
                scan(made + ops, 0, last, Position { b: first, dev: 0, f: -1 }, known0)
                    == Outcome::Failed(made.len() as int + 10, known)
            } else {
                all_synced(
                    made + ops,
                    last,
                    first,
                    known0,
                    if h.header_type / 0x80 == 0 {
                        at.next_device()
                    } else {
                        at.next_function()
                    },
                    known.push(at.device(h)),
                )
            }
        }),
{
    reveal(all_synced);
    let h = header_of(r0, r1, r2, r3);
    let base = at.address();
    let ops = select_read(base, v) + header_reads(base, r0, r1, r2, r3);
    assert(ops.len() == 10);
    assert(ops[0] == PortOp::Out32(PCICONFIG_ADDRESS, base));
    assert(ops[1] == PortOp::In32(PCICONFIG_DATA, v));
    assert(ops[2] == PortOp::Out32(PCICONFIG_ADDRESS, base | 0x0));
    assert(ops[3] == PortOp::In32(PCICONFIG_DATA, r0));
    assert(ops[4] == PortOp::Out32(PCICONFIG_ADDRESS, base | 0x4));
    assert(ops[5] == PortOp::In32(PCICONFIG_DATA, r1));
    assert(ops[6] == PortOp::Out32(PCICONFIG_ADDRESS, base | 0x8));
    assert(ops[7] == PortOp::In32(PCICONFIG_DATA, r2));
    assert(ops[8] == PortOp::Out32(PCICONFIG_ADDRESS, base | 0xC));
    assert(ops[9] == PortOp::In32(PCICONFIG_DATA, r3));
    let n = made.len() as int;
    if h.header_type % 4 != 0 {
        let s = made + ops;
        assert(s =~= made + (ops + Seq::<PortOp>::empty()));
        assert(synced(made, ops + Seq::<PortOp>::empty(), last, first, known0, at, known));
        assert forall|j: int| 0 <= j < 10 implies s[n + j] == ops[j] by {}
        assert(read_at(s, n, base) == Some(v));
        assert(header_at(s, n + 2, base) == Some(h));
    } else {
        let next = if h.header_type / 0x80 == 0 {
            at.next_device()
        } else {
            at.next_function()
        };
        assert forall|coming: Seq<PortOp>| #[trigger]
            synced(made + ops, coming, last, first, known0, next, known.push(at.device(h))) by {
            let s = (made + ops) + coming;
            assert(s =~= made + (ops + coming));
            assert(synced(made, ops + coming, last, first, known0, at, known));
            assert forall|j: int| 0 <= j < 10 implies s[n + j] == ops[j] by {}
            assert(read_at(s, n, base) == Some(v));
            assert(header_at(s, n + 2, base) == Some(h));
        }
    }
}

/// A scan starts in step with itself.
proof fn lemma_start(last: int, first: int, known: Seq<PCIDevice>)
    ensures
        all_synced(Seq::empty(), last, first, known, Position { b: first, dev: 0, f: -1 }, known),
{
    reveal(all_synced);
}

/// A scan that is in step at its end has the outcome `Done`.
proof fn lemma_end(
    made: Seq<PortOp>,
    last: int,
    first: int,
    known0: Seq<PCIDevice>,
    at: Position,
    known: Seq<PCIDevice>,
)
    requires
        all_synced(made, last, first, known0, at, known),
        !at.valid(last),
    ensures
        scan(made, 0, last, Position { b: first, dev: 0, f: -1 }, known0) == Outcome::Done(
            made.len() as int,
            known,
        ),
{
    reveal(all_synced);
    assert(made + Seq::<PortOp>::empty() =~= made);
    assert(synced(made, Seq::<PortOp>::empty(), last, first, known0, at, known));
}

/// Where a scan stands.
struct Cursor {
    b: usize,
    dev: usize,
    f: usize,
    asking: bool,
}

impl Cursor {
    spec fn pos(&self) -> Position {
        Position {
            b: self.b as int,
            dev: self.dev as int,
            f: if self.asking {
                -1
            } else {
                self.f as int
            },
        }
    }

    spec fn wf(&self, last: int) -> bool {
        self.b <= last + 1 && last <= 255 && self.dev < 32 && self.f < 8 && (self.asking ==> self.f
            == 0)
    }

    /// Moves to the next device.
    fn next_device(&mut self, Ghost(last): Ghost<int>)
        requires
            old(self).wf(last),
            old(self).b <= last,
        ensures
            final(self).wf(last),
            final(self).pos() == old(self).pos().next_device(),
    {
        self.asking = true;
        self.f = 0;
        if self.dev + 1 >= 32 {
            self.b = self.b + 1;
            self.dev = 0;
        } else {
            self.dev = self.dev + 1;
        }
    }

    /// Moves to the next function of the device.
    fn next_function(&mut self, Ghost(last): Ghost<int>)
        requires
            old(self).wf(last),
            old(self).b <= last,
            !old(self).asking,
        ensures
            final(self).wf(last),
            final(self).pos() == old(self).pos().next_function(),
    {
        if self.f + 1 >= 8 {
            self.next_device(Ghost(last));
        } else {
            self.f = self.f + 1;
        }
    }
}

/// Makes the accesses of one step of a scan.
fn scan_step<B: PortBus>(
    bus: &mut B,
    at: &mut Cursor,
    devices: &mut Vec<PCIDevice>,
    Ghost(last): Ghost<int>,
    Ghost(first): Ghost<int>,
    Ghost(known0): Ghost<Seq<PCIDevice>>,
    Ghost(made): Ghost<Seq<PortOp>>,
) -> (r: (Result<(), Error>, Ghost<Seq<PortOp>>))
    requires
        old(at).wf(last),
        old(at).b <= last,
        all_synced(made, last, first, known0, old(at).pos(), old(devices)@),
    ensures
        final(bus).trace() == old(bus).trace() + r.1@,
        match r.0 {
            Ok(_) => {
                &&& final(at).wf(last)
                &&& final(at).pos().left(last) < old(at).pos().left(last)
                &&& all_synced(made + r.1@, last, first, known0, final(at).pos(), final(devices)@)
            },
            Err(e) => {
                &&& e == Error::NotImplemented
                &&& scan(made + r.1@, 0, last, Position { b: first, dev: 0, f: -1 }, known0)
                    == Outcome::Failed((made + r.1@).len() as int, final(devices)@)
            },
        },
{
    let ghost pos = at.pos();
    let address = build_address(at.b as u8, at.dev as u8, at.f as u8, 0);
    let present = device_exist(bus, at.b as u8, at.dev as u8, at.f as u8);
    let ghost v = in32_value(bus.trace().last());
    if !present || at.asking {
        proof {
            lemma_probe(made, last, first, known0, pos, devices@, v);
        }
        if !present {
            if at.asking {
                at.next_device(Ghost(last));
            } else {
                at.next_function(Ghost(last));
            }
        } else {
            at.asking = false;
            at.f = 0;
        }
        return (Ok(()), Ghost(select_read(address, v)));
    }
    let ghost mid = bus.trace();
    let header = read_header(bus, address);
    let ghost t = bus.trace();
    let ghost r0 = in32_value(t[mid.len() as int + 1]);
    let ghost r1 = in32_value(t[mid.len() as int + 3]);
    let ghost r2 = in32_value(t[mid.len() as int + 5]);
    let ghost r3 = in32_value(t[mid.len() as int + 7]);
    let ghost ops = select_read(address, v) + header_reads(address, r0, r1, r2, r3);
    proof {
        lemma_function(made, last, first, known0, pos, devices@, v, r0, r1, r2, r3);
        assert(t =~= old(bus).trace() + ops);
        assert((made + ops).len() == made.len() + 10);
    }
    let mut d = PCIDevice {
        header,
        bus_num: at.b as u8,
        dev_num: at.dev as u8,
        fn_num: at.f as u8,
        address,
        kind: PCIType::Unclassified,
    };
    match investigate_device(&mut d) {
        Ok(_) => {},
        Err(e) => {
            return (Err(e), Ghost(ops));
        },
    }
    assert(d == pos.device(header));
    devices.push(d);
    if header.header_type / 0x80 == 0 {
        at.next_device(Ghost(last));
    } else {
        at.next_function(Ghost(last));
    }
    (Ok(()), Ghost(ops))
}

/// Looks for the devices on the buses from `first` to `last` and adds those
/// found to `devices`, each with its kind. A device whose header is not a
/// plain device's stops the search with an error; the devices found before
/// it stay.
pub fn scan_buses<B: PortBus>(bus: &mut B, first: u8, last: u8, devices: &mut Vec<PCIDevice>) -> (r:
    Result<(), Error>)
    requires
        first <= last,
    ensures
        old(bus).trace().len() <= final(bus).trace().len(),
        final(bus).trace().subrange(0, old(bus).trace().len() as int) == old(bus).trace(),
        ({
            let made = final(bus).trace().subrange(
                old(bus).trace().len() as int,
                final(bus).trace().len() as int,
            );
            let outcome = scan(
                made,
                0,
                last as int,
                Position { b: first as int, dev: 0, f: -1 },
                old(devices)@,
            );
            match r {
                Ok(_) => outcome == Outcome::Done(made.len() as int, final(devices)@),
                Err(e) => e == Error::NotImplemented && outcome == Outcome::Failed(
                    made.len() as int,
                    final(devices)@,
                ),
            }
        }),
{
    let mut at = Cursor { b: first as usize, dev: 0, f: 0, asking: true };
    let ghost mut made: Seq<PortOp> = Seq::empty();
    proof {
        lemma_start(last as int, first as int, devices@);
        assert(bus.trace() =~= old(bus).trace() + made);
    }
    while at.b <= last as usize
        invariant
            at.wf(last as int),
            bus.trace() == old(bus).trace() + made,
            all_synced(made, last as int, first as int, old(devices)@, at.pos(), devices@),
        decreases at.pos().left(last as int),
    {
        let ghost before = bus.trace();
        let (r, Ghost(ops)) = scan_step(
            bus,
            &mut at,
            devices,
            Ghost(last as int),
            Ghost(first as int),
            Ghost(old(devices)@),
            Ghost(made),
        );
        proof {
            made = made + ops;
            assert(bus.trace() =~= old(bus).trace() + made);
        }
        match r {
            Ok(_) => {},
            Err(e) => {
                proof {
                    let t = bus.trace();
                    assert(t.subrange(old(bus).trace().len() as int, t.len() as int) =~= made);
                    assert(t.subrange(0, old(bus).trace().len() as int) =~= old(bus).trace());
                }
                return Err(e);
            },
        }
    }
    proof {
        let t = bus.trace();
        assert(t.subrange(old(bus).trace().len() as int, t.len() as int) =~= made);
        assert(t.subrange(0, old(bus).trace().len() as int) =~= old(bus).trace());
        lemma_end(made, last as int, first as int, old(devices)@, at.pos(), devices@);
    }
    Ok(())
}

/// Looks for the devices on bus `bus_num` and adds those found to
/// `devices`.
pub fn enumerate_bus<B: PortBus>(bus: &mut B, bus_num: u8, devices: &mut Vec<PCIDevice>) -> (r: Result<
    (),
    Error,
>)
    ensures
        old(bus).trace().len() <= final(bus).trace().len(),
        final(bus).trace().subrange(0, old(bus).trace().len() as int) == old(bus).trace(),
        ({
            let made = final(bus).trace().subrange(
                old(bus).trace().len() as int,
                final(bus).trace().len() as int,
            );
            let outcome = scan(
                made,
                0,
                bus_num as int,
                Position { b: bus_num as int, dev: 0, f: -1 },
                old(devices)@,
            );
            match r {
                Ok(_) => outcome == Outcome::Done(made.len() as int, final(devices)@),
                Err(e) => e == Error::NotImplemented && outcome == Outcome::Failed(
                    made.len() as int,
                    final(devices)@,
                ),
            }
        }),
{
    scan_buses(bus, bus_num, bus_num, devices)
}

/// Looks for the devices on all buses.
pub fn collect_devices<B: PortBus>(bus: &mut B) -> (r: Result<Vec<PCIDevice>, Error>)
    ensures
        old(bus).trace().len() <= final(bus).trace().len(),
        final(bus).trace().subrange(0, old(bus).trace().len() as int) == old(bus).trace(),
        ({
            let made = final(bus).trace().subrange(
                old(bus).trace().len() as int,
                final(bus).trace().len() as int,
            );
            let outcome = scan(made, 0, 255, Position { b: 0, dev: 0, f: -1 }, Seq::empty());
            match r {
                Ok(devices) => outcome == Outcome::Done(made.len() as int, devices@),
                Err(e) => e == Error::NotImplemented && outcome is Failed,
            }
        }),
{
    let mut devices: Vec<PCIDevice> = Vec::new();
    match scan_buses(bus, 0, 255, &mut devices) {
        Ok(_) => Ok(devices),
        Err(e) => Err(e),
    }
}

} // verus!
