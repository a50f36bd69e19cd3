//! Finding and identifying the devices.

use vstd::prelude::*;
use crate::arch::x86::io::{PortBus, PortOp, PCICONFIG_ADDRESS, PCICONFIG_DATA};
use crate::arch::x86::pci::{config_address, in32_value, read_at, select_read, Position};
use crate::driver::pci::config::{
    caps_of, caps_reads, config_of, field_offsets, field_reads, PCIEndpointConfig,
};
use crate::driver::pci::{PCIDevice, PCIType};
use crate::error::Error;

verus! {

/// The value for the address port that selects a register of a function. A
/// bus has 32 devices of 8 functions each, and registers are addressed in
/// units of four bytes.
pub fn build_address(bus_num: u8, dev_num: u8, fn_num: u8, reg_off: u8) -> (address: u32)
    requires
        dev_num < 32,
        fn_num < 8,
        reg_off % 4 == 0,
    ensures
        address == config_address(bus_num, dev_num, fn_num, reg_off),
{
    0x8000_0000 + bus_num as u32 * 0x1_0000 + dev_num as u32 * 0x800 + fn_num as u32 * 0x100
        + reg_off as u32
}

/// Whether a function is there: one that is not answers a read of its
/// register 0 with all bits set.
pub fn device_exist<B: PortBus>(bus: &mut B, bus_num: u8, dev_num: u8, fn_num: u8) -> (r: bool)
    requires
        dev_num < 32,
        fn_num < 8,
    ensures
        final(bus).trace() == old(bus).trace() + select_read(
            config_address(bus_num, dev_num, fn_num, 0) as u32,
            in32_value(final(bus).trace().last()),
        ),
        r == (in32_value(final(bus).trace().last()) != 0xffff_ffff),
{
    bus.outl(PCICONFIG_ADDRESS, build_address(bus_num, dev_num, fn_num, 0));
    let idvendor = bus.inl(PCICONFIG_DATA);
    assert(bus.trace() =~= old(bus).trace() + select_read(
        config_address(bus_num, dev_num, fn_num, 0) as u32,
        idvendor,
    ));
    idvendor != 0xffff_ffff
}

/// The kind of device that a class code stands for.
pub open spec fn kind_of(class: u16) -> PCIType {
    if class == 0x101 {
        PCIType::IDE
    } else if class == 0x105 {
        PCIType::ATA
    } else if class == 0x106 {
        PCIType::SATA
    } else {
        PCIType::Unsupported
    }
}

/// The kind of the device with configuration `conf`.
pub fn identify_class(conf: &PCIEndpointConfig) -> (kind: PCIType)
    ensures
        kind == kind_of(conf.class),
{
    if conf.class == 0x101 {
        PCIType::IDE
    } else if conf.class == 0x105 {
        PCIType::ATA
    } else if conf.class == 0x106 {
        PCIType::SATA
    } else {
        PCIType::Unsupported
    }
}

/// How a search for the devices ended.
pub enum Outcome {
    /// All buses were searched. The accesses up to this index were made,
    /// and these devices are known.
    Done(int, Seq<PCIDevice>),
    /// A device with a header that is not a plain device's stopped the
    /// search after the accesses up to this index; these devices were known
    /// by then.
    Failed(int, Seq<PCIDevice>),
    /// The accesses are not those of a search.
    Mismatch,
}

/// The accesses that read the configuration of the function which `base`
/// selects, as far as the values that `s` holds from index `k` on say.
#[verifier::opaque]
pub open spec fn config_ops(s: Seq<PortOp>, k: int, base: u32) -> Seq<PortOp> {
    let raw = in32_value(s[k + 1]);
    let pointer = in32_value(s[k + 3]);
    let head = caps_reads(base, raw, pointer);
    let m = k + head.len();
    let raws = Seq::new(17, |i: int| in32_value(s[m + 2 * i + 1]));
    head + field_reads(base, field_offsets(), raws, 17)
}

/// The configuration that the values which `s` holds from index `k` on are
/// of, read from the function that `base` selects.
#[verifier::opaque]
pub open spec fn config_in(s: Seq<PortOp>, k: int, base: u32) -> PCIEndpointConfig {
    let raw = in32_value(s[k + 1]);
    let pointer = in32_value(s[k + 3]);
    let m = k + caps_reads(base, raw, pointer).len();
    let raws = Seq::new(17, |i: int| in32_value(s[m + 2 * i + 1]));
    config_of(base, caps_of(raw, pointer), raws)
}

/// The configuration that the accesses of `s` from index `k` on read from
/// the function that `base` selects, if that is what they do.
pub open spec fn config_at(s: Seq<PortOp>, k: int, base: u32) -> Option<PCIEndpointConfig> {
    let ops = config_ops(s, k, base);
    if 0 <= k && k + ops.len() <= s.len() && s.subrange(k, k + ops.len()) == ops {
        Some(config_in(s, k, base))
    } else {
        None
    }
}

/// The device that was found at position `at` with configuration `conf`.
pub open spec fn device_at(at: Position, conf: PCIEndpointConfig) -> PCIDevice {
    PCIDevice {
        config: conf,
        bus_num: at.b as u8,
        dev_num: at.dev as u8,
        fn_num: at.f as u8,
        kind: kind_of(conf.class),
    }
}

/// Whether position `at` is one of a search of the buses up to `last`,
/// which looks at device `only` alone unless `only` is below 0.
pub open spec fn within(at: Position, last: int, only: int) -> bool {
    at.valid(last) && (only < 0 || at.dev == only)
}

/// What a search of the buses up to `last`, or of device `only` on bus
/// `last` alone if `only` is not below 0, does from position `at` on,
/// where the accesses `s` from index `k` on are those that it makes and
/// `known` are the devices found before. Each device is asked whether it is
/// there by a read of register 0 of its first function. The functions of a
/// device that is there are asked the same, one after the other; the
/// configuration of one that is there is read, and the function is added to
/// the devices known, with its kind. The functions behind one that does not
/// say that its device has several are not looked at.
pub open spec fn survey(
    s: Seq<PortOp>,
    k: int,
    last: int,
    only: int,
    at: Position,
    known: Seq<PCIDevice>,
) -> Outcome
    decreases at.left(last),
{
    if !within(at, last, only) {
        Outcome::Done(k, known)
    } else {
        match read_at(s, k, at.address()) {
            None => Outcome::Mismatch,
            Some(v) => if v == 0xffff_ffff {
                survey(s, k + 2, last, only, at.skip(), known)
            } else if at.f < 0 {
                survey(s, k + 2, last, only, Position { b: at.b, dev: at.dev, f: 0 }, known)
            } else {
                match config_at(s, k + 2, at.address()) {
                    None => Outcome::Mismatch,
                    Some(conf) => {
                        let next = k + 2 + config_ops(s, k + 2, at.address()).len();
                        if conf.header_type % 4 != 0 {
                            Outcome::Failed(next, known)
                        } else if conf.header_type / 0x80 == 0 {
                            survey(s, next, last, only, at.next_device(), known.push(device_at(at, conf)))
                        } else {
                            survey(s, next, last, only, at.next_function(), known.push(device_at(at, conf)))
                        }
                    },
                }
            },
        }
    }
}

/// Whether a search that started with the devices `known0` at position
/// `start`, has made the accesses `made` and goes on with the accesses
/// `coming`, ends as the search from position `at` with the devices `known`
/// does on the accesses that are coming.
pub open spec fn synced(
    made: Seq<PortOp>,
    coming: Seq<PortOp>,
    last: int,
    only: int,
    start: Position,
    known0: Seq<PCIDevice>,
    at: Position,
    known: Seq<PCIDevice>,
) -> bool {
    survey(made + coming, 0, last, only, start, known0) == survey(
        made + coming,
        made.len() as int,
        last,
        only,
        at,
        known,
    )
}

/// `synced` holds whatever accesses are coming.
#[verifier::opaque]
pub open spec fn all_synced(
    made: Seq<PortOp>,
    last: int,
    only: int,
    start: Position,
    known0: Seq<PCIDevice>,
    at: Position,
    known: Seq<PCIDevice>,
) -> bool {
    forall|coming: Seq<PortOp>| #[trigger] synced(made, coming, last, only, start, known0, at, known)
}

proof fn lemma_start(last: int, only: int, start: Position, known: Seq<PCIDevice>)
    ensures
        all_synced(Seq::empty(), last, only, start, known, start, known),
{
    reveal(all_synced);
}

proof fn lemma_end(
    made: Seq<PortOp>,
    last: int,
    only: int,
    start: Position,
    known0: Seq<PCIDevice>,
    at: Position,
    known: Seq<PCIDevice>,
)
    requires
        all_synced(made, last, only, start, known0, at, known),
        !within(at, last, only),
    ensures
        survey(made, 0, last, only, start, known0) == Outcome::Done(made.len() as int, known),
{
    reveal(all_synced);
    assert(made + Seq::<PortOp>::empty() =~= made);
    assert(synced(made, Seq::<PortOp>::empty(), last, only, start, known0, at, known));
}

proof fn lemma_probe(
    made: Seq<PortOp>,
    last: int,
    only: int,
    start: Position,
    known0: Seq<PCIDevice>,
    at: Position,
    known: Seq<PCIDevice>,
    v: u32,
)
    requires
        all_synced(made, last, only, start, known0, at, known),
        within(at, last, only),
        v == 0xffff_ffff || at.f < 0,
    ensures
        all_synced(
            made + select_read(at.address(), v),
            last,
            only,
            start,
            known0,
            if v == 0xffff_ffff {
                at.skip()
            } else {
                Position { b: at.b, dev: at.dev, f: 0 }
            },
            known,
        ),
{
    reveal(all_synced);
    let ops = select_read(at.address(), v);
    let next = if v == 0xffff_ffff {
        at.skip()
    } else {
        Position { b: at.b, dev: at.dev, f: 0 }
    };
    assert forall|coming: Seq<PortOp>| #[trigger]
        synced(made + ops, coming, last, only, start, known0, next, known) by {
        let s = (made + ops) + coming;
        assert(s =~= made + (ops + coming));
        assert(synced(made, ops + coming, last, only, start, known0, at, known));
        assert(s[made.len() as int] == ops[0]);
        assert(s[made.len() as int + 1] == ops[1]);
        assert(read_at(s, made.len() as int, at.address()) == Some(v));
    }
}

/// The accesses that read `n` fields are twice as many.
proof fn lemma_field_reads_len(base: u32, offsets: Seq<u32>, raws: Seq<u32>, n: int)
    requires
        0 <= n,
    ensures
        field_reads(base, offsets, raws, n).len() == 2 * n,
    decreases n,
{
    if n > 0 {
        lemma_field_reads_len(base, offsets, raws, n - 1);
    }
}

/// Where `s` holds from index `k` on the accesses `ops`, which are those
/// that read a configuration from the values they hold themselves, they are
/// the accesses that read the configuration that `s` holds there.
proof fn lemma_config_at(s: Seq<PortOp>, k: int, base: u32, ops: Seq<PortOp>)
    requires
        0 <= k,
        k + ops.len() <= s.len(),
        s.subrange(k, k + ops.len()) == ops,
        ops == config_ops(ops, 0, base),
    ensures
        config_ops(s, k, base) == ops,
        config_at(s, k, base) == Some(config_in(ops, 0, base)),
        config_in(s, k, base) == config_in(ops, 0, base),
{
    reveal(config_ops);
    reveal(config_in);
    let raw = in32_value(ops[1]);
    let pointer = in32_value(ops[3]);
    let head = caps_reads(base, raw, pointer);
    let raws = Seq::new(17, |i: int| in32_value(ops[head.len() + 2 * i + 1]));
    lemma_field_reads_len(base, field_offsets(), raws, 17);
    assert(ops.len() == head.len() + 34);
    assert forall|j: int| 0 <= j < ops.len() implies s[k + j] == ops[j] by {
        assert(s.subrange(k, k + ops.len())[j] == s[k + j]);
    }
    assert(in32_value(s[k + 1]) == raw);
    assert(in32_value(s[k + 3]) == pointer);
    let raws_s = Seq::new(17, |i: int| in32_value(s[k + head.len() + 2 * i + 1]));
    assert(raws_s =~= raws);
}

proof fn lemma_function(
    made: Seq<PortOp>,
    last: int,
    only: int,
    start: Position,
    known0: Seq<PCIDevice>,
    at: Position,
    known: Seq<PCIDevice>,
    v: u32,
    cfg: Seq<PortOp>,
)
    requires
        all_synced(made, last, only, start, known0, at, known),
        within(at, last, only),
        at.f >= 0,
        v != 0xffff_ffff,
        cfg == config_ops(cfg, 0, at.address()),
    ensures
        ({
            let conf = config_in(cfg, 0, at.address());
            let ops = select_read(at.address(), v) + cfg;
            if conf.header_type % 4 != 0 {
                survey(made + ops, 0, last, only, start, known0) == Outcome::Failed(
                    (made + ops).len() as int,
                    known,
                )
            } else {
                all_synced(
                    made + ops,
                    last,
                    only,
                    start,
                    known0,
                    if conf.header_type / 0x80 == 0 {
                        at.next_device()
                    } else {
                        at.next_function()
                    },
                    known.push(device_at(at, conf)),
                )
            }
        }),
{
    reveal(all_synced);
    let base = at.address();
    let conf = config_in(cfg, 0, base);
    let probe = select_read(base, v);
    let ops = probe + cfg;
    let n = made.len() as int;
    if conf.header_type % 4 != 0 {
        let s = made + ops;
        assert(s =~= made + (ops + Seq::<PortOp>::empty()));
        assert(synced(made, ops + Seq::<PortOp>::empty(), last, only, start, known0, at, known));
        assert(s[n] == probe[0]);
        assert(s[n + 1] == probe[1]);
        assert(read_at(s, n, base) == Some(v));
        assert(s.subrange(n + 2, n + 2 + cfg.len()) =~= cfg);
        lemma_config_at(s, n + 2, base, cfg);
    } else {
        let next = if conf.header_type / 0x80 == 0 {
            at.next_device()
        } else {
            at.next_function()
        };
        assert forall|coming: Seq<PortOp>| #[trigger]
            synced(made + ops, coming, last, only, start, known0, next, known.push(device_at(at, conf))) by {
            let s = (made + ops) + coming;
            assert(s =~= made + (ops + coming));
            assert(synced(made, ops + coming, last, only, start, known0, at, known));
            assert(s[n] == probe[0]);
            assert(s[n + 1] == probe[1]);
            assert(read_at(s, n, base) == Some(v));
            assert(s.subrange(n + 2, n + 2 + cfg.len()) =~= cfg);
            lemma_config_at(s, n + 2, base, cfg);
        }
    }
}

/// The accesses by which a configuration was read are those that read the
/// configuration which they hold themselves.
proof fn lemma_config_read(mid: Seq<PortOp>, t: Seq<PortOp>, address: u32, conf: PCIEndpointConfig)
    requires
        ({
            let n = mid.len() as int;
            let raw = in32_value(t[n + 1]);
            let pointer = in32_value(t[n + 3]);
            let m = n + caps_reads(address, raw, pointer).len();
            let raws = Seq::new(17, |i: int| in32_value(t[m + 2 * i + 1]));
            &&& t == mid + caps_reads(address, raw, pointer) + field_reads(
                address,
                field_offsets(),
                raws,
                17,
            )
            &&& conf == config_of(address, caps_of(raw, pointer), raws)
        }),
    ensures
        mid.len() <= t.len(),
        ({
            let cfg = t.subrange(mid.len() as int, t.len() as int);
            &&& t == mid + cfg
            &&& cfg == config_ops(cfg, 0, address)
            &&& conf == config_in(cfg, 0, address)
        }),
{
    reveal(config_ops);
    reveal(config_in);
    let n = mid.len() as int;
    let raw = in32_value(t[n + 1]);
    let pointer = in32_value(t[n + 3]);
    let head = caps_reads(address, raw, pointer);
    let m = n + head.len();
    let raws = Seq::new(17, |i: int| in32_value(t[m + 2 * i + 1]));
    let ops = head + field_reads(address, field_offsets(), raws, 17);
    lemma_field_reads_len(address, field_offsets(), raws, 17);
    assert(t == mid + ops);
    let cfg = t.subrange(mid.len() as int, t.len() as int);
    assert(cfg =~= ops);
    assert(t =~= mid + cfg);
    assert forall|j: int| 0 <= j < ops.len() implies cfg[j] == t[n + j] by {}
    assert(in32_value(cfg[1]) == raw);
    assert(in32_value(cfg[3]) == pointer);
    assert(Seq::new(17, |i: int| in32_value(cfg[head.len() + 2 * i + 1])) =~= raws);
}

/// Where a search stands.
struct Cursor {
    b: usize,
    dev: usize,
    f: usize,
    asking: bool,
}

impl Cursor {
    spec fn pos(&self) -> Position {
        Position {
            b: self.b as int,
            dev: self.dev as int,
            f: if self.asking {
                -1
            } else {
                self.f as int
            },
        }
    }

    spec fn wf(&self, last: int) -> bool {
        self.b <= last + 1 && last <= 255 && self.dev < 32 && self.f < 8 && (self.asking ==> self.f
            == 0)
    }

    fn next_device(&mut self, Ghost(last): Ghost<int>)
        requires
            old(self).wf(last),
            old(self).b <= last,
        ensures
            final(self).wf(last),
            final(self).pos() == old(self).pos().next_device(),
    {
        self.asking = true;
        self.f = 0;
        if self.dev + 1 >= 32 {
            self.b = self.b + 1;
            self.dev = 0;
        } else {
            self.dev = self.dev + 1;
        }
    }

    fn next_function(&mut self, Ghost(last): Ghost<int>)
        requires
            old(self).wf(last),
            old(self).b <= last,
            !old(self).asking,
        ensures
            final(self).wf(last),
            final(self).pos() == old(self).pos().next_function(),
    {
        if self.f + 1 >= 8 {
            self.next_device(Ghost(last));
        } else {
            self.f = self.f + 1;
        }
    }
}

/// Makes the accesses of one step of a search.
fn step<B: PortBus>(
    bus: &mut B,
    at: &mut Cursor,
    devices: &mut Vec<PCIDevice>,
    Ghost(last): Ghost<int>,
    Ghost(only): Ghost<int>,
    Ghost(start): Ghost<Position>,
    Ghost(known0): Ghost<Seq<PCIDevice>>,
    Ghost(made): Ghost<Seq<PortOp>>,
) -> (r: (Result<(), Error>, Ghost<Seq<PortOp>>))
    requires
        old(at).wf(last),
        old(at).b <= last,
        within(old(at).pos(), last, only),
        all_synced(made, last, only, start, known0, old(at).pos(), old(devices)@),
    ensures
        final(bus).trace() == old(bus).trace() + r.1@,
        match r.0 {
            Ok(_) => {
                &&& final(at).wf(last)
                &&& final(at).b >= old(at).b
                &&& final(at).pos().left(last) < old(at).pos().left(last)
                &&& all_synced(made + r.1@, last, only, start, known0, final(at).pos(), final(devices)@)
            },
            Err(e) => {
                &&& e == Error::NotImplemented
                &&& survey(made + r.1@, 0, last, only, start, known0) == Outcome::Failed(
                    (made + r.1@).len() as int,
                    final(devices)@,
                )
            },
        },
{
    let ghost pos = at.pos();
    let address = build_address(at.b as u8, at.dev as u8, at.f as u8, 0);
    let present = device_exist(bus, at.b as u8, at.dev as u8, at.f as u8);
    let ghost v = in32_value(bus.trace().last());
    if !present || at.asking {
        proof {
            lemma_probe(made, last, only, start, known0, pos, devices@, v);
        }
        if !present {
            if at.asking {
                at.next_device(Ghost(last));
            } else {
                at.next_function(Ghost(last));
            }
        } else {
            at.asking = false;
            at.f = 0;
        }
        return (Ok(()), Ghost(select_read(address, v)));
    }
    let ghost mid = bus.trace();
    let conf = PCIEndpointConfig::from_io_space(bus, address);
    let ghost t = bus.trace();
    let ghost cfg = t.subrange(mid.len() as int, t.len() as int);
    proof {
        lemma_config_read(mid, t, address, conf);
        lemma_function(made, last, only, start, known0, pos, devices@, v, cfg);
        assert(t =~= old(bus).trace() + (select_read(address, v) + cfg));
    }
    if conf.header_type % 4 != 0 {
        return (Err(Error::NotImplemented), Ghost(select_read(address, v) + cfg));
    }
    let d = PCIDevice {
        config: conf,
        bus_num: at.b as u8,
        dev_num: at.dev as u8,
        fn_num: at.f as u8,
        kind: identify_class(&conf),
    };
    assert(d == device_at(pos, conf));
    devices.push(d);
    if conf.header_type / 0x80 == 0 {
        at.next_device(Ghost(last));
    } else {
        at.next_function(Ghost(last));
    }
    (Ok(()), Ghost(select_read(address, v) + cfg))
}

/// Looks for the devices on all buses and adds those found to `devices`,
/// each with its configuration and its kind. A device whose header is not a
/// plain device's stops the search with an error; the devices found before
/// it stay.
pub fn enumerate<B: PortBus>(bus: &mut B, devices: &mut Vec<PCIDevice>) -> (r: Result<(), Error>)
    ensures
        old(bus).trace().len() <= final(bus).trace().len(),
        final(bus).trace().subrange(0, old(bus).trace().len() as int) == old(bus).trace(),
        ({
            let made = final(bus).trace().subrange(
                old(bus).trace().len() as int,
                final(bus).trace().len() as int,
            );
            let outcome = survey(made, 0, 255, -1, Position { b: 0, dev: 0, f: -1 }, old(devices)@);
            match r {
                Ok(_) => outcome == Outcome::Done(made.len() as int, final(devices)@),
                Err(e) => e == Error::NotImplemented && outcome == Outcome::Failed(
                    made.len() as int,
                    final(devices)@,
                ),
            }
        }),
{
    let mut at = Cursor { b: 0, dev: 0, f: 0, asking: true };
    let ghost start = Position { b: 0, dev: 0, f: -1 };
    let ghost mut made: Seq<PortOp> = Seq::empty();
    proof {
        lemma_start(255, -1, start, devices@);
        assert(bus.trace() =~= old(bus).trace() + made);
    }
    while at.b <= 255
        invariant
            at.wf(255),
            start == (Position { b: 0, dev: 0, f: -1 }),
            bus.trace() == old(bus).trace() + made,
            all_synced(made, 255, -1, start, old(devices)@, at.pos(), devices@),
        decreases at.pos().left(255),
    {
        let (r, Ghost(ops)) = step(
            bus,
            &mut at,
            devices,
            Ghost(255),
            Ghost(-1),
            Ghost(start),
            Ghost(old(devices)@),
            Ghost(made),
        );
        proof {
            made = made + ops;
            assert(bus.trace() =~= old(bus).trace() + made);
        }
        match r {
            Ok(_) => {},
            Err(e) => {
                proof {
                    let t = bus.trace();
                    assert(t.subrange(old(bus).trace().len() as int, t.len() as int) =~= made);
                    assert(t.subrange(0, old(bus).trace().len() as int) =~= old(bus).trace());
                }
                return Err(e);
            },
        }
    }
    proof {
        let t = bus.trace();
        assert(t.subrange(old(bus).trace().len() as int, t.len() as int) =~= made);
        assert(t.subrange(0, old(bus).trace().len() as int) =~= old(bus).trace());
        lemma_end(made, 255, -1, start, old(devices)@, at.pos(), devices@);
    }
    Ok(())
}

/// Looks at the functions of device `dev_num` on bus `bus_num` from its
/// first on and adds those found to `devices`, each with its configuration
/// and its kind. A function that is not there is passed over; the functions
/// behind one that does not say that its device has several are not looked
/// at. A function whose header is not a plain device's stops the search with
/// an error; the functions found before it stay.
pub fn enumerate_functions<B: PortBus>(
    bus: &mut B,
    bus_num: u8,
    dev_num: u8,
    devices: &mut Vec<PCIDevice>,
) -> (r: Result<(), Error>)
    requires
        dev_num < 32,
    ensures
        old(bus).trace().len() <= final(bus).trace().len(),
        final(bus).trace().subrange(0, old(bus).trace().len() as int) == old(bus).trace(),
        ({
            let made = final(bus).trace().subrange(
                old(bus).trace().len() as int,
                final(bus).trace().len() as int,
            );
            let first = Position { b: bus_num as int, dev: dev_num as int, f: 0 };
            let outcome = survey(made, 0, bus_num as int, dev_num as int, first, old(devices)@);
            match r {
                Ok(_) => outcome == Outcome::Done(made.len() as int, final(devices)@),
                Err(e) => e == Error::NotImplemented && outcome == Outcome::Failed(
                    made.len() as int,
                    final(devices)@,
                ),
            }
        }),
{
    let mut at = Cursor { b: bus_num as usize, dev: dev_num as usize, f: 0, asking: false };
    let ghost last = bus_num as int;
    let ghost only = dev_num as int;
    let ghost start = at.pos();
    let ghost mut made: Seq<PortOp> = Seq::empty();
    proof {
        lemma_start(last, only, start, devices@);
        assert(bus.trace() =~= old(bus).trace() + made);
    }
    while at.b == bus_num as usize && at.dev == dev_num as usize
        invariant
            at.wf(last),
            at.b >= bus_num,
            last == bus_num,
            only == dev_num,
            dev_num < 32,
            start == (Position { b: bus_num as int, dev: dev_num as int, f: 0 }),
            bus.trace() == old(bus).trace() + made,
            all_synced(made, last, only, start, old(devices)@, at.pos(), devices@),
        decreases at.pos().left(last),
    {
        let (r, Ghost(ops)) = step(
            bus,
            &mut at,
            devices,
            Ghost(last),
            Ghost(only),
            Ghost(start),
            Ghost(old(devices)@),
            Ghost(made),
        );
        proof {
            made = made + ops;
            assert(bus.trace() =~= old(bus).trace() + made);
        }
        match r {
            Ok(_) => {},
            Err(e) => {
                proof {
                    let t = bus.trace();
                    assert(t.subrange(old(bus).trace().len() as int, t.len() as int) =~= made);
                    assert(t.subrange(0, old(bus).trace().len() as int) =~= old(bus).trace());
                }
                return Err(e);
            },
        }
    }
    proof {
        let t = bus.trace();
        assert(t.subrange(old(bus).trace().len() as int, t.len() as int) =~= made);
        assert(t.subrange(0, old(bus).trace().len() as int) =~= old(bus).trace());
        lemma_end(made, last, only, start, old(devices)@, at.pos(), devices@);
    }
    Ok(())
}

} // verus!
