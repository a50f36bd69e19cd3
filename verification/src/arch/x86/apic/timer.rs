//! The timer of the local APIC.
//!
//! How fast the timer runs is measured against the interval timer, whose
//! frequency is known: the interval timer counts down a hundredth of a
//! second while the APIC's timer runs from its largest value.

use vstd::prelude::*;
use crate::arch::x86::apic::{
    lapic_read_reg, lapic_write_reg, REGISTERS_SIZE, REG_CURRENT_TIMER, REG_INIT_TIMER,
    REG_LVT_TIMER,
};
use crate::arch::x86::io::{
    extends, holds, lemma_extends, lemma_extends_add, lemma_extends_push, load_value, PortOp,
    RegisterBus, PITCHAN2, PITCONTROL, PITGATE,
};
use crate::driver::kbd::in8_value;

verus! {

/// Command for the interval timer: channel 2, both bytes, one shot.
pub const PIT_ONE_SHOT: u8 = 0xb2;

/// Low byte of the number of ticks of the interval timer in a hundredth of
/// a second.
pub const PIT_TICKS_LOW: u8 = 0x9b;

/// High byte of the number of ticks of the interval timer in a hundredth of
/// a second.
pub const PIT_TICKS_HIGH: u8 = 0x2e;

/// Value of the timer register for a periodic timer with vector 0x32.
pub const TIMER_PERIODIC: u32 = 0x20032;

/// Number of times that the interval timer's control port is asked whether the
/// count has run down before the measurement is given up.
pub const GATE_ROUNDS: usize = 10_000_000;

/// Whether a value of the control port says that the count has run down.
pub open spec fn ran_down(gate: u8) -> bool {
    (gate / 0x20) % 2 == 1
}

/// A value of the control port with its lowest bit cleared.
pub open spec fn gate_low(gate: u8) -> u8 {
    (gate - gate % 2) as u8
}

/// The accesses that start the measurement for the local APIC whose
/// registers lie at `lapic`, where the interval timer's control port held
/// `gate`: the interval timer gets its mode and its count, the APIC's
/// timer its largest count, and the control port is cleared and set, which
/// starts the interval timer.
pub open spec fn start_ops(lapic: usize, gate: u8) -> Seq<PortOp> {
    seq![
        PortOp::Out8(PITCONTROL, PIT_ONE_SHOT),
        PortOp::Wait,
        PortOp::Out8(PITCHAN2, PIT_TICKS_LOW),
        PortOp::Wait,
        PortOp::Out8(PITCHAN2, PIT_TICKS_HIGH),
        PortOp::Wait,
        PortOp::Store((lapic + REG_INIT_TIMER) as usize, u32::MAX),
        PortOp::In8(PITGATE, gate),
        PortOp::Out8(PITGATE, gate_low(gate)),
        PortOp::Out8(PITGATE, (gate_low(gate) + 1) as u8),
        PortOp::Wait,
    ]
}

/// The accesses that set the timer of the local APIC whose registers lie
/// at `lapic`, where its count had come down to `current`: the timer is
/// stopped, gets the ticks that passed as its count, and is made periodic.
pub open spec fn set_ops(lapic: usize, current: u32) -> Seq<PortOp> {
    seq![
        PortOp::Load((lapic + REG_CURRENT_TIMER) as usize, current),
        PortOp::Store((lapic + REG_INIT_TIMER) as usize, 0),
        PortOp::Store((lapic + REG_INIT_TIMER) as usize, (u32::MAX - current) as u32),
        PortOp::Store((lapic + REG_LVT_TIMER) as usize, TIMER_PERIODIC),
    ]
}

/// The number of times that the control port is asked, the first time by the
/// access of `s` at index `k`: until it says that the count has run down,
/// and `limit` times at most. Each question is a read and a wait.
pub open spec fn rounds(s: Seq<PortOp>, k: int, limit: int) -> int
    decreases limit,
{
    if limit <= 1 || k < 0 || k >= s.len() || ran_down(in8_value(s[k])) {
        1
    } else {
        1 + rounds(s, k + 2, limit - 1)
    }
}

/// Whether `s` holds from index `from` on `n` questions to the control port.
pub open spec fn asked_in(s: Seq<PortOp>, from: int, n: int) -> bool {
    &&& 0 <= from
    &&& 0 <= n
    &&& from + 2 * n <= s.len()
    &&& forall|j: int|
        0 <= j < n ==> #[trigger] s[from + 2 * j] == PortOp::In8(
            PITGATE,
            in8_value(s[from + 2 * j]),
        ) && s[from + 2 * j + 1] == PortOp::Wait
}

/// How the measurement ended.
pub enum Calibration {
    /// The accesses up to this index were made, and the timer ticks so
    /// many times in a hundredth of a second.
    Measured(int, u32),
    /// The accesses up to this index were made, and the interval timer did
    /// not run down.
    GaveUp(int),
    /// The accesses are not those of a measurement.
    Mismatch,
}

/// What the measurement does for the local APIC whose registers lie at
/// `lapic`, where the accesses of `s` from index `k` on are those that it
/// makes: it starts both timers, asks the control port until the interval timer has
/// run down, and sets the APIC's timer to the ticks that passed. If the
/// interval timer does not run down the APIC's timer is left as it is.
pub open spec fn calibrated_at(s: Seq<PortOp>, k: int, lapic: usize) -> Calibration {
    let n = rounds(s, k + 11, GATE_ROUNDS as int);
    let end = k + 11 + 2 * n;
    if !holds(s, k, start_ops(lapic, in8_value(s[k + 7]))) || !asked_in(s, k + 11, n) {
        Calibration::Mismatch
    } else if !ran_down(in8_value(s[end - 2])) {
        Calibration::GaveUp(end)
    } else if !holds(s, end, set_ops(lapic, load_value(s[end]))) {
        Calibration::Mismatch
    } else {
        Calibration::Measured(end + 4, (u32::MAX - load_value(s[end])) as u32)
    }
}

/// Questions of which none but the last finds the count run down, and the
/// last does unless the limit is reached, are the questions that the trace
/// holds.
proof fn lemma_rounds(s: Seq<PortOp>, k: int, n: int, limit: int)
    requires
        0 <= k,
        1 <= n <= limit,
        k + 2 * n <= s.len(),
        forall|j: int| 0 <= j < n - 1 ==> !ran_down(in8_value(#[trigger] s[k + 2 * j])),
        n == limit || ran_down(in8_value(s[k + 2 * (n - 1)])),
    ensures
        rounds(s, k, limit) == n,
    decreases n,
{
    if n > 1 {
        assert(!ran_down(in8_value(s[k + 2 * 0])));
        assert forall|j: int| 0 <= j < n - 2 implies !ran_down(
            in8_value(#[trigger] s[k + 2 + 2 * j]),
        ) by {
            assert(!ran_down(in8_value(s[k + 2 * (j + 1)])));
        }
        assert(k + 2 + 2 * (n - 2) == k + 2 * (n - 1));
        lemma_rounds(s, k + 2, n - 1, limit - 1);
    }
}

/// The count of the timer of the local APIC whose registers lie at
/// `lapic`.
pub fn poll<B: RegisterBus>(bus: &mut B, lapic: usize) -> (count: u32)
    requires
        lapic <= usize::MAX - REGISTERS_SIZE,
    ensures
        final(bus).trace() == old(bus).trace().push(
            PortOp::Load((lapic + REG_CURRENT_TIMER) as usize, count),
        ),
{
    lapic_read_reg(bus, lapic, REG_CURRENT_TIMER)
}

/// Starts the interval timer and the timer of the local APIC whose
/// registers lie at `lapic`.
fn start<B: RegisterBus>(bus: &mut B, lapic: usize)
    requires
        lapic <= usize::MAX - REGISTERS_SIZE,
    ensures
        final(bus).trace() == old(bus).trace() + start_ops(
            lapic,
            in8_value(final(bus).trace()[old(bus).trace().len() as int + 7]),
        ),
{
    bus.outb(PITCONTROL, PIT_ONE_SHOT);
    bus.wait();
    bus.outb(PITCHAN2, PIT_TICKS_LOW);
    bus.wait();
    bus.outb(PITCHAN2, PIT_TICKS_HIGH);
    bus.wait();
    lapic_write_reg(bus, lapic, REG_INIT_TIMER, u32::MAX);
    let gate = bus.inb(PITGATE);
    let low = gate - gate % 2;
    bus.outb(PITGATE, low);
    bus.outb(PITGATE, low + 1);
    bus.wait();
    assert(bus.trace() =~= old(bus).trace() + start_ops(lapic, gate));
}

/// Asks the interval timer's control port until the count has run down, and
/// says whether it came to that.
fn await_gate<B: RegisterBus>(bus: &mut B) -> (done: bool)
    ensures
        extends(old(bus).trace(), final(bus).trace()),
        ({
            let k = old(bus).trace().len() as int;
            let t = final(bus).trace();
            let n = rounds(t, k, GATE_ROUNDS as int);
            &&& t.len() == k + 2 * n
            &&& asked_in(t, k, n)
            &&& done == ran_down(in8_value(t[t.len() - 2]))
        }),
{
    let ghost k = bus.trace().len() as int;
    let mut tries: usize = 0;
    let mut done = false;
    proof {
        lemma_extends_push(bus.trace(), PortOp::Wait);
    }
    while tries < GATE_ROUNDS && !done
        invariant
            tries <= GATE_ROUNDS,
            k == old(bus).trace().len(),
            bus.trace().len() == k + 2 * tries,
            extends(old(bus).trace(), bus.trace()),
            asked_in(bus.trace(), k, tries as int),
            done ==> tries > 0,
            tries > 0 ==> done == ran_down(in8_value(bus.trace()[bus.trace().len() - 2])),
            forall|j: int| 0 <= j < tries - 1 ==> !ran_down(in8_value(#[trigger] bus.trace()[k + 2 * j])),
        decreases GATE_ROUNDS - tries + (if done { 0int } else { 1int }),
    {
        let ghost before = bus.trace();
        let gate = bus.inb(PITGATE);
        let ghost asked = bus.trace();
        bus.wait();
        proof {
            let t = bus.trace();
            lemma_extends_push(before, asked.last());
            lemma_extends_push(asked, t.last());
            lemma_extends(before, asked, t);
            lemma_extends(old(bus).trace(), before, t);
            assert forall|j: int| 0 <= j < tries + 1 implies #[trigger] t[k + 2 * j] == PortOp::In8(
                PITGATE,
                in8_value(t[k + 2 * j]),
            ) && t[k + 2 * j + 1] == PortOp::Wait by {
                if j < tries {
                    assert(before[k + 2 * j] == t[k + 2 * j]);
                    assert(before[k + 2 * j + 1] == t[k + 2 * j + 1]);
                }
            }
            assert forall|j: int| 0 <= j < tries implies !ran_down(
                in8_value(#[trigger] t[k + 2 * j]),
            ) by {
                if j < tries - 1 {
                    assert(before[k + 2 * j] == t[k + 2 * j]);
                } else {
                    assert(t[k + 2 * j] == before[before.len() - 2]);
                }
            }
        }
        done = (gate / 0x20) % 2 == 1;
        tries = tries + 1;
    }
    proof {
        lemma_rounds(bus.trace(), k, tries as int, GATE_ROUNDS as int);
    }
    done
}

/// Measures how fast the timer of the local APIC whose registers lie at
/// `lapic` runs, and lets it tick a hundred times a second. Gives the
/// number of ticks of the timer in a hundredth of a second, or nothing if
/// the interval timer did not run down.
pub fn init<B: RegisterBus>(bus: &mut B, lapic: usize) -> (r: Option<u32>)
    requires
        lapic <= usize::MAX - REGISTERS_SIZE,
    ensures
        extends(old(bus).trace(), final(bus).trace()),
        match calibrated_at(final(bus).trace(), old(bus).trace().len() as int, lapic) {
            Calibration::Measured(end, ticks) => end == final(bus).trace().len() && r == Some(ticks),
            Calibration::GaveUp(end) => end == final(bus).trace().len() && r is None,
            Calibration::Mismatch => false,
        },
{
    let ghost t0 = bus.trace();
    let ghost k = t0.len() as int;
    start(bus, lapic);
    let ghost t1 = bus.trace();
    let ghost gate = in8_value(t1[k + 7]);
    proof {
        lemma_extends_add(t0, start_ops(lapic, gate));
        assert(t1.subrange(k, k + 11) =~= start_ops(lapic, gate));
    }
    let done = await_gate(bus);
    let ghost t2 = bus.trace();
    proof {
        lemma_extends_add(t0, start_ops(lapic, gate));
        lemma_extends(t0, t1, t2);
        crate::arch::x86::io::lemma_extended(t1, t2);
        crate::arch::x86::io::lemma_holds_stable(t1, t2, k, start_ops(lapic, gate));
    }
    if !done {
        return None;
    }
    let current = lapic_read_reg(bus, lapic, REG_CURRENT_TIMER);
    let ticks = u32::MAX - current;
    lapic_write_reg(bus, lapic, REG_INIT_TIMER, 0);
    lapic_write_reg(bus, lapic, REG_INIT_TIMER, ticks);
    lapic_write_reg(bus, lapic, REG_LVT_TIMER, TIMER_PERIODIC);
    proof {
        let t = bus.trace();
        assert(t =~= t2 + set_ops(lapic, current));
        lemma_extends_add(t2, set_ops(lapic, current));
        lemma_extends(t0, t2, t);
        lemma_extends(t1, t2, t);
        crate::arch::x86::io::lemma_extended(t2, t);
        crate::arch::x86::io::lemma_holds_stable(t1, t, k, start_ops(lapic, gate));
        assert(t.subrange(t2.len() as int, t2.len() as int + 4) =~= set_ops(lapic, current));
        lemma_rounds_stable(t2, t, k + 11, GATE_ROUNDS as int);
        let n = rounds(t2, k + 11, GATE_ROUNDS as int);
        assert(asked_in(t, k + 11, n));
    }
    Some(ticks)
}

/// Questions that a trace holds are held by a trace that extends it.
proof fn lemma_rounds_stable(s: Seq<PortOp>, s2: Seq<PortOp>, k: int, limit: int)
    requires
        extends(s, s2),
        0 <= k,
        k + 2 * rounds(s, k, limit) <= s.len(),
    ensures
        rounds(s2, k, limit) == rounds(s, k, limit),
    decreases limit,
{
    crate::arch::x86::io::lemma_extended(s, s2);
    if limit <= 1 || k >= s.len() || ran_down(in8_value(s[k])) {
    } else {
        lemma_rounds_stable(s, s2, k + 2, limit - 1);
    }
}

} // verus!
