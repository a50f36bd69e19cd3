//! The driver of a PCI IDE controller in compatibility mode.
//!
//! A bus of the controller is reached through three groups of ports. What
//! a drive answers decides how the driver goes on, so the contracts say
//! which accesses are made and how the result follows from the values
//! read. Where the driver waits for a drive it gives up after
//! `SPIN_LIMIT` reads of the status.

use vstd::prelude::*;
use crate::arch::x86::io::{
    extends, holds, lemma_extended, lemma_extends, lemma_extends_add, lemma_extends_push,
    lemma_holds_stable, Pio, PortBus, PortIO, PortOp,
};
use crate::driver::kbd::in8_value;
use crate::arch::x86::pci::{in32_value, select_read, select_write};
use crate::driver::pci::config::{bar_of, BarType, PCIEndpointConfig};
use crate::error::Error;

verus! {

pub const ATA_REG_DATA: u16 = 0x00;

pub const ATA_REG_ERROR: u16 = 0x01;

pub const ATA_REG_FEATURES: u16 = 0x01;

pub const ATA_REG_SECCOUNT0: u16 = 0x02;

pub const ATA_REG_LBA0: u16 = 0x03;

pub const ATA_REG_LBA1: u16 = 0x04;

pub const ATA_REG_LBA2: u16 = 0x05;

pub const ATA_REG_HDDEVSEL: u16 = 0x06;

pub const ATA_REG_COMMAND: u16 = 0x07;

pub const ATA_REG_STATUS: u16 = 0x07;

pub const ATA_REG_CONTROL: u16 = 0x0;

pub const ATA_REG_ALTSTATUS: u16 = 0x0;

pub const ATA_REG_DEVADDRESS: u16 = 0x1;

pub const ATA_REG_DMA_COMMAND: u16 = 0x0;

pub const ATA_REG_DMA_STATUS: u16 = 0x2;

pub const ATA_REG_DMA_PRDT: u16 = 0x4;

pub const ATA_CMD_READ_DMA: u8 = 0xC8;

pub const ATA_CMD_IDENTIFY: u8 = 0xEC;

/// Index of the first word of the model name in the answer to IDENTIFY.
pub const ATA_IDENT_MODEL: usize = 27;

/// Index of the low word of the number of sectors that 28 bits address.
pub const ATA_IDENT_MAX_LBA: usize = 60;

/// Number of words of the answer to IDENTIFY.
pub const IDENTIFY_WORDS: usize = 256;

/// Drive select value of the master drive, with LBA addressing.
pub const IDE_DISK_MASTER: u8 = 0xE0;

/// Drive select value of the slave drive, with LBA addressing.
pub const IDE_DISK_SLAVE: u8 = 0xF0;

/// Status bit: the drive reports an error.
pub const STATUS_ERR: u8 = 0x01;

/// Status bit: the drive has data to transfer.
pub const STATUS_DRQ: u8 = 0x08;

/// Status bit: the drive is busy.
pub const STATUS_BSY: u8 = 0x80;

/// Number of status reads after which the driver stops waiting for a drive.
pub const SPIN_LIMIT: usize = 100_000;

/// Number of status reads that give a drive time to settle.
pub const SETTLE_READS: usize = 2000;

/// I/O ports of the first bus in compatibility mode.
pub const PRIMARY_IO: u16 = 0x1f0;

/// Control ports of the first bus in compatibility mode.
pub const PRIMARY_CONTROL: u16 = 0x3f6;

/// I/O ports of the second bus in compatibility mode.
pub const SECONDARY_IO: u16 = 0x170;

/// Control ports of the second bus in compatibility mode.
pub const SECONDARY_CONTROL: u16 = 0x376;

/// One entry of the table that tells the controller where DMA data goes.
#[derive(Clone, Copy, Debug, PartialEq, Eq, Structural)]
pub struct PRD {
    pub phys_addr: u32,
    pub bytes_count: u16,
    /// Bit 15 marks the last entry of the table.
    pub msb: u16,
}

/// What a drive says of itself.
#[derive(Clone, Copy, Debug, PartialEq, Eq)]
pub struct IDEDiskInfo {
    pub model: [u8; 40],
    pub slot: u8,
    /// Number of sectors that 28 bits address.
    pub seccount: u32,
}

/// A drive: what it says of itself, and which bus of its controller it is
/// on.
#[derive(Clone, Copy, Debug, PartialEq, Eq)]
pub struct IDEDisk {
    pub info: IDEDiskInfo,
    pub bus: usize,
}

/// One bus of the controller, with up to two drives.
pub struct Bus {
    pub data: Pio<u16>,
    pub error: Pio<u8>,
    pub features: Pio<u8>,
    pub seccount: Pio<u8>,
    pub lba0: Pio<u8>,
    pub lba1: Pio<u8>,
    pub lba2: Pio<u8>,
    pub drive_select: Pio<u8>,
    pub status: Pio<u8>,
    pub command: Pio<u8>,
    pub altstatus: Pio<u8>,
    pub devctrl: Pio<u8>,
    pub driveaddrs: Pio<u8>,
    pub dma_command: Pio<u8>,
    pub dma_status: Pio<u8>,
    pub dma_prdt: [Pio<u8>; 4],
    /// The drive select value written last.
    pub active_drivesel: u8,
    pub disks: Vec<IDEDiskInfo>,
}

/// The controller with its two buses.
pub struct IDEController {
    pub buses: [Bus; 2],
}

/// Byte `i` of the model name in the answer `words`: the name's characters
/// lie in pairs, the first of each pair in the high byte of its word.
pub open spec fn model_byte(words: Seq<u16>, i: int) -> u8 {
    let w = words[ATA_IDENT_MODEL + i / 2];
    if i % 2 == 0 {
        (w / 0x100) as u8
    } else {
        (w % 0x100) as u8
    }
}

/// The number of sectors in the answer `words`.
pub open spec fn sector_count(words: Seq<u16>) -> int {
    words[ATA_IDENT_MAX_LBA as int + 1] * 0x1_0000 + words[ATA_IDENT_MAX_LBA as int]
}

/// Whether `info` is what the answer `words` says of the drive in slot
/// `slot`.
pub open spec fn describes(info: IDEDiskInfo, words: Seq<u16>, slot: u8) -> bool {
    &&& info.slot == slot
    &&& info.seccount == sector_count(words)
    &&& forall|i: int| 0 <= i < 40 ==> info.model@[i] == model_byte(words, i)
}

/// Whether `r` is what the answer `words` gives for the drive in slot
/// `slot`. A drive that reports no sector does not support 28-bit
/// addressing and is of no use.
pub open spec fn answers(r: Option<IDEDiskInfo>, words: Seq<u16>, slot: u8) -> bool {
    if sector_count(words) == 0 {
        r is None
    } else {
        r is Some && describes(r->Some_0, words, slot)
    }
}

/// What the answer `words` to IDENTIFY says of the drive in slot `slot`.
pub fn parse_identify(words: &Vec<u16>, slot: u8) -> (r: Option<IDEDiskInfo>)
    requires
        words@.len() == IDENTIFY_WORDS,
    ensures
        answers(r, words@, slot),
{
    let seccount = words[ATA_IDENT_MAX_LBA + 1] as u32 * 0x1_0000 + words[ATA_IDENT_MAX_LBA] as u32;
    if seccount == 0 {
        return None;
    }
    let mut model: [u8; 40] = [0u8; 40];
    let mut i: usize = 0;
    while i < 20
        invariant
            i <= 20,
            words@.len() == IDENTIFY_WORDS,
            forall|k: int| 0 <= k < 2 * i ==> model@[k] == model_byte(words@, k),
        decreases 20 - i,
    {
        let w = words[ATA_IDENT_MODEL + i];
        model[i * 2] = (w / 0x100) as u8;
        model[i * 2 + 1] = (w % 0x100) as u8;
        i = i + 1;
    }
    Some(IDEDiskInfo { model, slot, seccount })
}

/// Whether a status says that the drive is not busy.
pub open spec fn idle(status: u8) -> bool {
    status / 0x80 == 0
}

/// Whether a status says that the drive reports an error, or that it is not
/// busy and has data.
pub open spec fn settled(status: u8) -> bool {
    status % 2 == 1 || (status / 0x80 == 0 && (status / 8) % 2 == 1)
}

/// Whether a status of the DMA engine says that the transfer is over or
/// has failed.
pub open spec fn transferred(status: u8) -> bool {
    status % 2 == 0 || (status / 2) % 2 == 1
}

/// What the driver waits for when it reads a status again and again.
#[derive(Clone, Copy, Debug, PartialEq, Eq, Structural)]
pub enum Wanted {
    /// A drive that is not busy.
    Idle,
    /// A drive that reports an error or has data.
    Settled,
    /// A DMA engine whose transfer is over or has failed.
    Transferred,
}

impl Wanted {
    /// Whether `status` is what the driver waits for.
    pub open spec fn of(self, status: u8) -> bool {
        match self {
            Wanted::Idle => idle(status),
            Wanted::Settled => settled(status),
            Wanted::Transferred => transferred(status),
        }
    }

    /// Whether `status` is what the driver waits for.
    pub fn seen_in(self, status: u8) -> (r: bool)
        ensures
            r == self.of(status),
    {
        match self {
            Wanted::Idle => status / 0x80 == 0,
            Wanted::Settled => status % 2 == 1 || (status / 0x80 == 0 && (status / 8) % 2 == 1),
            Wanted::Transferred => status % 2 == 0 || (status / 2) % 2 == 1,
        }
    }
}

/// The value that a read of a word gave, 0 for another access.
pub open spec fn in16_value(op: PortOp) -> u16 {
    match op {
        PortOp::In16(_, v) => v,
        _ => 0,
    }
}

/// Whether the accesses of `s` from index `from` up to index `to` are there
/// and read a byte from `port`.
pub open spec fn reads_in(s: Seq<PortOp>, from: int, to: int, port: u16) -> bool {
    &&& 0 <= from <= to <= s.len()
    &&& forall|j: int| from <= j < to ==> #[trigger] s[j] == PortOp::In8(port, in8_value(s[j]))
}

/// The value of the access of `s` at index `k`, if it reads a byte from
/// `port`.
pub open spec fn read8_at(s: Seq<PortOp>, k: int, port: u16) -> Option<u8> {
    if 0 <= k < s.len() && s[k] == PortOp::In8(port, in8_value(s[k])) {
        Some(in8_value(s[k]))
    } else {
        None
    }
}

/// The number of reads that a wait makes whose first read is the access of
/// `s` at index `k`: it ends with the first status that is `wanted`, and
/// after `limit` reads at the latest.
pub open spec fn spin(s: Seq<PortOp>, k: int, limit: int, wanted: Wanted) -> int
    decreases limit,
{
    if limit <= 1 || k < 0 || k >= s.len() || wanted.of(in8_value(s[k])) {
        1
    } else {
        1 + spin(s, k + 1, limit - 1, wanted)
    }
}

/// Where a wait ends that reads `port` from index `k` of `s` on, and the
/// status read last, if the accesses of `s` are those of the wait.
pub open spec fn wait_at(s: Seq<PortOp>, k: int, port: u16, limit: int, wanted: Wanted) -> Option<
    (int, u8),
> {
    let end = k + spin(s, k, limit, wanted);
    if reads_in(s, k, end, port) {
        Some((end, in8_value(s[end - 1])))
    } else {
        None
    }
}

/// The answer to IDENTIFY that `s` holds from index `k` on, if the accesses
/// there read one from `port`.
pub open spec fn words_at(s: Seq<PortOp>, k: int, port: u16) -> Option<Seq<u16>> {
    let words = Seq::new(IDENTIFY_WORDS as nat, |i: int| in16_value(s[k + i]));
    if holds(s, k, Seq::new(IDENTIFY_WORDS as nat, |i: int| PortOp::In16(port, words[i]))) {
        Some(words)
    } else {
        None
    }
}

/// What waiting for a status does to the trace `before`: only reads of
/// `port` are appended, at least one and at most `limit`; `found` says
/// whether the last of them is a status that is `wanted`, and none before
/// the last is.
pub open spec fn waited(
    before: Seq<PortOp>,
    after: Seq<PortOp>,
    port: u16,
    limit: int,
    wanted: Wanted,
    found: bool,
) -> bool {
    &&& extends(before, after)
    &&& wait_at(after, before.len() as int, port, limit, wanted) == Some(
        (after.len() as int, in8_value(after.last())),
    )
    &&& found == wanted.of(in8_value(after.last()))
}

/// Reads that a trace holds are held by a trace that extends it.
pub proof fn lemma_reads_stable(s: Seq<PortOp>, s2: Seq<PortOp>, from: int, to: int, port: u16)
    requires
        extends(s, s2),
        reads_in(s, from, to, port),
    ensures
        reads_in(s2, from, to, port),
{
    lemma_extended(s, s2);
}

/// A wait of `n` reads, none but the last of a status that is wanted, and
/// the last of one unless the limit is reached, is the wait that the trace
/// holds.
pub proof fn lemma_spin(s: Seq<PortOp>, k: int, n: int, limit: int, wanted: Wanted)
    requires
        0 <= k,
        1 <= n <= limit,
        k + n <= s.len(),
        forall|j: int| k <= j < k + n - 1 ==> !wanted.of(in8_value(#[trigger] s[j])),
        n == limit || wanted.of(in8_value(s[k + n - 1])),
    ensures
        spin(s, k, limit, wanted) == n,
    decreases n,
{
    if n > 1 {
        assert(!wanted.of(in8_value(s[k])));
        lemma_spin(s, k + 1, n - 1, limit - 1, wanted);
    }
}

/// The reads of a wait are at least one and at most `limit`, and none but
/// the last is of a status that is wanted; the last is of one unless the
/// limit is reached.
pub proof fn lemma_spin_bounds(s: Seq<PortOp>, k: int, limit: int, wanted: Wanted)
    requires
        1 <= limit,
    ensures
        1 <= spin(s, k, limit, wanted) <= limit,
        forall|j: int|
            0 <= k <= j < k + spin(s, k, limit, wanted) - 1 && j < s.len() ==> !wanted.of(
                in8_value(#[trigger] s[j]),
            ),
        0 <= k && k + spin(s, k, limit, wanted) <= s.len() && spin(s, k, limit, wanted) < limit
            ==> wanted.of(in8_value(s[k + spin(s, k, limit, wanted) - 1])),
    decreases limit,
{
    if limit <= 1 || k < 0 || k >= s.len() || wanted.of(in8_value(s[k])) {
    } else {
        lemma_spin_bounds(s, k + 1, limit - 1, wanted);
    }
}

/// A wait that a trace holds is held by a trace that extends it.
pub proof fn lemma_spin_stable(s: Seq<PortOp>, s2: Seq<PortOp>, k: int, limit: int, wanted: Wanted)
    requires
        extends(s, s2),
        0 <= k,
        k + spin(s, k, limit, wanted) <= s.len(),
    ensures
        spin(s2, k, limit, wanted) == spin(s, k, limit, wanted),
    decreases limit,
{
    lemma_extended(s, s2);
    if limit <= 1 || k >= s.len() || wanted.of(in8_value(s[k])) {
    } else {
        lemma_spin_stable(s, s2, k + 1, limit - 1, wanted);
    }
}

/// A wait that a trace holds is held by a trace that extends it.
pub proof fn lemma_wait_stable(
    s: Seq<PortOp>,
    s2: Seq<PortOp>,
    k: int,
    port: u16,
    limit: int,
    wanted: Wanted,
)
    requires
        extends(s, s2),
        wait_at(s, k, port, limit, wanted) is Some,
    ensures
        wait_at(s2, k, port, limit, wanted) == wait_at(s, k, port, limit, wanted),
{
    lemma_extended(s, s2);
    lemma_spin_stable(s, s2, k, limit, wanted);
    lemma_reads_stable(s, s2, k, k + spin(s, k, limit, wanted), port);
    if limit >= 1 {
        lemma_spin_bounds(s, k, limit, wanted);
    }
}

/// What a wait did is what any trace holds that extends the trace after
/// it.
pub proof fn lemma_waited(
    before: Seq<PortOp>,
    after: Seq<PortOp>,
    port: u16,
    limit: int,
    wanted: Wanted,
    found: bool,
    s: Seq<PortOp>,
)
    requires
        waited(before, after, port, limit, wanted, found),
        extends(after, s),
    ensures
        wait_at(s, before.len() as int, port, limit, wanted) == Some(
            (after.len() as int, in8_value(after.last())),
        ),
        before.len() < after.len(),
        extends(before, s),
{
    lemma_wait_stable(after, s, before.len() as int, port, limit, wanted);
    lemma_extends(before, after, s);
}

/// An answer to IDENTIFY that a trace holds is held by a trace that
/// extends it.
pub proof fn lemma_words_stable(s: Seq<PortOp>, s2: Seq<PortOp>, k: int, port: u16)
    requires
        extends(s, s2),
        words_at(s, k, port) is Some,
    ensures
        words_at(s2, k, port) == words_at(s, k, port),
{
    lemma_extended(s, s2);
    let words = Seq::new(IDENTIFY_WORDS as nat, |i: int| in16_value(s[k + i]));
    let words2 = Seq::new(IDENTIFY_WORDS as nat, |i: int| in16_value(s2[k + i]));
    assert(words2 =~= words);
    let ops = Seq::new(IDENTIFY_WORDS as nat, |i: int| PortOp::In16(port, words[i]));
    let ops2 = Seq::new(IDENTIFY_WORDS as nat, |i: int| PortOp::In16(port, words2[i]));
    assert(ops2 =~= ops);
    lemma_holds_stable(s, s2, k, ops);
}

/// The accesses that prepare and send the IDENTIFY command.
pub open spec fn identify_ops(bus: &Bus) -> Seq<PortOp> {
    seq![
        PortOp::Out8(bus.seccount.port, 0),
        PortOp::Out8(bus.lba0.port, 0),
        PortOp::Out8(bus.lba1.port, 0),
        PortOp::Out8(bus.lba2.port, 0),
        PortOp::Out8(bus.command.port, ATA_CMD_IDENTIFY),
    ]
}

/// How the question what a drive is ended.
pub enum Probed {
    /// There is no answer; the accesses up to this index were made.
    Silent(int),
    /// The accesses up to this index were made, and the drive gave this
    /// answer.
    Answer(int, Seq<u16>),
    /// The accesses are not those of the question.
    Mismatch,
}

impl Probed {
    /// The index up to which the accesses were made.
    pub open spec fn end(self) -> int {
        match self {
            Probed::Silent(end) => end,
            Probed::Answer(end, _) => end,
            Probed::Mismatch => -1,
        }
    }

    /// Whether the drive gave an answer that `parse_identify` accepts.
    pub open spec fn usable(self) -> bool {
        self is Answer && sector_count(self->Answer_1) != 0
    }
}

/// What asking the selected drive of `b` what it is does, where the
/// accesses of `s` from index `k` on are those that it makes. The command
/// is sent and the status read. A status of 0 says that no drive is there.
/// Else the driver waits until the drive is not busy; both of the two
/// registers that it then reads are 0 for an ATA drive. Then it waits until
/// the drive has data or reports an error, and reads the answer. There is
/// no answer where no drive is there, where it is no ATA drive, reports an
/// error or keeps the driver waiting too long.
#[verifier::opaque]
pub open spec fn probe_at(s: Seq<PortOp>, k: int, b: &Bus) -> Probed {
    if !holds(s, k, identify_ops(b)) {
        Probed::Mismatch
    } else {
        match read8_at(s, k + 5, b.status.port) {
            None => Probed::Mismatch,
            Some(first) => if first == 0 {
                Probed::Silent(k + 6)
            } else {
                match wait_at(s, k + 6, b.status.port, SPIN_LIMIT as int, Wanted::Idle) {
                    None => Probed::Mismatch,
                    Some((k1, status)) => if !idle(status) {
                        Probed::Silent(k1)
                    } else {
                        identified_at(s, k1, b)
                    },
                }
            },
        }
    }
}

/// How the question what a drive is goes on from index `k` of `s`, once
/// the drive is not busy.
pub open spec fn identified_at(s: Seq<PortOp>, k: int, b: &Bus) -> Probed {
    match (read8_at(s, k, b.lba1.port), read8_at(s, k + 1, b.lba2.port)) {
        (Some(mid), Some(high)) => if mid != 0 || high != 0 {
            Probed::Silent(k + 2)
        } else {
            match wait_at(s, k + 2, b.status.port, SPIN_LIMIT as int, Wanted::Settled) {
                None => Probed::Mismatch,
                Some((k2, status)) => if !settled(status) || status % 2 == 1 {
                    Probed::Silent(k2)
                } else {
                    match words_at(s, k2, b.data.port) {
                        None => Probed::Mismatch,
                        Some(words) => Probed::Answer(k2 + IDENTIFY_WORDS, words),
                    }
                },
            }
        },
        _ => Probed::Mismatch,
    }
}

/// What a question did is what any trace says that extends the trace
/// after it.
pub proof fn lemma_identified_stable(s: Seq<PortOp>, s2: Seq<PortOp>, k: int, b: &Bus)
    requires
        extends(s, s2),
        !(identified_at(s, k, b) is Mismatch),
    ensures
        identified_at(s2, k, b) == identified_at(s, k, b),
        k < identified_at(s, k, b).end() <= s.len(),
{
    lemma_extended(s, s2);
    let mid = read8_at(s, k, b.lba1.port)->Some_0;
    let high = read8_at(s, k + 1, b.lba2.port)->Some_0;
    if mid == 0 && high == 0 {
        lemma_wait_stable(s, s2, k + 2, b.status.port, SPIN_LIMIT as int, Wanted::Settled);
        lemma_spin_bounds(s, k + 2, SPIN_LIMIT as int, Wanted::Settled);
        let w = wait_at(s, k + 2, b.status.port, SPIN_LIMIT as int, Wanted::Settled)->Some_0;
        if settled(w.1) && w.1 % 2 != 1 {
            lemma_words_stable(s, s2, w.0, b.data.port);
        }
    }
}

/// What a question did is what any trace says that extends the trace
/// after it.
pub proof fn lemma_probe_stable(s: Seq<PortOp>, s2: Seq<PortOp>, k: int, b: &Bus)
    requires
        extends(s, s2),
        !(probe_at(s, k, b) is Mismatch),
    ensures
        probe_at(s2, k, b) == probe_at(s, k, b),
        k < probe_at(s, k, b).end() <= s.len(),
{
    reveal(probe_at);
    lemma_extended(s, s2);
    lemma_holds_stable(s, s2, k, identify_ops(b));
    let first = read8_at(s, k + 5, b.status.port)->Some_0;
    if first != 0 {
        lemma_wait_stable(s, s2, k + 6, b.status.port, SPIN_LIMIT as int, Wanted::Idle);
        lemma_spin_bounds(s, k + 6, SPIN_LIMIT as int, Wanted::Idle);
        let w = wait_at(s, k + 6, b.status.port, SPIN_LIMIT as int, Wanted::Idle)->Some_0;
        if idle(w.1) {
            lemma_identified_stable(s, s2, w.0, b);
        }
    }
}

/// Whether the accesses of `s` from index `k` on select the drive of `b`
/// with select value `id` and give it time to settle.
pub open spec fn select_at(s: Seq<PortOp>, k: int, b: &Bus, id: u8) -> bool {
    &&& 0 <= k < s.len()
    &&& s[k] == PortOp::Out8(b.drive_select.port, id)
    &&& reads_in(s, k + 1, k + 1 + SETTLE_READS, b.status.port)
}

/// What looking for the two drives of `b` does, where the accesses of `s`
/// from index `k` on are those that it makes: the master drive is selected
/// and asked what it is, then the slave drive. The result is the index up
/// to which accesses were made and how the two questions ended.
#[verifier::opaque]
pub open spec fn found_at(s: Seq<PortOp>, k: int, b: &Bus) -> Option<(int, Probed, Probed)> {
    let master = probe_at(s, k + 1 + SETTLE_READS, b);
    let slave = probe_at(s, master.end() + 1 + SETTLE_READS, b);
    if select_at(s, k, b, IDE_DISK_MASTER) && !(master is Mismatch) && select_at(
        s,
        master.end(),
        b,
        IDE_DISK_SLAVE,
    ) && !(slave is Mismatch) {
        Some((slave.end(), master, slave))
    } else {
        None
    }
}

/// Whether `disks` are the drives that the answers of the master and the
/// slave drive tell of, the master first.
pub open spec fn listed(disks: Seq<IDEDiskInfo>, master: Probed, slave: Probed) -> bool {
    let first: int = if master.usable() {
        1
    } else {
        0
    };
    let second: int = if slave.usable() {
        1
    } else {
        0
    };
    &&& disks.len() == first + second
    &&& master.usable() ==> describes(disks[0], master->Answer_1, IDE_DISK_MASTER)
    &&& slave.usable() ==> describes(disks[first], slave->Answer_1, IDE_DISK_SLAVE)
}

/// Whether two buses have the same ports.
pub open spec fn same_ports(a: &Bus, b: &Bus) -> bool {
    *a == (Bus { disks: a.disks, active_drivesel: a.active_drivesel, ..*b })
}

/// What a search for drives did is what any trace says that extends the
/// trace after it.
pub proof fn lemma_found_stable(s: Seq<PortOp>, s2: Seq<PortOp>, k: int, b: &Bus)
    requires
        extends(s, s2),
        found_at(s, k, b) is Some,
    ensures
        found_at(s2, k, b) == found_at(s, k, b),
        k < found_at(s, k, b)->Some_0.0 <= s.len(),
{
    reveal(found_at);
    lemma_extended(s, s2);
    let master = probe_at(s, k + 1 + SETTLE_READS, b);
    lemma_probe_stable(s, s2, k + 1 + SETTLE_READS, b);
    lemma_probe_stable(s, s2, master.end() + 1 + SETTLE_READS, b);
}

impl Bus {
    /// The ports are those of a bus with the three port groups at `iobase`,
    /// `controlbase` and `dmabase`.
    pub open spec fn at(&self, iobase: u16, controlbase: u16, dmabase: u16) -> bool {
        &&& self.data.port == iobase + ATA_REG_DATA
        &&& self.error.port == iobase + ATA_REG_ERROR
        &&& self.features.port == iobase + ATA_REG_FEATURES
        &&& self.seccount.port == iobase + ATA_REG_SECCOUNT0
        &&& self.lba0.port == iobase + ATA_REG_LBA0
        &&& self.lba1.port == iobase + ATA_REG_LBA1
        &&& self.lba2.port == iobase + ATA_REG_LBA2
        &&& self.drive_select.port == iobase + ATA_REG_HDDEVSEL
        &&& self.status.port == iobase + ATA_REG_STATUS
        &&& self.command.port == iobase + ATA_REG_COMMAND
        &&& self.altstatus.port == controlbase + ATA_REG_ALTSTATUS
        &&& self.devctrl.port == controlbase + ATA_REG_CONTROL
        &&& self.driveaddrs.port == controlbase + ATA_REG_DEVADDRESS
        &&& self.dma_command.port == dmabase + ATA_REG_DMA_COMMAND
        &&& self.dma_status.port == dmabase + ATA_REG_DMA_STATUS
        &&& forall|i: int| 0 <= i < 4 ==> (#[trigger] self.dma_prdt@[i]).port == dmabase + ATA_REG_DMA_PRDT + i
    }

    /// The bus whose port groups start at `iobase`, `controlbase` and
    /// `dmabase`, with no drive selected and none known.
    pub fn new(iobase: u16, controlbase: u16, dmabase: u16) -> (b: Self)
        requires
            iobase <= 0xfff8,
            controlbase <= 0xfffe,
            dmabase <= 0xfff8,
        ensures
            b.at(iobase, controlbase, dmabase),
            b.active_drivesel == 0,
            b.disks@.len() == 0,
    {
        Bus {
            active_drivesel: 0,
            data: Pio::new(iobase + ATA_REG_DATA),
            error: Pio::new(iobase + ATA_REG_ERROR),
            features: Pio::new(iobase + ATA_REG_FEATURES),
            seccount: Pio::new(iobase + ATA_REG_SECCOUNT0),
            lba0: Pio::new(iobase + ATA_REG_LBA0),
            lba1: Pio::new(iobase + ATA_REG_LBA1),
            lba2: Pio::new(iobase + ATA_REG_LBA2),
            drive_select: Pio::new(iobase + ATA_REG_HDDEVSEL),
            status: Pio::new(iobase + ATA_REG_STATUS),
            command: Pio::new(iobase + ATA_REG_COMMAND),
            altstatus: Pio::new(controlbase + ATA_REG_ALTSTATUS),
            devctrl: Pio::new(controlbase + ATA_REG_CONTROL),
            driveaddrs: Pio::new(controlbase + ATA_REG_DEVADDRESS),
            dma_command: Pio::new(dmabase + ATA_REG_DMA_COMMAND),
            dma_status: Pio::new(dmabase + ATA_REG_DMA_STATUS),
            dma_prdt: [
                Pio::new(dmabase + ATA_REG_DMA_PRDT),
                Pio::new(dmabase + ATA_REG_DMA_PRDT + 1),
                Pio::new(dmabase + ATA_REG_DMA_PRDT + 2),
                Pio::new(dmabase + ATA_REG_DMA_PRDT + 3),
            ],
            disks: Vec::new(),
        }
    }

    /// Reads the status `SETTLE_READS` times, which gives the drive the time
    /// it needs after it was selected.
    pub fn wait<B: PortBus>(&self, bus: &mut B)
        ensures
            extends(old(bus).trace(), final(bus).trace()),
            reads_in(
                final(bus).trace(),
                old(bus).trace().len() as int,
                final(bus).trace().len() as int,
                self.status.port,
            ),
            final(bus).trace().len() == old(bus).trace().len() + SETTLE_READS,
    {
        let mut i: usize = 0;
        assert(bus.trace().subrange(0, old(bus).trace().len() as int) =~= old(bus).trace());
        while i < SETTLE_READS
            invariant
                i <= SETTLE_READS,
                bus.trace().len() == old(bus).trace().len() + i,
                extends(old(bus).trace(), bus.trace()),
                reads_in(
                    bus.trace(),
                    old(bus).trace().len() as int,
                    bus.trace().len() as int,
                    self.status.port,
                ),
            decreases SETTLE_READS - i,
        {
            let ghost before = bus.trace();
            let _ = self.status.read(bus);
            proof {
                lemma_extends_push(before, bus.trace().last());
                lemma_extends(old(bus).trace(), before, bus.trace());
            }
            i = i + 1;
        }
    }

    /// Selects the drive with select value `id` and gives it time to
    /// settle.
    pub fn select_slot<B: PortBus>(&mut self, bus: &mut B, id: u8)
        ensures
            *final(self) == (Bus { active_drivesel: id, ..*old(self) }),
            extends(old(bus).trace(), final(bus).trace()),
            select_at(final(bus).trace(), old(bus).trace().len() as int, old(self), id),
            final(bus).trace().len() == old(bus).trace().len() + 1 + SETTLE_READS,
    {
        self.active_drivesel = id;
        self.drive_select.write(bus, id);
        let ghost t = bus.trace();
        proof {
            lemma_extends_push(old(bus).trace(), t.last());
        }
        self.wait(bus);
        proof {
            lemma_extends(old(bus).trace(), t, bus.trace());
            lemma_extended(t, bus.trace());
        }
    }

    /// Reads the status at `port` until it is `wanted`, and gives the last
    /// status read if it came to that.
    fn wait_for<B: PortBus>(port: &Pio<u8>, bus: &mut B, wanted: Wanted) -> (r: Option<u8>)
        ensures
            waited(
                old(bus).trace(),
                final(bus).trace(),
                port.port,
                SPIN_LIMIT as int,
                wanted,
                r is Some,
            ),
            r is Some ==> r->Some_0 == in8_value(final(bus).trace().last()),
    {
        let mut tries: usize = 0;
        let mut last: Option<u8> = None;
        let ghost k = old(bus).trace().len() as int;
        proof {
            lemma_extends_push(old(bus).trace(), PortOp::Wait);
        }
        while tries < SPIN_LIMIT && last.is_none()
            invariant
                tries <= SPIN_LIMIT,
                k == old(bus).trace().len(),
                bus.trace().len() == k + tries,
                extends(old(bus).trace(), bus.trace()),
                reads_in(bus.trace(), k, bus.trace().len() as int, port.port),
                last is Some ==> tries > 0 && last->Some_0 == in8_value(bus.trace().last()),
                tries > 0 ==> (last is Some) == wanted.of(in8_value(bus.trace().last())),
                forall|j: int|
                    k <= j < bus.trace().len() - 1 ==> !wanted.of(in8_value(#[trigger] bus.trace()[j])),
            decreases SPIN_LIMIT - tries + (if last is Some { 0int } else { 1int }),
        {
            let ghost before = bus.trace();
            let status = port.read(bus);
            proof {
                lemma_extends_push(before, bus.trace().last());
                lemma_extends(old(bus).trace(), before, bus.trace());
            }
            if wanted.seen_in(status) {
                last = Some(status);
            }
            tries = tries + 1;
        }
        proof {
            lemma_spin(bus.trace(), k, tries as int, SPIN_LIMIT as int, wanted);
        }
        last
    }

    /// Reads the status until the drive is not busy, and says whether it
    /// came to that.
    pub fn poll<B: PortBus>(&self, bus: &mut B) -> (found: bool)
        ensures
            waited(
                old(bus).trace(),
                final(bus).trace(),
                self.status.port,
                SPIN_LIMIT as int,
                Wanted::Idle,
                found,
            ),
    {
        Self::wait_for(&self.status, bus, Wanted::Idle).is_some()
    }

    /// Reads the answer to IDENTIFY from the data port.
    pub fn read_identify<B: PortBus>(&self, bus: &mut B) -> (words: Vec<u16>)
        ensures
            words@.len() == IDENTIFY_WORDS,
            final(bus).trace() == old(bus).trace() + Seq::new(
                IDENTIFY_WORDS as nat,
                |i: int| PortOp::In16(self.data.port, words@[i]),
            ),
            words_at(final(bus).trace(), old(bus).trace().len() as int, self.data.port) == Some(
                words@,
            ),
    {
        let mut words: Vec<u16> = Vec::new();
        let mut i: usize = 0;
        assert(bus.trace() =~= old(bus).trace() + Seq::new(
            0,
            |i: int| PortOp::In16(self.data.port, words@[i]),
        ));
        while i < IDENTIFY_WORDS
            invariant
                i <= IDENTIFY_WORDS,
                words@.len() == i,
                bus.trace() == old(bus).trace() + Seq::new(
                    i as nat,
                    |k: int| PortOp::In16(self.data.port, words@[k]),
                ),
            decreases IDENTIFY_WORDS - i,
        {
            let w = self.data.read(bus);
            words.push(w);
            assert(bus.trace() =~= old(bus).trace() + Seq::new(
                (i + 1) as nat,
                |k: int| PortOp::In16(self.data.port, words@[k]),
            ));
            i = i + 1;
        }
        proof {
            let t = bus.trace();
            let k = old(bus).trace().len() as int;
            let read = Seq::new(IDENTIFY_WORDS as nat, |i: int| in16_value(t[k + i]));
            assert(read =~= words@);
            let ops = Seq::new(IDENTIFY_WORDS as nat, |i: int| PortOp::In16(self.data.port, read[i]));
            assert(t.subrange(k, k + ops.len()) =~= ops);
        }
        words
    }

    /// Asks the selected drive what it is. There is no answer if no drive
    /// is there, if the drive is not an ATA drive, reports an error, does
    /// not support 28-bit addressing or keeps the driver waiting too long.
    /// An answer is that of `parse_identify` on the words read.
    pub fn probe<B: PortBus>(&mut self, bus: &mut B) -> (r: Option<IDEDiskInfo>)
        ensures
            *final(self) == *old(self),
            extends(old(bus).trace(), final(bus).trace()),
            match probe_at(final(bus).trace(), old(bus).trace().len() as int, old(self)) {
                Probed::Silent(end) => end == final(bus).trace().len() && r is None,
                Probed::Answer(end, words) => end == final(bus).trace().len() && answers(
                    r,
                    words,
                    old(self).active_drivesel,
                ),
                Probed::Mismatch => false,
            },
    {
        let ghost t0 = bus.trace();
        let ghost k = t0.len() as int;
        self.seccount.write(bus, 0);
        self.lba0.write(bus, 0);
        self.lba1.write(bus, 0);
        self.lba2.write(bus, 0);
        self.command.write(bus, ATA_CMD_IDENTIFY);
        let ghost sent = bus.trace();
        let first = self.status.read(bus);
        let ghost answered = bus.trace();
        proof {
            reveal(probe_at);
            assert(sent =~= t0 + identify_ops(self));
            lemma_extends_add(t0, identify_ops(self));
            lemma_extends_push(sent, answered.last());
            lemma_extends(t0, sent, answered);
            assert(answered.subrange(k, k + 5) =~= identify_ops(self));
            lemma_extends_push(answered, PortOp::Wait);
        }
        if first == 0 {
            return None;
        }
        let idle_seen = self.poll(bus);
        let ghost t1 = bus.trace();
        proof {
            lemma_extends_push(t1, PortOp::Wait);
            lemma_waited(answered, t1, self.status.port, SPIN_LIMIT as int, Wanted::Idle, idle_seen, t1);
            lemma_holds_stable(answered, t1, k, identify_ops(self));
            lemma_extended(answered, t1);
            lemma_extends(t0, answered, t1);
        }
        if !idle_seen {
            return None;
        }
        let r = self.identified(bus);
        proof {
            let t = bus.trace();
            lemma_waited(answered, t1, self.status.port, SPIN_LIMIT as int, Wanted::Idle, idle_seen, t);
            lemma_extends(answered, t1, t);
            lemma_holds_stable(answered, t, k, identify_ops(self));
            lemma_extended(answered, t);
            lemma_extends(t0, answered, t);
        }
        r
    }

    /// Goes on with the question what the selected drive is, once the
    /// drive is not busy.
    fn identified<B: PortBus>(&self, bus: &mut B) -> (r: Option<IDEDiskInfo>)
        ensures
            extends(old(bus).trace(), final(bus).trace()),
            match identified_at(final(bus).trace(), old(bus).trace().len() as int, self) {
                Probed::Silent(end) => end == final(bus).trace().len() && r is None,
                Probed::Answer(end, words) => end == final(bus).trace().len() && answers(
                    r,
                    words,
                    self.active_drivesel,
                ),
                Probed::Mismatch => false,
            },
    {
        let ghost t0 = bus.trace();
        let ghost k = t0.len() as int;
        let mid = self.lba1.read(bus);
        let ghost t1 = bus.trace();
        let high = self.lba2.read(bus);
        let ghost t2 = bus.trace();
        proof {
            lemma_extends_push(t0, t1.last());
            lemma_extends_push(t1, t2.last());
            lemma_extends(t0, t1, t2);
        }
        if mid != 0 || high != 0 {
            return None;
        }
        let status = Self::wait_for(&self.status, bus, Wanted::Settled);
        let ghost t3 = bus.trace();
        proof {
            lemma_extends_push(t3, PortOp::Wait);
            lemma_waited(
                t2,
                t3,
                self.status.port,
                SPIN_LIMIT as int,
                Wanted::Settled,
                status is Some,
                t3,
            );
            lemma_extended(t2, t3);
            lemma_extends(t0, t2, t3);
        }
        match status {
            None => {
                return None;
            },
            Some(s) => {
                if s % 2 == 1 {
                    return None;
                }
            },
        }
        let words = self.read_identify(bus);
        proof {
            let t = bus.trace();
            lemma_extends_add(
                t3,
                Seq::new(IDENTIFY_WORDS as nat, |i: int| PortOp::In16(self.data.port, words@[i])),
            );
            lemma_waited(
                t2,
                t3,
                self.status.port,
                SPIN_LIMIT as int,
                Wanted::Settled,
                status is Some,
                t,
            );
            lemma_extends(t2, t3, t);
            lemma_extended(t2, t);
            lemma_extends(t0, t2, t);
        }
        parse_identify(&words, self.active_drivesel)
    }
}

/// Largest sector number that 28 bits hold, plus one.
pub const LBA28_LIMIT: u32 = 0x1000_0000;

/// Status bit of the DMA engine: a transfer is under way.
pub const DMA_ACTIVE: u8 = 0x01;

/// Status bit of the DMA engine: the transfer failed.
pub const DMA_ERROR: u8 = 0x02;

/// Byte `i` of `word`, the lowest first.
pub open spec fn byte_of(word: u32, i: int) -> u8 {
    if i == 0 {
        (word % 0x100) as u8
    } else if i == 1 {
        ((word / 0x100) % 0x100) as u8
    } else if i == 2 {
        ((word / 0x1_0000) % 0x100) as u8
    } else {
        (word / 0x100_0000) as u8
    }
}

/// How a read by DMA ended.
pub enum Transfer {
    /// The accesses up to this index were made, and the sector was read or
    /// was not.
    Done(int, bool),
    /// The accesses are not those of a read.
    Mismatch,
}

impl Bus {
    /// The accesses that tell the DMA engine that the table of the transfer
    /// lies at physical address `prdt_address`.
    pub open spec fn table_ops(&self, prdt_address: u32) -> Seq<PortOp> {
        Seq::new(4, |i: int| PortOp::Out8(self.dma_prdt@[i].port, byte_of(prdt_address, i)))
    }

    /// The accesses that stop the DMA engine and tell it where the table of
    /// the transfer lies, where the engine's command register held
    /// `command`.
    pub open spec fn prepare_ops(&self, prdt_address: u32, command: u8) -> Seq<PortOp> {
        seq![
            PortOp::In8(self.dma_command.port, command),
            PortOp::Out8(self.dma_command.port, (command - command % 2) as u8),
        ] + self.table_ops(prdt_address)
    }

    /// The accesses that set the DMA engine to read, clear its error and
    /// interrupt bits, hand sector number `lba` to the selected drive with
    /// the command to read one sector, and start the engine, where the
    /// engine's command register held `command` before and `started` after
    /// the drive got its command, and the drive select register held
    /// `select`.
    pub open spec fn start_ops(&self, lba: u32, command: u8, select: u8, started: u8) -> Seq<PortOp> {
        seq![
            PortOp::In8(self.dma_command.port, command),
            PortOp::Out8(self.dma_command.port, command | 0x08),
            PortOp::Out8(self.dma_status.port, 0x06),
            PortOp::Out8(self.lba0.port, byte_of(lba, 0)),
            PortOp::Out8(self.lba1.port, byte_of(lba, 1)),
            PortOp::Out8(self.lba2.port, byte_of(lba, 2)),
            PortOp::In8(self.drive_select.port, select),
            PortOp::Out8(self.drive_select.port, select | byte_of(lba, 3)),
            PortOp::Out8(self.seccount.port, 1),
            PortOp::Out8(self.command.port, ATA_CMD_READ_DMA),
            PortOp::In8(self.dma_command.port, started),
            PortOp::Out8(self.dma_command.port, started | 0x01),
        ]
    }

    /// What a read of sector `lba` by DMA does, where the accesses of `s`
    /// from index `k` on are those that it makes: the engine is prepared
    /// and started, and the driver waits until the drive is not busy. It
    /// then reads the engine's status once and, if the drive did not keep
    /// it waiting too long, again until the transfer is over or has
    /// failed. The sector was read if it came to that and the last status
    /// does not say that a transfer is under way.
    pub open spec fn transfer_at(&self, s: Seq<PortOp>, k: int, lba: u32, prdt_address: u32) -> Transfer {
        let prepare = self.prepare_ops(prdt_address, in8_value(s[k]));
        let start = self.start_ops(
            lba,
            in8_value(s[k + 6]),
            in8_value(s[k + 12]),
            in8_value(s[k + 16]),
        );
        if !holds(s, k, prepare + start) {
            Transfer::Mismatch
        } else {
            match wait_at(s, k + 18, self.status.port, SPIN_LIMIT as int, Wanted::Idle) {
                None => Transfer::Mismatch,
                Some((k1, status)) => match read8_at(s, k1, self.dma_status.port) {
                    None => Transfer::Mismatch,
                    Some(_) => if !idle(status) {
                        Transfer::Done(k1 + 1, false)
                    } else {
                        match wait_at(
                            s,
                            k1 + 1,
                            self.dma_status.port,
                            SPIN_LIMIT as int,
                            Wanted::Transferred,
                        ) {
                            None => Transfer::Mismatch,
                            Some((k2, last)) => Transfer::Done(k2, transferred(last) && last % 2 == 0),
                        }
                    },
                },
            }
        }
    }

    /// Tells the DMA engine where the table of the transfer lies.
    pub fn set_table<B: PortBus>(&self, bus: &mut B, prdt_address: u32)
        ensures
            final(bus).trace() == old(bus).trace() + self.table_ops(prdt_address),
    {
        self.dma_prdt[0].write(bus, (prdt_address % 0x100) as u8);
        self.dma_prdt[1].write(bus, ((prdt_address / 0x100) % 0x100) as u8);
        self.dma_prdt[2].write(bus, ((prdt_address / 0x1_0000) % 0x100) as u8);
        self.dma_prdt[3].write(bus, (prdt_address / 0x100_0000) as u8);
        assert(bus.trace() =~= old(bus).trace() + self.table_ops(prdt_address));
    }

    /// Stops the DMA engine and tells it where the table of the transfer
    /// lies.
    fn prepare<B: PortBus>(&self, bus: &mut B, prdt_address: u32)
        ensures
            final(bus).trace() == old(bus).trace() + self.prepare_ops(
                prdt_address,
                in8_value(final(bus).trace()[old(bus).trace().len() as int]),
            ),
    {
        let com = self.dma_command.read(bus);
        self.dma_command.write(bus, com - com % 2);
        self.set_table(bus, prdt_address);
        assert(bus.trace() =~= old(bus).trace() + self.prepare_ops(prdt_address, com));
    }

    /// Sets the DMA engine to read, hands the sector number and the command
    /// to the selected drive, and starts the engine.
    fn start<B: PortBus>(&self, bus: &mut B, lba: u32)
        requires
            lba < LBA28_LIMIT,
        ensures
            ({
                let k = old(bus).trace().len() as int;
                let t = final(bus).trace();
                t == old(bus).trace() + self.start_ops(
                    lba,
                    in8_value(t[k]),
                    in8_value(t[k + 6]),
                    in8_value(t[k + 10]),
                )
            }),
    {
        let com = self.dma_command.read(bus);
        self.dma_command.write(bus, com | 0x08);
        self.dma_status.write(bus, 0x06);
        self.lba0.write(bus, (lba % 0x100) as u8);
        self.lba1.write(bus, ((lba / 0x100) % 0x100) as u8);
        self.lba2.write(bus, ((lba / 0x1_0000) % 0x100) as u8);
        let select = self.drive_select.read(bus);
        self.drive_select.write(bus, select | (lba / 0x100_0000) as u8);
        self.seccount.write(bus, 1);
        self.command.write(bus, ATA_CMD_READ_DMA);
        let started = self.dma_command.read(bus);
        self.dma_command.write(bus, started | 0x01);
        assert(bus.trace() =~= old(bus).trace() + self.start_ops(lba, com, select, started));
    }

    /// Reads sector `lba` of the selected drive by DMA to where the table
    /// at physical address `prdt_address` says. A sector number that 28
    /// bits do not hold is refused before any port is touched. The read
    /// fails if the drive or the DMA engine keeps the driver waiting too
    /// long, or if the engine reports an error.
    pub fn read_dma<B: PortBus>(&mut self, bus: &mut B, lba: u32, prdt_address: u32) -> (r: Result<
        (),
        (),
    >)
        ensures
            *final(self) == *old(self),
            lba >= LBA28_LIMIT ==> r is Err && final(bus).trace() == old(bus).trace(),
            lba < LBA28_LIMIT ==> extends(old(bus).trace(), final(bus).trace()) && old(
                self,
            ).transfer_at(final(bus).trace(), old(bus).trace().len() as int, lba, prdt_address)
                == Transfer::Done(final(bus).trace().len() as int, r is Ok),
    {
        if lba >= LBA28_LIMIT {
            return Err(());
        }
        let ghost t0 = bus.trace();
        let ghost k = t0.len() as int;
        self.prepare(bus, prdt_address);
        let ghost t1 = bus.trace();
        self.start(bus, lba);
        let ghost t2 = bus.trace();
        let ghost prepare = self.prepare_ops(prdt_address, in8_value(t1[k]));
        let ghost start = self.start_ops(
            lba,
            in8_value(t2[k + 6]),
            in8_value(t2[k + 12]),
            in8_value(t2[k + 16]),
        );
        proof {
            assert(t2 =~= t0 + (prepare + start));
            lemma_extends_add(t0, prepare + start);
            assert(t2.subrange(k, k + 18) =~= prepare + start);
        }
        let idle_seen = self.poll(bus);
        let ghost t3 = bus.trace();
        let _ = self.dma_status.read(bus);
        let ghost t4 = bus.trace();
        proof {
            lemma_extends_push(t3, t4.last());
            lemma_waited(t2, t3, self.status.port, SPIN_LIMIT as int, Wanted::Idle, idle_seen, t4);
            lemma_extends(t2, t3, t4);
            lemma_extended(t2, t4);
            lemma_extended(t3, t4);
            lemma_holds_stable(t2, t4, k, prepare + start);
            lemma_extends(t0, t2, t4);
        }
        if !idle_seen {
            return Err(());
        }
        let status = Self::wait_for(&self.dma_status, bus, Wanted::Transferred);
        proof {
            let t = bus.trace();
            lemma_extends_push(t, PortOp::Wait);
            lemma_waited(
                t4,
                t,
                self.dma_status.port,
                SPIN_LIMIT as int,
                Wanted::Transferred,
                status is Some,
                t,
            );
            lemma_extends(t3, t4, t);
            lemma_waited(t2, t3, self.status.port, SPIN_LIMIT as int, Wanted::Idle, idle_seen, t);
            lemma_extended(t2, t);
            lemma_extended(t4, t);
            lemma_holds_stable(t2, t, k, prepare + start);
            lemma_extends(t0, t2, t);
        }
        match status {
            None => Err(()),
            Some(s) => if s % 2 == 0 {
                Ok(())
            } else {
                Err(())
            },
        }
    }
}

/// Whether a programming interface byte is that of a controller which the
/// driver can handle: both buses in compatibility mode, and bus mastering.
pub open spec fn supported(progif: u8) -> bool {
    progif % 2 == 0 && (progif / 4) % 2 == 0 && progif / 0x80 == 1
}

/// The base of the DMA ports that base address register 4 names, if it
/// names ports that a bus can use.
pub open spec fn dma_base(raw: u32) -> Option<u16> {
    match bar_of(raw) {
        BarType::IO(v) => if v <= 0xfff0 {
            Some(v as u16)
        } else {
            None
        },
        BarType::MMIO(_) => None,
    }
}

/// The accesses that set the bus master bit in the command register that
/// is reached with `base`, where the register held `raw`.
pub open spec fn enable_ops(base: u32, raw: u32) -> Seq<PortOp> {
    select_read(base | 0x4, raw) + select_write(base | 0x4, raw | 0x4)
}

/// Whether `c` is the controller that a search with the accesses of `s`
/// from index `k` on finds, for the function whose command register is
/// reached with `base`: base address register 4 is read and names the DMA
/// ports, the drives of the first bus are looked for and then those of the
/// second, and bus mastering is switched on.
pub open spec fn controller_at(s: Seq<PortOp>, k: int, base: u32, c: IDEController) -> bool {
    let dma = dma_base(in32_value(s[k + 1]));
    let first = &c.buses@[0];
    let second = &c.buses@[1];
    &&& dma is Some
    &&& first.at(PRIMARY_IO, PRIMARY_CONTROL, dma->Some_0)
    &&& second.at(SECONDARY_IO, SECONDARY_CONTROL, (dma->Some_0 + 8) as u16)
    &&& first.active_drivesel == IDE_DISK_SLAVE
    &&& second.active_drivesel == IDE_DISK_SLAVE
    &&& match found_at(s, k + 2, first) {
        None => false,
        Some((k1, master, slave)) => listed(first.disks@, master, slave) && match found_at(
            s,
            k1,
            second,
        ) {
            None => false,
            Some((k2, master, slave)) => listed(second.disks@, master, slave) && holds(
                s,
                k2,
                enable_ops(base, in32_value(s[k2 + 1])),
            ) && s.len() == k2 + 4,
        },
    }
}

impl IDEController {
    /// The two buses of the controller of `config`, each with its master
    /// and its slave drive probed and the drives found listed. A controller
    /// that the driver cannot handle is refused before any port is touched
    /// but those of the configuration space.
    pub fn probe_controller<B: PortBus>(config: &mut PCIEndpointConfig, bus: &mut B) -> (r: Result<
        IDEController,
        Error,
    >)
        ensures
            *final(config) == *old(config),
            !supported(old(config).progif) ==> r == Err::<IDEController, Error>(
                Error::NotImplemented,
            ) && final(bus).trace() == old(bus).trace(),
            supported(old(config).progif) ==> {
                let s = final(bus).trace();
                let k = old(bus).trace().len() as int;
                &&& extends(old(bus).trace(), s)
                &&& holds(s, k, select_read(old(config).base | 0x20, in32_value(s[k + 1])))
                &&& match r {
                    Ok(c) => controller_at(s, k, old(config).command.base, c),
                    Err(e) => e == Error::NotImplemented && dma_base(in32_value(s[k + 1])) is None
                        && s.len() == k + 2,
                }
            },
    {
        let caps = config.progif;
        if caps % 2 != 0 || (caps / 4) % 2 != 0 || caps / 0x80 == 0 {
            return Err(Error::NotImplemented);
        }
        let ghost t0 = bus.trace();
        let ghost k = t0.len() as int;
        let bar = config.get_bar(bus, 4);
        let ghost t1 = bus.trace();
        proof {
            let ops = select_read(config.base | 0x20, in32_value(t1[k + 1]));
            assert(config.base | (0x10 + 4u32 * 4) as u32 == config.base | 0x20);
            lemma_extends_add(t0, ops);
            assert(t1.subrange(k, k + 2) =~= ops);
        }
        let dma = match bar {
            BarType::IO(val) => {
                if val > 0xfff0 {
                    return Err(Error::NotImplemented);
                }
                val as u16
            },
            BarType::MMIO(_) => {
                return Err(Error::NotImplemented);
            },
        };
        let mut first = Bus::new(PRIMARY_IO, PRIMARY_CONTROL, dma);
        let mut second = Bus::new(SECONDARY_IO, SECONDARY_CONTROL, dma + 8);
        let ghost first0 = first;
        let ghost second0 = second;
        Self::find_disks(&mut first, bus);
        let ghost t2 = bus.trace();
        Self::find_disks(&mut second, bus);
        let ghost t3 = bus.trace();
        let mut command = config.command;
        command.setf(bus, 0x4);
        let c = IDEController { buses: [first, second] };
        proof {
            let t = bus.trace();
            let raw = in32_value(t[t3.len() as int + 1]);
            assert(t =~= t3 + enable_ops(config.command.base, raw));
            lemma_extends_add(t3, enable_ops(config.command.base, raw));
            assert(t.subrange(t3.len() as int, t3.len() as int + 4) =~= enable_ops(
                config.command.base,
                raw,
            ));
            lemma_extends(t2, t3, t);
            lemma_extends(t1, t2, t);
            lemma_extends(t0, t1, t);
            lemma_extended(t1, t);
            lemma_holds_stable(t1, t, k, select_read(config.base | 0x20, in32_value(t1[k + 1])));
            lemma_found_stable(t2, t, k + 2, &first0);
            lemma_found_stable(t3, t, t2.len() as int, &second0);
            lemma_same_ports(t, k + 2, &first0, &first);
            lemma_same_ports(t, t2.len() as int, &second0, &second);
            assert(c.buses@[0] == first);
            assert(c.buses@[1] == second);
        }
        Ok(c)
    }

    /// Probes the master and the slave drive of `b` and lists those found.
    fn find_disks<B: PortBus>(b: &mut Bus, bus: &mut B)
        requires
            old(b).disks@.len() == 0,
        ensures
            same_ports(final(b), old(b)),
            final(b).active_drivesel == IDE_DISK_SLAVE,
            extends(old(bus).trace(), final(bus).trace()),
            match found_at(final(bus).trace(), old(bus).trace().len() as int, old(b)) {
                None => false,
                Some((end, master, slave)) => end == final(bus).trace().len() && listed(
                    final(b).disks@,
                    master,
                    slave,
                ),
            },
    {
        let ghost t0 = bus.trace();
        let ghost k = t0.len() as int;
        b.select_slot(bus, IDE_DISK_MASTER);
        let ghost t1 = bus.trace();
        let ghost b1 = *b;
        if let Some(info) = b.probe(bus) {
            b.disks.push(info);
        }
        let ghost t2 = bus.trace();
        let ghost b2 = *b;
        b.select_slot(bus, IDE_DISK_SLAVE);
        let ghost t3 = bus.trace();
        let ghost b3 = *b;
        if let Some(info) = b.probe(bus) {
            b.disks.push(info);
        }
        proof {
            reveal(found_at);
            let t = bus.trace();
            lemma_extends(t0, t1, t2);
            lemma_extends(t0, t2, t3);
            lemma_extends(t0, t3, t);
            lemma_extends(t1, t2, t3);
            lemma_extends(t1, t3, t);
            lemma_extends(t2, t3, t);
            lemma_extended(t1, t);
            lemma_extended(t3, t);
            lemma_reads_stable(t1, t, k + 1, k + 1 + SETTLE_READS, old(b).status.port);
            lemma_reads_stable(
                t3,
                t,
                t2.len() as int + 1,
                t2.len() as int + 1 + SETTLE_READS,
                old(b).status.port,
            );
            lemma_same_ports(t2, t1.len() as int, &b1, old(b));
            lemma_probe_stable(t2, t, t1.len() as int, old(b));
            lemma_same_ports(t, t3.len() as int, &b3, old(b));
        }
    }
}

/// What is asked of a bus depends on its ports alone.
pub proof fn lemma_same_ports(s: Seq<PortOp>, k: int, a: &Bus, b: &Bus)
    requires
        same_ports(a, b),
    ensures
        probe_at(s, k, a) == probe_at(s, k, b),
        found_at(s, k, a) == found_at(s, k, b),
{
    reveal(probe_at);
    reveal(found_at);
    assert(identify_ops(a) =~= identify_ops(b));
    assert forall|j: int| identified_at(s, j, a) == identified_at(s, j, b) by {}
    assert forall|j: int| probe_at(s, j, a) == probe_at(s, j, b) by {
        assert(identify_ops(a) =~= identify_ops(b));
    }
}

} // verus!
