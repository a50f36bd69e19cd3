//! Segment descriptors.

use vstd::prelude::*;

verus! {

/// Access byte: accessed.
pub const AF_A: u8 = 0x01;

/// Access byte: readable code or writable data.
pub const AF_RW: u8 = 0x02;

/// Access byte: direction or conforming.
pub const AF_DC: u8 = 0x04;

/// Access byte: executable.
pub const AF_E: u8 = 0x08;

/// Access byte: code or data segment.
pub const AF_S: u8 = 0x10;

/// Access byte: privilege level 1.
pub const AF_DPLL: u8 = 0x20;

/// Access byte: privilege level 2.
pub const AF_DPLM: u8 = 0x40;

/// Access byte: privilege level 3.
pub const AF_DPLH: u8 = 0x60;

/// Access byte: present.
pub const AF_P: u8 = 0x80;

/// Flag: 64-bit code segment.
pub const F_L: u8 = 0x02;

/// Flag: 32-bit segment.
pub const F_DB: u8 = 0x04;

/// Flag: the limit counts pages.
pub const F_G: u8 = 0x08;

/// Number of descriptors in the kernel's table.
pub const NENTRIES: usize = 5;

/// One segment descriptor, field by field as the CPU reads it.
#[derive(Clone, Copy, Debug, PartialEq, Eq, Structural)]
pub struct GdtEntry {
    pub limit_low: u16,
    pub base_low: u16,
    pub base_mid: u8,
    pub access: u8,
    pub flags_limit_high: u8,
    pub base_high: u8,
}

impl GdtEntry {
    /// The segment's base address.
    pub open spec fn base(&self) -> int {
        self.base_low + self.base_mid * 0x1_0000 + self.base_high * 0x100_0000
    }

    /// The low twenty bits of the segment's limit.
    pub open spec fn limit(&self) -> int {
        self.limit_low + (self.flags_limit_high % 0x10) * 0x1_0000
    }

    /// The segment's four flag bits.
    pub open spec fn flags(&self) -> int {
        (self.flags_limit_high / 0x10) as int
    }
}

/// The descriptor of the segment that starts at `base` with limit `limit`,
/// of which the low twenty bits count, with the given access byte and
/// flags, of which the low four bits count.
pub fn format_entry(base: u32, limit: u32, access_byte: u8, flags: u8) -> (entry: GdtEntry)
    ensures
        entry.base() == base,
        entry.limit() == limit % 0x10_0000,
        entry.flags() == flags % 0x10,
        entry.access == access_byte,
{
    GdtEntry {
        limit_low: (limit % 0x1_0000) as u16,
        base_low: (base % 0x1_0000) as u16,
        base_mid: ((base / 0x1_0000) % 0x100) as u8,
        access: access_byte,
        flags_limit_high: ((limit / 0x1_0000) % 0x10) as u8 + (flags % 0x10) * 0x10,
        base_high: (base / 0x100_0000) as u8,
    }
}

/// The null descriptor.
pub open spec fn null_entry() -> GdtEntry {
    GdtEntry {
        limit_low: 0,
        base_low: 0,
        base_mid: 0,
        access: 0,
        flags_limit_high: 0,
        base_high: 0,
    }
}

/// A flat segment over the whole address space with access byte `access`.
pub open spec fn flat_entry(access: u8) -> GdtEntry {
    GdtEntry {
        limit_low: 0xffff,
        base_low: 0,
        base_mid: 0,
        access,
        flags_limit_high: 0xcf,
        base_high: 0,
    }
}

/// The kernel's descriptor table: the null descriptor, then flat code and
/// data segments for the kernel and for user code.
pub fn table() -> (t: Vec<GdtEntry>)
    ensures
        t@ == seq![
            null_entry(),
            flat_entry(0x9a),
            flat_entry(0x92),
            flat_entry(0x9a),
            flat_entry(0x92),
        ],
        t@.len() == NENTRIES,
{
    let code: u8 = 0x9a;
    let data: u8 = 0x92;
    let flags: u8 = 0x0c;
    let mut t: Vec<GdtEntry> = Vec::new();
    t.push(format_entry(0, 0, 0, 0));
    t.push(format_entry(0, 0xffff_ffff, code, flags));
    t.push(format_entry(0, 0xffff_ffff, data, flags));
    t.push(format_entry(0, 0xffff_ffff, code, flags));
    t.push(format_entry(0, 0xffff_ffff, data, flags));
    assert(t@ =~= seq![
        null_entry(),
        flat_entry(0x9a),
        flat_entry(0x92),
        flat_entry(0x9a),
        flat_entry(0x92),
    ]);
    t
}

} // verus!
