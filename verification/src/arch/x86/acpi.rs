//! The ACPI tables that the kernel reads.

use vstd::prelude::*;
use crate::arch::common::multiboot::{le_u32, read_u32};
use crate::error::{Error, Result};

verus! {

/// Size of the header of a table.
pub const HEADER_SIZE: usize = 36;

/// Size of the first version of the root pointer.
pub const RSDP_SIZE: usize = 20;

/// Distance between two places at which the root pointer can lie.
pub const RSDP_STEP: usize = 16;

/// The signature of the root pointer, `"RSD PTR "`.
pub open spec fn rsdp_signature() -> Seq<u8> {
    seq![0x52, 0x53, 0x44, 0x20, 0x50, 0x54, 0x52, 0x20]
}

/// The header that every table starts with.
#[derive(Clone, Copy, Debug, PartialEq, Eq)]
pub struct ACPISDTHeader {
    pub signature: [u8; 4],
    /// Length of the table, header included.
    pub length: u32,
    pub revision: u8,
    pub checksum: u8,
    pub oem_id: [u8; 6],
    pub oem_table_id: [u8; 8],
    pub oem_revision: u32,
    pub creator_id: u32,
    pub creator_revision: u32,
}

impl ACPISDTHeader {
    /// Whether the header is the one that the bytes of `s` from `at` on
    /// hold.
    pub open spec fn holds(&self, s: Seq<u8>, at: int) -> bool {
        &&& self.signature@ == s.subrange(at, at + 4)
        &&& self.length == le_u32(s, at + 4)
        &&& self.revision == s[at + 8]
        &&& self.checksum == s[at + 9]
        &&& self.oem_id@ == s.subrange(at + 10, at + 16)
        &&& self.oem_table_id@ == s.subrange(at + 16, at + 24)
        &&& self.oem_revision == le_u32(s, at + 24)
        &&& self.creator_id == le_u32(s, at + 28)
        &&& self.creator_revision == le_u32(s, at + 32)
    }

    /// Reads the header that lies at `at` in `b`.
    pub fn parse(b: &[u8], at: usize) -> (h: ACPISDTHeader)
        requires
            at + HEADER_SIZE <= b@.len(),
        ensures
            h.holds(b@, at as int),
    {
        let total = b.len();
        let signature = [b[at], b[at + 1], b[at + 2], b[at + 3]];
        let oem_id = [b[at + 10], b[at + 11], b[at + 12], b[at + 13], b[at + 14], b[at + 15]];
        let oem_table_id = [
            b[at + 16],
            b[at + 17],
            b[at + 18],
            b[at + 19],
            b[at + 20],
            b[at + 21],
            b[at + 22],
            b[at + 23],
        ];
        assert(signature@ =~= b@.subrange(at as int, at + 4));
        assert(oem_id@ =~= b@.subrange(at + 10, at + 16));
        assert(oem_table_id@ =~= b@.subrange(at + 16, at + 24));
        ACPISDTHeader {
            signature,
            length: read_u32(b, at + 4),
            revision: b[at + 8],
            checksum: b[at + 9],
            oem_id,
            oem_table_id,
            oem_revision: read_u32(b, at + 24),
            creator_id: read_u32(b, at + 28),
            creator_revision: read_u32(b, at + 32),
        }
    }
}

/// The signature of the table that describes the interrupt controllers.
pub open spec fn madt_signature() -> Seq<u8> {
    seq![0x41u8, 0x50u8, 0x49u8, 0x43u8]
}

impl ACPISDTHeader {
    /// Whether the header is that of the table which describes the
    /// interrupt controllers.
    pub fn is_madt(&self) -> (b: bool)
        ensures
            b == (self.signature@ == madt_signature()),
    {
        let b = self.signature[0] == 0x41 && self.signature[1] == 0x50 && self.signature[2] == 0x49
            && self.signature[3] == 0x43;
        proof {
            if b {
                assert(self.signature@ =~= madt_signature());
            } else {
                assert(madt_signature()[0] == 0x41 && madt_signature()[1] == 0x50
                    && madt_signature()[2] == 0x49 && madt_signature()[3] == 0x43);
            }
        }
        b
    }
}

/// Whether the bytes of `s` from `at` on are `pattern`.
pub open spec fn matches_at(s: Seq<u8>, at: int, pattern: Seq<u8>) -> bool {
    at + pattern.len() <= s.len() && s.subrange(at, at + pattern.len()) == pattern
}

/// Whether the bytes of `b` from `at` on are `pattern`.
pub fn has_bytes(b: &[u8], at: usize, pattern: &[u8]) -> (r: bool)
    requires
        at <= b@.len(),
    ensures
        r == matches_at(b@, at as int, pattern@),
{
    let n = pattern.len();
    let total = b.len();
    if n > total - at {
        return false;
    }
    let mut i: usize = 0;
    while i < n
        invariant
            i <= n,
            total == b@.len(),
            n == pattern@.len(),
            at + n <= b@.len(),
            forall|k: int| 0 <= k < i ==> b@[at + k] == pattern@[k],
        decreases n - i,
    {
        if b[at + i] != pattern[i] {
            assert(b@.subrange(at as int, at + n)[i as int] != pattern@[i as int]);
            return false;
        }
        i = i + 1;
    }
    assert(b@.subrange(at as int, at + n) =~= pattern@);
    true
}

/// Offset of the root pointer in `memory`, the image of the BIOS area: the
/// first multiple of `RSDP_STEP` at which its signature lies.
pub fn search_rsdp(memory: &[u8]) -> (r: core::result::Result<usize, ()>)
    ensures
        match r {
            Ok(at) => {
                &&& at % RSDP_STEP == 0
                &&& matches_at(memory@, at as int, rsdp_signature())
                &&& forall|k: int|
                    0 <= k < at && k % (RSDP_STEP as int) == 0 ==> !matches_at(
                        memory@,
                        k,
                        rsdp_signature(),
                    )
            },
            Err(_) => forall|k: int|
                0 <= k && k % (RSDP_STEP as int) == 0 ==> !matches_at(memory@, k, rsdp_signature()),
        },
{
    let signature: [u8; 8] = [0x52, 0x53, 0x44, 0x20, 0x50, 0x54, 0x52, 0x20];
    assert(signature@ =~= rsdp_signature());
    let total = memory.len();
    let mut at: usize = 0;
    while at < total
        invariant
            at % RSDP_STEP == 0,
            total == memory@.len(),
            signature@ == rsdp_signature(),
            forall|k: int|
                0 <= k < at && k % (RSDP_STEP as int) == 0 ==> !matches_at(
                    memory@,
                    k,
                    rsdp_signature(),
                ),
        decreases total - at,
    {
        if has_bytes(memory, at, signature.as_slice()) {
            return Ok(at);
        }
        if total - at < RSDP_STEP {
            return Err(());
        }
        at = at + RSDP_STEP;
    }
    Err(())
}

/// Physical address of the root table that the root pointer at `at` in `s`
/// names, if the pointer is of the first revision, the only one that the
/// kernel supports.
pub open spec fn root_table(s: Seq<u8>, at: int) -> Option<int> {
    if s[at + 15] == 0 {
        Some(le_u32(s, at + 16))
    } else {
        None
    }
}

/// Physical address of the root table that the root pointer at `at` in `b`
/// names.
pub fn rsdt_address(b: &[u8], at: usize) -> (r: Result<u32>)
    requires
        at + RSDP_SIZE <= b@.len(),
    ensures
        match root_table(b@, at as int) {
            Some(a) => r == Ok::<u32, Error>(a as u32),
            None => r == Err::<u32, Error>(Error::NotImplemented),
        },
{
    let total = b.len();
    if b[at + 15] != 0 {
        return Err(Error::NotImplemented);
    }
    Ok(read_u32(b, at + 16))
}

/// Number of table addresses that a root table of `length` bytes holds.
pub open spec fn entry_count(length: int) -> int {
    if length < HEADER_SIZE {
        0
    } else {
        (length - HEADER_SIZE) / 4
    }
}

/// The physical addresses of the tables that the root table `rsdt` lists,
/// as far as `rsdt` holds them.
pub fn rsdt_entries(rsdt: &[u8]) -> (r: Vec<u32>)
    requires
        rsdt@.len() >= HEADER_SIZE,
    ensures
        ({
            let listed = entry_count(le_u32(rsdt@, 4));
            let held = (rsdt@.len() - HEADER_SIZE) / 4;
            let n = if listed < held { listed } else { held };
            &&& r@.len() == n
            &&& forall|i: int| 0 <= i < n ==> #[trigger] r@[i] == le_u32(rsdt@, HEADER_SIZE + 4 * i)
        }),
{
    let total = rsdt.len();
    let length = read_u32(rsdt, 4) as usize;
    let listed = if length < HEADER_SIZE { 0 } else { (length - HEADER_SIZE) / 4 };
    let held = (total - HEADER_SIZE) / 4;
    let n = if listed < held { listed } else { held };
    let mut r: Vec<u32> = Vec::new();
    let mut i: usize = 0;
    while i < n
        invariant
            i <= n,
            total == rsdt@.len(),
            HEADER_SIZE + 4 * n <= total,
            r@.len() == i,
            forall|k: int| 0 <= k < i ==> #[trigger] r@[k] == le_u32(rsdt@, HEADER_SIZE + 4 * k),
        decreases n - i,
    {
        r.push(read_u32(rsdt, HEADER_SIZE + 4 * i));
        i = i + 1;
    }
    r
}

} // verus!
