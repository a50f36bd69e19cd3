//! What the CPU says of itself.

use vstd::prelude::*;

verus! {

/// Feature bit in `edx`: model specific registers.
pub const FEATURE_MSR: u64 = 0x20_0000_0000;

/// Feature bit in `edx`: on-chip APIC.
pub const FEATURE_APIC: u64 = 0x200_0000_0000;

/// Feature bit in `edx`: page size extension, which large pages need.
pub const FEATURE_PSE: u64 = 0x8_0000_0000;

/// Feature bit in `ecx`: SSE3.
pub const FEATURE_SSE3: u64 = 0x1;

/// A set of CPU features: the feature bits of `ecx` in the low half, those
/// of `edx` in the high half.
#[derive(Clone, Copy, Debug, PartialEq, Eq, Structural)]
pub struct Flags {
    bits: u64,
}

impl Flags {
    pub closed spec fn spec_bits(&self) -> u64 {
        self.bits
    }

    /// No feature.
    pub fn empty() -> (f: Flags)
        ensures
            f.spec_bits() == 0,
    {
        Flags { bits: 0 }
    }

    /// The features whose bits are `bits`.
    pub fn from_bits_retain(bits: u64) -> (f: Flags)
        ensures
            f.spec_bits() == bits,
    {
        Flags { bits }
    }

    /// The features that `cpuid` reported in `edx` and `ecx`.
    pub fn from_registers(edx: u32, ecx: u32) -> (f: Flags)
        ensures
            f.spec_bits() == edx * 0x1_0000_0000 + ecx,
    {
        Flags { bits: edx as u64 * 0x1_0000_0000 + ecx as u64 }
    }

    #[verifier::when_used_as_spec(spec_bits)]
    pub fn bits(&self) -> (b: u64)
        ensures
            b == self.spec_bits(),
    {
        self.bits
    }

    /// Whether every feature of `other` is in `self`.
    pub fn contains(&self, other: Flags) -> (b: bool)
        ensures
            b == (self.spec_bits() & other.spec_bits() == other.spec_bits()),
    {
        self.bits & other.bits == other.bits
    }
}

/// What is known of the CPU.
pub struct Cpu {
    pub vendor_string: [u8; 12],
    pub features: Flags,
}

impl Cpu {
    /// Nothing is known yet.
    pub fn new() -> (c: Cpu)
        ensures
            c.features.spec_bits() == 0,
            forall|i: int| 0 <= i < 12 ==> c.vendor_string@[i] == 0,
    {
        Cpu { vendor_string: [0u8; 12], features: Flags::empty() }
    }

    /// Takes down what `cpuid` reported: with `eax` 0 the vendor string in
    /// `ebx`, `edx`, `ecx`, and with `eax` 1 the features in `edx` and
    /// `ecx`.
    pub fn record(&mut self, ebx: u32, edx: u32, ecx: u32, features_edx: u32, features_ecx: u32)
        ensures
            final(self).features.spec_bits() == features_edx * 0x1_0000_0000 + features_ecx,
            forall|i: int|
                0 <= i < 4 ==> {
                    &&& final(self).vendor_string@[i] == byte_of(ebx, i)
                    &&& final(self).vendor_string@[4 + i] == byte_of(edx, i)
                    &&& final(self).vendor_string@[8 + i] == byte_of(ecx, i)
                },
    {
        let mut i: usize = 0;
        while i < 4
            invariant
                i <= 4,
                forall|k: int|
                    0 <= k < i ==> {
                        &&& self.vendor_string@[k] == byte_of(ebx, k)
                        &&& self.vendor_string@[4 + k] == byte_of(edx, k)
                        &&& self.vendor_string@[8 + k] == byte_of(ecx, k)
                    },
            decreases 4 - i,
        {
            self.vendor_string[i] = byte(ebx, i);
            self.vendor_string[4 + i] = byte(edx, i);
            self.vendor_string[8 + i] = byte(ecx, i);
            i = i + 1;
        }
        self.features = Flags::from_registers(features_edx, features_ecx);
    }

    /// Whether the CPU has all of `feat`.
    pub fn has_feature(&self, feat: Flags) -> (b: bool)
        ensures
            b == (self.features.spec_bits() & feat.spec_bits() == feat.spec_bits()),
    {
        self.features.contains(feat)
    }
}

/// Byte `i` of `word`, the lowest first.
pub open spec fn byte_of(word: u32, i: int) -> u8 {
    if i == 0 {
        (word % 0x100) as u8
    } else if i == 1 {
        ((word / 0x100) % 0x100) as u8
    } else if i == 2 {
        ((word / 0x1_0000) % 0x100) as u8
    } else {
        (word / 0x100_0000) as u8
    }
}

/// Byte `i` of `word`, the lowest first.
pub fn byte(word: u32, i: usize) -> (b: u8)
    requires
        i < 4,
    ensures
        b == byte_of(word, i as int),
{
    if i == 0 {
        (word % 0x100) as u8
    } else if i == 1 {
        ((word / 0x100) % 0x100) as u8
    } else if i == 2 {
        ((word / 0x1_0000) % 0x100) as u8
    } else {
        (word / 0x100_0000) as u8
    }
}

} // verus!
