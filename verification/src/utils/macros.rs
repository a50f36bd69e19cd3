//! Sizes and alignment.

use vstd::prelude::*;

verus! {

/// The number of bytes of `a` MiB.
pub fn mb(a: usize) -> (bytes: usize)
    requires
        a <= 4095,
    ensures
        bytes == a * 0x10_0000,
{
    a * 0x10_0000
}

/// Whether `addr` is a multiple of `align`.
pub fn is_aligned(addr: usize, align: usize) -> (b: bool)
    requires
        align > 0,
    ensures
        b == (addr % align == 0),
{
    addr % align == 0
}

/// `addr` rounded down to a multiple of `align`.
pub fn align_down(addr: usize, align: usize) -> (r: usize)
    requires
        align > 0,
    ensures
        r == addr - addr % align,
{
    proof {
        vstd::arithmetic::div_mod::lemma_mod_decreases(addr as nat, align as nat);
    }
    addr - addr % align
}

/// `addr` rounded up to a multiple of `align`, if that fits a word.
pub fn align_up(addr: usize, align: usize) -> (r: Option<usize>)
    requires
        align > 0,
    ensures
        addr % align == 0 ==> r == Some(addr),
        addr % align != 0 && addr - addr % align + align <= usize::MAX ==> r == Some(
            (addr - addr % align + align) as usize,
        ),
        addr % align != 0 && addr - addr % align + align > usize::MAX ==> r is None,
{
    proof {
        vstd::arithmetic::div_mod::lemma_mod_decreases(addr as nat, align as nat);
        vstd::arithmetic::div_mod::lemma_mod_bound(addr as int, align as int);
    }
    let rem = addr % align;
    if rem == 0 {
        Some(addr)
    } else if align - rem > usize::MAX - addr {
        None
    } else {
        Some(addr + (align - rem))
    }
}

/// `a` rounded up to the start of the next page, `a` itself if it starts a
/// page.
pub fn round_page_up(a: usize) -> (r: Option<usize>)
    ensures
        a % 0x1000 == 0 ==> r == Some(a),
        a % 0x1000 != 0 && a - a % 0x1000 + 0x1000 <= usize::MAX ==> r == Some(
            (a - a % 0x1000 + 0x1000) as usize,
        ),
        a % 0x1000 != 0 && a - a % 0x1000 + 0x1000 > usize::MAX ==> r is None,
{
    align_up(a, 0x1000)
}

/// `a` rounded down to the start of its page.
pub fn round_page_down(a: usize) -> (r: usize)
    ensures
        r == a - a % 0x1000,
{
    a - a % 0x1000
}

} // verus!
