//! The kernel heap: a first-fit allocator over a list of free blocks.
//!
//! The heap is the range of `heapsize` bytes from `memstart` on; it grows by
//! whole pages up to `heapmax` bytes and shrinks again when its last pages
//! are free. Every block starts with a header of `HEADER_SIZE` bytes; what
//! the headers of the free and of the allocated blocks say is kept here in
//! two lists, the free one in address order with no two blocks touching.

use vstd::prelude::*;
use crate::arch::x86::paging::{
    lemma_map_pages, lemma_unmap_pages, page_of, pages_removable, pages_unmapped, range_mapped,
    range_unmapped, released_pages, unmap_refusal, PageDir, PagingModel, RESERVED_START,
};
use crate::error::Error;
use crate::memory::pmm::{first_run, fits, run_allocated, with_range, FrameRange, PageManager, Zone};
use crate::memory::pmm::bitmap::BitMap;
use crate::memory::vmm::KernelAllocator;

verus! {

/// Size of the header in front of every block, which is also the unit that
/// all block addresses and sizes are multiples of.
pub const HEADER_SIZE: usize = 8;

/// One block of the heap: the `size` bytes from `addr` on, header included.
#[derive(Clone, Copy, Debug, PartialEq, Eq, Structural)]
pub struct BlockInfo {
    pub addr: usize,
    pub size: usize,
}

impl BlockInfo {
    /// First address past the block.
    pub open spec fn end(&self) -> int {
        self.addr + self.size
    }

    /// Whether address `x` lies in the block.
    pub open spec fn holds(&self, x: int) -> bool {
        self.addr <= x < self.end()
    }

    /// The block is made of whole units, holds at least its header and lies
    /// within the range from `lo` to `hi`.
    pub open spec fn within(&self, lo: int, hi: int) -> bool {
        &&& self.addr % HEADER_SIZE == 0
        &&& self.size % HEADER_SIZE == 0
        &&& self.size >= HEADER_SIZE
        &&& lo <= self.addr
        &&& self.end() <= hi
    }

    /// Whether the block and `other` share no address.
    pub open spec fn apart(&self, other: BlockInfo) -> bool {
        self.end() <= other.addr || other.end() <= self.addr
    }

    /// Address of the block's payload, right behind its header.
    pub fn data(&self) -> (p: usize)
        requires
            self.addr + HEADER_SIZE <= usize::MAX,
        ensures
            p == self.addr + HEADER_SIZE,
    {
        self.addr + HEADER_SIZE
    }

    /// Address of the block, which is that of its header.
    pub fn addr(&self) -> (a: usize)
        ensures
            a == self.addr,
    {
        self.addr
    }
}

/// What the allocator knows of its heap.
pub struct HeapModel {
    /// The free blocks, in address order.
    pub free: Seq<BlockInfo>,
    /// The allocated blocks, in the order in which they were allocated.
    pub used: Seq<BlockInfo>,
    /// First address of the heap.
    pub start: int,
    /// Number of bytes of the heap that are backed by pages.
    pub size: int,
    /// Number of bytes that the heap may grow to.
    pub max: int,
}

impl HeapModel {
    /// First address past the backed part of the heap.
    pub open spec fn end(&self) -> int {
        self.start + self.size
    }

    /// Whether address `x` lies in a free block.
    pub open spec fn is_free(&self, x: int) -> bool {
        covers(self.free, x)
    }

    /// The heap is made of whole pages and lies below the addresses that the
    /// mapper keeps for itself; every block lies in its backed part; the
    /// free blocks are in address order and no two of them touch; no
    /// allocated block shares an address with another block.
    pub open spec fn wf(&self) -> bool {
        &&& 0 <= self.start
        &&& 0 <= self.size <= self.max
        &&& self.start % 0x1000 == 0
        &&& self.size % 0x1000 == 0
        &&& self.max % 0x1000 == 0
        &&& self.start + self.max <= crate::arch::x86::paging::RESERVED_START
        &&& forall|i: int|
            0 <= i < self.free.len() ==> (#[trigger] self.free[i]).within(self.start, self.end())
        &&& forall|i: int, j: int|
            0 <= i < j < self.free.len() ==> (#[trigger] self.free[i]).end() < (
            #[trigger] self.free[j]).addr
        &&& forall|i: int|
            0 <= i < self.used.len() ==> (#[trigger] self.used[i]).within(self.start, self.end())
        &&& forall|i: int, j: int|
            0 <= i < j < self.used.len() ==> (#[trigger] self.used[i]).apart(#[trigger] self.used[j])
        &&& forall|i: int, j: int|
            0 <= i < self.used.len() && 0 <= j < self.free.len() ==> (#[trigger] self.used[i]).apart(
                #[trigger] self.free[j],
            )
    }
}

/// The blocks of `s` are in address order and no two of them touch.
pub open spec fn spaced(s: Seq<BlockInfo>) -> bool {
    forall|i: int, j: int| 0 <= i < j < s.len() ==> (#[trigger] s[i]).end() < (#[trigger] s[j]).addr
}

/// Every block of `s` lies within the range from `lo` to `hi`.
pub open spec fn all_within(s: Seq<BlockInfo>, lo: int, hi: int) -> bool {
    forall|i: int| 0 <= i < s.len() ==> (#[trigger] s[i]).within(lo, hi)
}

/// Whether address `x` lies in a block of `s`.
pub open spec fn covers(s: Seq<BlockInfo>, x: int) -> bool {
    exists|i: int| 0 <= i < s.len() && (#[trigger] s[i]).holds(x)
}

/// `k` is the place of `b` among the blocks of `s`: those before `k` end at
/// or before its start, the others start at or after its end.
pub open spec fn place(s: Seq<BlockInfo>, b: BlockInfo, k: int) -> bool {
    &&& 0 <= k <= s.len()
    &&& forall|i: int| 0 <= i < k ==> (#[trigger] s[i]).end() <= b.addr
    &&& forall|i: int| k <= i < s.len() ==> b.end() <= (#[trigger] s[i]).addr
}

proof fn lemma_place(s: Seq<BlockInfo>, b: BlockInfo, k: int, lo: int, hi: int)
    requires
        spaced(s),
        all_within(s, lo, hi),
        b.within(lo, hi),
        forall|i: int| 0 <= i < s.len() ==> (#[trigger] s[i]).apart(b),
        0 <= k <= s.len(),
        forall|i: int| 0 <= i < k ==> (#[trigger] s[i]).addr < b.addr,
        k < s.len() ==> s[k].addr >= b.addr,
    ensures
        place(s, b, k),
{
    assert forall|i: int| 0 <= i < k implies (#[trigger] s[i]).end() <= b.addr by {
        assert(s[i].apart(b));
        assert(s[i].within(lo, hi));
    }
    assert forall|i: int| k <= i < s.len() implies b.end() <= (#[trigger] s[i]).addr by {
        assert(s[i].apart(b));
        assert(s[i].within(lo, hi));
        assert(s[k].apart(b));
        assert(s[k].within(lo, hi));
        if i > k {
            assert(s[k].end() < s[i].addr);
        }
    }
}

proof fn lemma_insert_plain(s: Seq<BlockInfo>, t: Seq<BlockInfo>, b: BlockInfo, k: int, lo: int, hi: int)
    requires
        spaced(s),
        all_within(s, lo, hi),
        b.within(lo, hi),
        place(s, b, k),
        k > 0 ==> s[k - 1].end() != b.addr,
        k < s.len() ==> b.end() != s[k].addr,
        t == s.insert(k, b),
    ensures
        spaced(t),
        all_within(t, lo, hi),
        forall|x: int|
            #![trigger covers(t, x)]
            #![trigger covers(s, x)]
            covers(t, x) <==> covers(s, x) || b.holds(x),
{
    assert forall|i: int| 0 <= i < t.len() implies #[trigger] t[i] == (if i < k {
        s[i]
    } else if i == k {
        b
    } else {
        s[i - 1]
    }) by {}
    assert forall|i: int| 0 <= i < t.len() implies (#[trigger] t[i]).within(lo, hi) by {
        if i < k {
            assert(s[i].within(lo, hi));
        } else if i > k {
            assert(s[i - 1].within(lo, hi));
        }
    }
    assert forall|i: int, j: int| 0 <= i < j < t.len() implies (#[trigger] t[i]).end() < (
    #[trigger] t[j]).addr by {
        let oi = if i < k { i } else { i - 1 };
        let oj = if j < k { j } else { j - 1 };
        if i != k && j != k {
            assert(s[oi].end() < s[oj].addr);
        } else if i == k {
            assert(b.end() <= s[k].addr);
            assert(s[k].within(lo, hi));
            if oj > k {
                assert(s[k].end() < s[oj].addr);
            }
        } else {
            assert(s[k - 1].end() <= b.addr);
            assert(s[k - 1].within(lo, hi));
            if oi < k - 1 {
                assert(s[oi].end() < s[k - 1].addr);
            }
        }
    }
    assert forall|x: int| covers(t, x) <==> covers(s, x) || b.holds(x) by {
        if covers(t, x) {
            let i = choose|i: int| 0 <= i < t.len() && (#[trigger] t[i]).holds(x);
            if i < k {
                assert(s[i].holds(x));
            } else if i > k {
                assert(s[i - 1].holds(x));
            }
        }
        if covers(s, x) {
            let i = choose|i: int| 0 <= i < s.len() && (#[trigger] s[i]).holds(x);
            if i < k {
                assert(t[i].holds(x));
            } else {
                assert(t[i + 1].holds(x));
            }
        }
        if b.holds(x) {
            assert(t[k].holds(x));
        }
    }
}

proof fn lemma_join_prev(s: Seq<BlockInfo>, t: Seq<BlockInfo>, b: BlockInfo, k: int, lo: int, hi: int)
    requires
        hi <= usize::MAX,
        spaced(s),
        all_within(s, lo, hi),
        b.within(lo, hi),
        place(s, b, k),
        k > 0,
        s[k - 1].end() == b.addr,
        k < s.len() ==> b.end() != s[k].addr,
        t == s.update(k - 1, BlockInfo { addr: s[k - 1].addr, size: (s[k - 1].size + b.size) as usize }),
    ensures
        spaced(t),
        all_within(t, lo, hi),
        forall|x: int|
            #![trigger covers(t, x)]
            #![trigger covers(s, x)]
            covers(t, x) <==> covers(s, x) || b.holds(x),
{
    assert(s[k - 1].within(lo, hi));
    assert forall|i: int| 0 <= i < t.len() implies (#[trigger] t[i]).within(lo, hi) by {
        assert(s[i].within(lo, hi));
    }
    assert forall|i: int, j: int| 0 <= i < j < t.len() implies (#[trigger] t[i]).end() < (
    #[trigger] t[j]).addr by {
        assert(s[i].end() < s[j].addr);
        if i == k - 1 {
            assert(b.end() <= s[k].addr);
            assert(s[k].within(lo, hi));
            if j > k {
                assert(s[k].end() < s[j].addr);
            }
        }
    }
    assert forall|x: int| covers(t, x) <==> covers(s, x) || b.holds(x) by {
        if covers(t, x) {
            let i = choose|i: int| 0 <= i < t.len() && (#[trigger] t[i]).holds(x);
            if i != k - 1 {
                assert(s[i].holds(x));
            } else if !b.holds(x) {
                assert(s[k - 1].holds(x));
            }
        }
        if covers(s, x) {
            let i = choose|i: int| 0 <= i < s.len() && (#[trigger] s[i]).holds(x);
            assert(t[i].holds(x));
        }
        if b.holds(x) {
            assert(t[k - 1].holds(x));
        }
    }
}

proof fn lemma_join_next(s: Seq<BlockInfo>, t: Seq<BlockInfo>, b: BlockInfo, k: int, lo: int, hi: int)
    requires
        hi <= usize::MAX,
        spaced(s),
        all_within(s, lo, hi),
        b.within(lo, hi),
        place(s, b, k),
        k < s.len(),
        b.end() == s[k].addr,
        k > 0 ==> s[k - 1].end() != b.addr,
        t == s.update(k, BlockInfo { addr: b.addr, size: (b.size + s[k].size) as usize }),
    ensures
        spaced(t),
        all_within(t, lo, hi),
        forall|x: int|
            #![trigger covers(t, x)]
            #![trigger covers(s, x)]
            covers(t, x) <==> covers(s, x) || b.holds(x),
{
    assert(s[k].within(lo, hi));
    assert forall|i: int| 0 <= i < t.len() implies (#[trigger] t[i]).within(lo, hi) by {
        assert(s[i].within(lo, hi));
    }
    assert forall|i: int, j: int| 0 <= i < j < t.len() implies (#[trigger] t[i]).end() < (
    #[trigger] t[j]).addr by {
        assert(s[i].end() < s[j].addr);
        if j == k {
            assert(s[k - 1].end() <= b.addr);
            assert(s[k - 1].within(lo, hi));
            if i < k - 1 {
                assert(s[i].end() < s[k - 1].addr);
            }
        }
    }
    assert forall|x: int| covers(t, x) <==> covers(s, x) || b.holds(x) by {
        if covers(t, x) {
            let i = choose|i: int| 0 <= i < t.len() && (#[trigger] t[i]).holds(x);
            if i != k {
                assert(s[i].holds(x));
            } else if !b.holds(x) {
                assert(s[k].holds(x));
            }
        }
        if covers(s, x) {
            let i = choose|i: int| 0 <= i < s.len() && (#[trigger] s[i]).holds(x);
            assert(t[i].holds(x));
        }
        if b.holds(x) {
            assert(t[k].holds(x));
        }
    }
}

proof fn lemma_join_both(s: Seq<BlockInfo>, t: Seq<BlockInfo>, b: BlockInfo, k: int, lo: int, hi: int)
    requires
        hi <= usize::MAX,
        spaced(s),
        all_within(s, lo, hi),
        b.within(lo, hi),
        place(s, b, k),
        0 < k < s.len(),
        s[k - 1].end() == b.addr,
        b.end() == s[k].addr,
        t == s.update(
            k - 1,
            BlockInfo { addr: s[k - 1].addr, size: (s[k - 1].size + b.size + s[k].size) as usize },
        ).remove(k),
    ensures
        spaced(t),
        all_within(t, lo, hi),
        forall|x: int|
            #![trigger covers(t, x)]
            #![trigger covers(s, x)]
            covers(t, x) <==> covers(s, x) || b.holds(x),
{
    assert(s[k - 1].within(lo, hi));
    assert(s[k].within(lo, hi));
    let merged = BlockInfo { addr: s[k - 1].addr, size: (s[k - 1].size + b.size + s[k].size) as usize };
    assert forall|i: int| 0 <= i < t.len() implies #[trigger] t[i] == (if i < k - 1 {
        s[i]
    } else if i == k - 1 {
        merged
    } else {
        s[i + 1]
    }) by {}
    assert forall|i: int| 0 <= i < t.len() implies (#[trigger] t[i]).within(lo, hi) by {
        if i < k - 1 {
            assert(s[i].within(lo, hi));
        } else if i > k - 1 {
            assert(s[i + 1].within(lo, hi));
        }
    }
    assert forall|i: int, j: int| 0 <= i < j < t.len() implies (#[trigger] t[i]).end() < (
    #[trigger] t[j]).addr by {
        let oi = if i < k { i } else { i + 1 };
        let oj = if j < k { j } else { j + 1 };
        assert(s[oi].end() < s[oj].addr);
        if i == k - 1 {
            assert(s[k].end() < s[oj].addr);
        }
    }
    assert forall|x: int| covers(t, x) <==> covers(s, x) || b.holds(x) by {
        if covers(t, x) {
            let i = choose|i: int| 0 <= i < t.len() && (#[trigger] t[i]).holds(x);
            if i < k - 1 {
                assert(s[i].holds(x));
            } else if i == k - 1 {
                if !b.holds(x) {
                    assert(s[k - 1].holds(x) || s[k].holds(x));
                }
            } else {
                assert(s[i + 1].holds(x));
            }
        }
        if covers(s, x) {
            let i = choose|i: int| 0 <= i < s.len() && (#[trigger] s[i]).holds(x);
            if i < k - 1 {
                assert(t[i].holds(x));
            } else if i <= k {
                assert(t[k - 1].holds(x));
            } else {
                assert(t[i - 1].holds(x));
            }
        }
        if b.holds(x) {
            assert(t[k - 1].holds(x));
        }
    }
}

/// Puts `b` into the free list `free`, joined with the block that ends
/// where it starts and with the block that starts where it ends, if any.
#[verifier::rlimit(50)]
fn insert_block(free: &mut Vec<BlockInfo>, b: BlockInfo, lo: usize, hi: usize)
    requires
        spaced(old(free)@),
        all_within(old(free)@, lo as int, hi as int),
        b.within(lo as int, hi as int),
        forall|i: int| 0 <= i < old(free)@.len() ==> (#[trigger] old(free)@[i]).apart(b),
    ensures
        spaced(final(free)@),
        all_within(final(free)@, lo as int, hi as int),
        forall|x: int|
            #![trigger covers(final(free)@, x)]
            #![trigger covers(old(free)@, x)]
            covers(final(free)@, x) <==> covers(old(free)@, x) || b.holds(x),
{
    let n = free.len();
    let mut k: usize = 0;
    while k < n && free[k].addr < b.addr
        invariant
            k <= n,
            n == free@.len(),
            free@ == old(free)@,
            forall|i: int| 0 <= i < k ==> (#[trigger] free@[i]).addr < b.addr,
        decreases n - k,
    {
        k = k + 1;
    }
    let ghost before = free@;
    proof {
        lemma_place(before, b, k as int, lo as int, hi as int);
        if k > 0 {
            assert(before[k - 1].within(lo as int, hi as int));
        }
        if k < n {
            assert(before[k as int].within(lo as int, hi as int));
        }
    }
    let joins_prev = k > 0 && free[k - 1].addr + free[k - 1].size == b.addr;
    let joins_next = k < n && b.addr + b.size == free[k].addr;
    if joins_prev && joins_next {
        let p = free[k - 1];
        let q = free[k];
        free[k - 1] = BlockInfo { addr: p.addr, size: p.size + b.size + q.size };
        free.remove(k);
        proof {
            lemma_join_both(before, free@, b, k as int, lo as int, hi as int);
        }
    } else if joins_prev {
        let p = free[k - 1];
        free[k - 1] = BlockInfo { addr: p.addr, size: p.size + b.size };
        proof {
            lemma_join_prev(before, free@, b, k as int, lo as int, hi as int);
        }
    } else if joins_next {
        let q = free[k];
        free[k] = BlockInfo { addr: b.addr, size: b.size + q.size };
        proof {
            lemma_join_next(before, free@, b, k as int, lo as int, hi as int);
        }
    } else {
        free.insert(k, b);
        proof {
            lemma_insert_plain(before, free@, b, k as int, lo as int, hi as int);
        }
    }
}

proof fn lemma_take_whole(s: Seq<BlockInfo>, t: Seq<BlockInfo>, k: int, lo: int, hi: int)
    requires
        spaced(s),
        all_within(s, lo, hi),
        0 <= k < s.len(),
        t == s.remove(k),
    ensures
        spaced(t),
        all_within(t, lo, hi),
        forall|x: int|
            #![trigger covers(t, x)]
            #![trigger covers(s, x)]
            covers(t, x) <==> covers(s, x) && !s[k].holds(x),
{
    assert forall|i: int| 0 <= i < t.len() implies #[trigger] t[i] == (if i < k {
        s[i]
    } else {
        s[i + 1]
    }) by {}
    assert forall|i: int| 0 <= i < t.len() implies (#[trigger] t[i]).within(lo, hi) by {
        if i < k {
            assert(s[i].within(lo, hi));
        } else {
            assert(s[i + 1].within(lo, hi));
        }
    }
    assert forall|i: int, j: int| 0 <= i < j < t.len() implies (#[trigger] t[i]).end() < (
    #[trigger] t[j]).addr by {
        let oi = if i < k { i } else { i + 1 };
        let oj = if j < k { j } else { j + 1 };
        assert(s[oi].end() < s[oj].addr);
    }
    assert(s[k].within(lo, hi));
    assert forall|x: int| covers(t, x) <==> covers(s, x) && !s[k].holds(x) by {
        if covers(t, x) {
            let i = choose|i: int| 0 <= i < t.len() && (#[trigger] t[i]).holds(x);
            let oi = if i < k { i } else { i + 1 };
            assert(s[oi].holds(x));
            assert(s[oi].within(lo, hi));
            if oi < k {
                assert(s[oi].end() < s[k].addr);
            } else {
                assert(s[k].end() < s[oi].addr);
            }
        }
        if covers(s, x) && !s[k].holds(x) {
            let i = choose|i: int| 0 <= i < s.len() && (#[trigger] s[i]).holds(x);
            if i < k {
                assert(t[i].holds(x));
            } else {
                assert(t[i - 1].holds(x));
            }
        }
    }
}

proof fn lemma_take_part(s: Seq<BlockInfo>, t: Seq<BlockInfo>, k: int, rest: BlockInfo, blk: BlockInfo, lo: int, hi: int)
    requires
        spaced(s),
        all_within(s, lo, hi),
        0 <= k < s.len(),
        rest.within(lo, hi),
        blk.size > 0,
        (rest.addr == s[k].addr && rest.end() == blk.addr && blk.end() == s[k].end()) || (blk.addr
            == s[k].addr && blk.end() == rest.addr && rest.end() == s[k].end()),
        t == s.update(k, rest),
    ensures
        spaced(t),
        all_within(t, lo, hi),
        forall|x: int|
            #![trigger covers(t, x)]
            #![trigger covers(s, x)]
            covers(t, x) <==> covers(s, x) && !blk.holds(x),
{
    assert(s[k].within(lo, hi));
    assert forall|i: int| 0 <= i < t.len() implies (#[trigger] t[i]).within(lo, hi) by {
        assert(s[i].within(lo, hi));
    }
    assert forall|i: int, j: int| 0 <= i < j < t.len() implies (#[trigger] t[i]).end() < (
    #[trigger] t[j]).addr by {
        assert(s[i].end() < s[j].addr);
    }
    assert forall|x: int| covers(t, x) <==> covers(s, x) && !blk.holds(x) by {
        if covers(t, x) {
            let i = choose|i: int| 0 <= i < t.len() && (#[trigger] t[i]).holds(x);
            if i == k {
                assert(s[k].holds(x));
            } else {
                assert(s[i].holds(x));
                assert(s[i].within(lo, hi));
                if i < k {
                    assert(s[i].end() < s[k].addr);
                } else {
                    assert(s[k].end() < s[i].addr);
                }
            }
        }
        if covers(s, x) && !blk.holds(x) {
            let i = choose|i: int| 0 <= i < s.len() && (#[trigger] s[i]).holds(x);
            assert(t[i].holds(x));
        }
    }
}

proof fn lemma_take_middle(s: Seq<BlockInfo>, t: Seq<BlockInfo>, k: int, front: BlockInfo, tail: BlockInfo, blk: BlockInfo, lo: int, hi: int)
    requires
        spaced(s),
        all_within(s, lo, hi),
        0 <= k < s.len(),
        front.within(lo, hi),
        tail.within(lo, hi),
        blk.size > 0,
        front.addr == s[k].addr,
        front.end() == blk.addr,
        blk.end() == tail.addr,
        tail.end() == s[k].end(),
        t == s.update(k, front).insert(k + 1, tail),
    ensures
        spaced(t),
        all_within(t, lo, hi),
        forall|x: int|
            #![trigger covers(t, x)]
            #![trigger covers(s, x)]
            covers(t, x) <==> covers(s, x) && !blk.holds(x),
{
    assert(s[k].within(lo, hi));
    assert forall|i: int| 0 <= i < t.len() implies #[trigger] t[i] == (if i < k {
        s[i]
    } else if i == k {
        front
    } else if i == k + 1 {
        tail
    } else {
        s[i - 1]
    }) by {}
    assert forall|i: int| 0 <= i < t.len() implies (#[trigger] t[i]).within(lo, hi) by {
        if i < k {
            assert(s[i].within(lo, hi));
        } else if i > k + 1 {
            assert(s[i - 1].within(lo, hi));
        }
    }
    assert forall|i: int, j: int| 0 <= i < j < t.len() implies (#[trigger] t[i]).end() < (
    #[trigger] t[j]).addr by {
        let oi = if i <= k { i } else { i - 1 };
        let oj = if j <= k { j } else { j - 1 };
        if oi != oj {
            assert(s[oi].end() < s[oj].addr);
        }
    }
    assert forall|x: int| covers(t, x) <==> covers(s, x) && !blk.holds(x) by {
        if covers(t, x) {
            let i = choose|i: int| 0 <= i < t.len() && (#[trigger] t[i]).holds(x);
            let oi = if i <= k { i } else { i - 1 };
            assert(s[oi].holds(x));
            if oi != k {
                assert(s[oi].within(lo, hi));
                if oi < k {
                    assert(s[oi].end() < s[k].addr);
                } else {
                    assert(s[k].end() < s[oi].addr);
                }
            }
        }
        if covers(s, x) && !blk.holds(x) {
            let i = choose|i: int| 0 <= i < s.len() && (#[trigger] s[i]).holds(x);
            if i < k {
                assert(t[i].holds(x));
            } else if i == k {
                assert(t[k].holds(x) || t[k + 1].holds(x));
            } else {
                assert(t[i + 1].holds(x));
            }
        }
    }
}

/// Takes `blk`, which lies in the `k`-th block of the free list `free`, out
/// of it; what is left of that block in front of and behind `blk` stays.
#[verifier::rlimit(50)]
fn take_block(free: &mut Vec<BlockInfo>, k: usize, blk: BlockInfo, lo: usize, hi: usize)
    requires
        spaced(old(free)@),
        all_within(old(free)@, lo as int, hi as int),
        k < old(free)@.len(),
        blk.within(lo as int, hi as int),
        old(free)@[k as int].addr <= blk.addr,
        blk.end() <= old(free)@[k as int].end(),
    ensures
        spaced(final(free)@),
        all_within(final(free)@, lo as int, hi as int),
        forall|x: int|
            #![trigger covers(final(free)@, x)]
            #![trigger covers(old(free)@, x)]
            covers(final(free)@, x) <==> covers(old(free)@, x) && !blk.holds(x),
{
    let n = free.len();
    let whole = free[k];
    let ghost before = free@;
    assert(whole.within(lo as int, hi as int));
    let front = BlockInfo { addr: whole.addr, size: blk.addr - whole.addr };
    let tail = BlockInfo {
        addr: blk.addr + blk.size,
        size: whole.addr + whole.size - (blk.addr + blk.size),
    };
    if front.size > 0 && tail.size > 0 {
        free[k] = front;
        free.insert(k + 1, tail);
        proof {
            lemma_take_middle(before, free@, k as int, front, tail, blk, lo as int, hi as int);
        }
    } else if front.size > 0 {
        free[k] = front;
        proof {
            lemma_take_part(before, free@, k as int, front, blk, lo as int, hi as int);
        }
    } else if tail.size > 0 {
        free[k] = tail;
        proof {
            lemma_take_part(before, free@, k as int, tail, blk, lo as int, hi as int);
        }
    } else {
        free.remove(k);
        proof {
            lemma_take_whole(before, free@, k as int, lo as int, hi as int);
        }
    }
}

/// A block that shares no address with what `s` covers shares none with a
/// block of `s`.
proof fn lemma_apart(u: BlockInfo, s: Seq<BlockInfo>, j: int)
    requires
        0 <= j < s.len(),
        u.size > 0,
        s[j].size > 0,
        forall|x: int| #![trigger covers(s, x)] u.holds(x) ==> !covers(s, x),
    ensures
        u.apart(s[j]),
{
    let x = if u.addr >= s[j].addr { u.addr as int } else { s[j].addr as int };
    if !u.apart(s[j]) {
        assert(u.holds(x));
        assert(s[j].holds(x));
        assert(covers(s, x));
    }
}

/// The least multiple of `al` that is not below `y`.
pub open spec fn aligned_up(y: int, al: int) -> int {
    if y % al == 0 {
        y
    } else {
        y + al - y % al
    }
}

/// `aligned_up` gives a multiple of the alignment that is less than one
/// alignment above its argument, and a whole number of units where both its
/// arguments are.
pub proof fn lemma_aligned_up(y: int, al: int)
    requires
        0 <= y,
        0 < al,
    ensures
        aligned_up(y, al) % al == 0,
        y <= aligned_up(y, al) < y + al,
        (al % 8 == 0 && y % 8 == 0) ==> aligned_up(y, al) % 8 == 0,
        (al % 8 == 0 && aligned_up(y, al) % al == 0) ==> aligned_up(y, al) % 8 == 0,
{
    let r = y % al;
    let q = y / al;
    vstd::arithmetic::div_mod::lemma_fundamental_div_mod(y, al);
    vstd::arithmetic::div_mod::lemma_mod_bound(y, al);
    if r == 0 && al % 8 == 0 {
        let m = al / 8;
        assert(y == 8 * (m * q)) by (nonlinear_arith)
            requires
                y == al * q,
                al == 8 * m,
        ;
    }
    if r != 0 {
        let p = y + al - r;
        assert(p == al * (q + 1)) by (nonlinear_arith)
            requires
                y == al * q + r,
                p == y + al - r,
        ;
        vstd::arithmetic::div_mod::lemma_mod_multiples_basic(q + 1, al);
        assert((q + 1) * al == al * (q + 1)) by (nonlinear_arith);
        if al % 8 == 0 {
            let m = al / 8;
            assert(p == 8 * (m * (q + 1))) by (nonlinear_arith)
                requires
                    p == al * (q + 1),
                    al == 8 * m,
            ;
        }
    }
}

/// Whether a request for `size` bytes aligned to `align` is one that the
/// allocator serves: the alignment is 1, 2, 4 or a multiple of 8, and
/// neither it nor the size is above 1 GiB.
pub open spec fn valid_layout(size: int, align: int) -> bool {
    &&& 0 <= size <= 0x4000_0000
    &&& 0 < align <= 0x4000_0000
    &&& (align == 1 || align == 2 || align == 4 || align % 8 == 0)
}

/// The alignment that a block for a request aligned to `align` gets: that of
/// the header at least.
pub open spec fn block_align(align: int) -> int {
    if align < 8 {
        8
    } else {
        align
    }
}

/// The size of the payload for a request of `size` bytes aligned to
/// `align`: a multiple of the block's alignment, and a header's size at
/// least.
pub open spec fn payload_size(size: int, align: int) -> int {
    let padded = aligned_up(size, block_align(align));
    if padded < 8 {
        8
    } else {
        padded
    }
}

/// Where the payload of a block for alignment `al` lies in free space that
/// starts at `a`: at the first multiple of `al` that leaves room for the
/// header.
pub open spec fn payload_at(a: int, al: int) -> int {
    aligned_up(a + HEADER_SIZE, al)
}

/// Whether a payload of `sz` bytes aligned to `al` fits into `b` with its
/// header.
pub open spec fn fit(b: BlockInfo, sz: int, al: int) -> bool {
    payload_at(b.addr as int, al) + sz <= b.end()
}

/// Rounds `y` up to a multiple of `al`.
fn align_up(y: u64, al: u64) -> (r: u64)
    requires
        0 < al <= 0x4000_0000,
        y <= 0x2_0000_0000,
    ensures
        r == aligned_up(y as int, al as int),
{
    proof {
        lemma_aligned_up(y as int, al as int);
    }
    let rem = y % al;
    if rem == 0 {
        y
    } else {
        y + al - rem
    }
}

/// The block whose payload of `sz` bytes starts at `p`.
pub open spec fn block_for(p: int, sz: int) -> BlockInfo {
    BlockInfo { addr: (p - HEADER_SIZE) as usize, size: (sz + HEADER_SIZE) as usize }
}

/// Block `k` of `free` is the first into which a payload of `sz` bytes
/// aligned to `al` fits.
pub open spec fn first_fit(free: Seq<BlockInfo>, k: int, sz: int, al: int) -> bool {
    &&& 0 <= k < free.len()
    &&& fit(free[k], sz, al)
    &&& forall|j: int| 0 <= j < k ==> !fit(#[trigger] free[j], sz, al)
}

/// A payload of `sz` bytes aligned to `al` fits into no block of `free`.
pub open spec fn no_fit(free: Seq<BlockInfo>, sz: int, al: int) -> bool {
    forall|j: int| 0 <= j < free.len() ==> !fit(#[trigger] free[j], sz, al)
}

/// Number of bytes, a whole number of pages, by which the heap grows to
/// hold at its end a payload of `sz` bytes aligned to `al`.
pub open spec fn growth(h: HeapModel, sz: int, al: int) -> int {
    aligned_up(payload_at(h.end(), al) + sz - h.end(), 0x1000)
}

/// The heap `after` is `before` grown by `grown` bytes, with the block for
/// the payload of `sz` bytes at `p` allocated and everything else as it was.
pub open spec fn taken(before: HeapModel, after: HeapModel, p: int, sz: int, grown: int) -> bool {
    let blk = block_for(p, sz);
    &&& after.start == before.start
    &&& after.max == before.max
    &&& after.size == before.size + grown
    &&& after.used == before.used.push(blk)
    &&& forall|x: int|
        #![trigger after.is_free(x)]
        #![trigger before.is_free(x)]
        after.is_free(x) <==> (before.is_free(x) || before.end() <= x < after.end()) && !blk.holds(x)
}

/// Page `v` of the region of `max` bytes from `start` on is mapped if it
/// lies in the first `size` bytes, and not mapped if it lies behind them.
pub open spec fn backed_page(start: int, size: int, max: int, m: PagingModel, v: int) -> bool {
    (start <= v < start + max && v % 0x1000 == 0) ==> (if v < start + size {
        m.removable(v)
    } else {
        m.translate(v) is None
    })
}

/// The mapper maps the first `size` bytes of the region of `max` bytes from
/// `start` on, page by page, and nothing of the rest of it.
pub open spec fn region_backed(start: int, size: int, max: int, m: PagingModel) -> bool {
    forall|v: int| #[trigger] backed_page(start, size, max, m, v)
}

/// The mapper maps the backed part of the heap, page by page, and nothing
/// of the rest of its region.
pub open spec fn backed_by(h: HeapModel, m: PagingModel) -> bool {
    region_backed(h.start, h.size, h.max, m)
}

/// A mapper whose directory is empty in the slots of a region maps nothing
/// of it, and so backs a heap that has not grown into it yet.
pub proof fn lemma_empty_region(start: int, max: int, m: PagingModel)
    requires
        m.wf(),
        0 <= start,
        0 <= max,
        start + max <= RESERVED_START,
        forall|d: int| start / 0x40_0000 <= d <= (start + max) / 0x40_0000 && d < 1022 ==> m.dir[d] == 0,
    ensures
        region_backed(start, 0, max, m),
{
    assert forall|v: int| #[trigger] backed_page(start, 0, max, m, v) by {
        if start <= v < start + max {
            let d = v / 0x40_0000;
            assert(m.dir[d] == 0);
        }
    }
}

/// What growing the heap for a payload of `sz` bytes aligned to `al` does:
/// the heap grows by the pages that hold the payload at its end, their
/// frames being the lowest run of free frames, and the block for the payload
/// is allocated in them; it fails, changing nothing, where the heap may not
/// grow so far or no such run exists.
pub open spec fn grown(
    hb: HeapModel,
    ha: HeapModel,
    mb: PagingModel,
    ma: PagingModel,
    fb: Seq<bool>,
    fa: Seq<bool>,
    sz: int,
    al: int,
    r: Result<usize, Error>,
) -> bool {
    let g = growth(hb, sz, al);
    let n = g / 0x1000;
    if hb.size + g > hb.max || forall|t: int| !#[trigger] fits(fb, fb.len() as int, t, n) {
        r == Err::<usize, Error>(Error::OutOfMemory) && ha == hb && ma == mb && fa == fb
    } else {
        &&& r == Ok::<usize, Error>(payload_at(hb.end(), al) as usize)
        &&& taken(hb, ha, payload_at(hb.end(), al), sz, g)
        &&& exists|f: int|
            {
                &&& #[trigger] first_run(fb, fb.len() as int, f, n)
                &&& fa == with_range(fb, f, n, true)
                &&& ma == mb.map_pages(f, hb.end(), n as nat)
            }
    }
}

/// What serving a request for a payload of `sz` bytes aligned to `al` does:
/// the payload lies in the first free block that it fits into, and where it
/// fits into none, the heap grows for it.
pub open spec fn served(
    hb: HeapModel,
    ha: HeapModel,
    mb: PagingModel,
    ma: PagingModel,
    fb: Seq<bool>,
    fa: Seq<bool>,
    sz: int,
    al: int,
    r: Result<usize, Error>,
) -> bool {
    if !no_fit(hb.free, sz, al) {
        &&& ma == mb
        &&& fa == fb
        &&& r is Ok
        &&& exists|k: int|
            #[trigger] first_fit(hb.free, k, sz, al) && r->Ok_0 == payload_at(
                hb.free[k].addr as int,
                al,
            )
        &&& taken(hb, ha, r->Ok_0 as int, sz, 0)
    } else {
        grown(hb, ha, mb, ma, fb, fa, sz, al, r)
    }
}

/// What `allocate` does. A request that is not valid is refused, changing
/// nothing. Else a payload of the adjusted size and alignment is served.
pub open spec fn allocated(
    hb: HeapModel,
    ha: HeapModel,
    mb: PagingModel,
    ma: PagingModel,
    fb: Seq<bool>,
    fa: Seq<bool>,
    size: usize,
    align: usize,
    r: Result<usize, Error>,
) -> bool {
    if !valid_layout(size as int, align as int) {
        r == Err::<usize, Error>(Error::InvalidArgument) && ha == hb && ma == mb && fa == fb
    } else {
        served(
            hb,
            ha,
            mb,
            ma,
            fb,
            fa,
            payload_size(size as int, align as int),
            block_align(align as int),
            r,
        )
    }
}

/// No address of an allocated block of a well-formed heap is free.
proof fn lemma_used_not_free(h: HeapModel, i: int, x: int)
    requires
        h.wf(),
        0 <= i < h.used.len(),
        h.used[i].holds(x),
    ensures
        !covers(h.free, x),
{
    if covers(h.free, x) {
        let j = choose|j: int| 0 <= j < h.free.len() && (#[trigger] h.free[j]).holds(x);
        assert(h.used[i].apart(h.free[j]));
    }
}

/// A heap is well formed once a block was moved from its free space to its
/// allocated blocks, be it after the heap grew.
proof fn lemma_taken_wf(hb: HeapModel, ha: HeapModel, blk: BlockInfo)
    requires
        hb.wf(),
        ha.start == hb.start,
        ha.max == hb.max,
        hb.size <= ha.size <= ha.max,
        ha.size % 0x1000 == 0,
        ha.used == hb.used.push(blk),
        spaced(ha.free),
        all_within(ha.free, ha.start, ha.end()),
        blk.within(ha.start, ha.end()),
        forall|x: int|
            #![trigger covers(ha.free, x)]
            #![trigger covers(hb.free, x)]
            covers(ha.free, x) <==> (covers(hb.free, x) || hb.end() <= x < ha.end()) && !blk.holds(x),
        forall|x: int|
            #![trigger covers(hb.free, x)]
            blk.holds(x) ==> covers(hb.free, x) || hb.end() <= x < ha.end(),
    ensures
        ha.wf(),
{
    assert forall|i: int| 0 <= i < ha.used.len() implies (#[trigger] ha.used[i]).within(
        ha.start,
        ha.end(),
    ) by {
        if i < hb.used.len() {
            assert(hb.used[i].within(hb.start, hb.end()));
        }
    }
    assert forall|i: int, j: int| 0 <= i < j < ha.used.len() implies (#[trigger] ha.used[i]).apart(
        #[trigger] ha.used[j],
    ) by {
        if j < hb.used.len() {
            assert(hb.used[i].apart(hb.used[j]));
        } else {
            let u = hb.used[i];
            assert(u.within(hb.start, hb.end()));
            let x = if u.addr >= blk.addr { u.addr as int } else { blk.addr as int };
            if !u.apart(blk) {
                assert(u.holds(x) && blk.holds(x));
                lemma_used_not_free(hb, i, x);
            }
        }
    }
    assert forall|i: int, j: int|
        0 <= i < ha.used.len() && 0 <= j < ha.free.len() implies (#[trigger] ha.used[i]).apart(
        #[trigger] ha.free[j],
    ) by {
        let u = ha.used[i];
        assert(ha.free[j].within(ha.start, ha.end()));
        assert forall|x: int| u.holds(x) implies !covers(ha.free, x) by {
            if i < hb.used.len() {
                assert(u == hb.used[i]);
                assert(hb.used[i].within(hb.start, hb.end()));
                assert(x < hb.end());
                lemma_used_not_free(hb, i, x);
                assert(!covers(hb.free, x));
            } else {
                assert(u == blk);
            }
        }
        lemma_apart(u, ha.free, j);
    }
}

/// One line of a listing of the free blocks: the place of a block in the
/// list, its size and its address.
#[derive(Clone, Copy, Debug, PartialEq, Eq, Structural)]
pub struct ListLine {
    pub index: usize,
    pub size: usize,
    pub addr: usize,
}

/// The kernel heap allocator.
pub struct ListAllocator {
    free: Vec<BlockInfo>,
    used: Vec<BlockInfo>,
    /// Virtual address of the heap's start.
    memstart: usize,
    /// Current size of the heap.
    heapsize: usize,
    /// Largest size of the heap.
    heapmax: usize,
}

impl View for ListAllocator {
    type V = HeapModel;

    closed spec fn view(&self) -> HeapModel {
        HeapModel {
            free: self.free@,
            used: self.used@,
            start: self.memstart as int,
            size: self.heapsize as int,
            max: self.heapmax as int,
        }
    }
}

impl ListAllocator {
    /// See [`HeapModel::wf`].
    pub open spec fn wf(&self) -> bool {
        self@.wf()
    }

    /// An allocator without a region to grow into.
    pub fn default() -> (a: Self)
        ensures
            a.wf(),
            a@.free.len() == 0,
            a@.used.len() == 0,
            a@.start == 0,
            a@.size == 0,
            a@.max == 0,
    {
        ListAllocator { free: Vec::new(), used: Vec::new(), memstart: 0, heapsize: 0, heapmax: 0 }
    }

    /// The size and the alignment of the payload that serves a request for
    /// `size` bytes aligned to `align`, if the request is valid.
    pub fn adjust_layout(size: usize, align: usize) -> (r: Option<(usize, usize)>)
        ensures
            match r {
                Some(l) => {
                    &&& valid_layout(size as int, align as int)
                    &&& l.0 == payload_size(size as int, align as int)
                    &&& l.1 == block_align(align as int)
                    &&& l.0 % 8 == 0
                    &&& l.1 % 8 == 0
                    &&& 8 <= l.0 <= 0x8000_0000
                    &&& size <= l.0
                },
                None => !valid_layout(size as int, align as int),
            },
    {
        if size > 0x4000_0000 || align == 0 || align > 0x4000_0000 {
            return None;
        }
        if !(align == 1 || align == 2 || align == 4 || align % 8 == 0) {
            return None;
        }
        let al: usize = if align < 8 { 8 } else { align };
        proof {
            lemma_aligned_up(size as int, al as int);
        }
        let padded = align_up(size as u64, al as u64);
        let sz: usize = if padded < 8 { 8 } else { padded as usize };
        Some((sz, al))
    }

    /// Index of the first free block that a payload of `sz` bytes aligned to
    /// `al` fits into, and the payload's address in it.
    fn find_fit(&self, sz: usize, al: usize) -> (r: Option<(usize, usize)>)
        requires
            self.wf(),
            0 < al <= 0x4000_0000,
            al % 8 == 0,
            sz <= 0x8000_0000,
        ensures
            match r {
                Some(f) => {
                    &&& first_fit(self@.free, f.0 as int, sz as int, al as int)
                    &&& f.1 == payload_at(self@.free[f.0 as int].addr as int, al as int)
                    &&& f.1 % 8 == 0
                    &&& f.1 % al == 0
                    &&& self@.free[f.0 as int].addr + 8 <= f.1
                    &&& f.1 + sz <= self@.free[f.0 as int].end()
                },
                None => no_fit(self@.free, sz as int, al as int),
            },
    {
        let n = self.free.len();
        let mut k: usize = 0;
        while k < n
            invariant
                self.wf(),
                k <= n,
                n == self.free@.len(),
                0 < al <= 0x4000_0000,
                al % 8 == 0,
                sz <= 0x8000_0000,
                forall|j: int| 0 <= j < k ==> !fit(#[trigger] self.free@[j], sz as int, al as int),
            decreases n - k,
        {
            let b = self.free[k];
            assert(self@.free[k as int].within(self@.start, self@.end()));
            proof {
                lemma_aligned_up(b.addr + 8, al as int);
            }
            let p = align_up(b.addr as u64 + 8, al as u64);
            if p + sz as u64 <= b.addr as u64 + b.size as u64 {
                return Some((k, p as usize));
            }
            k = k + 1;
        }
        None
    }

    /// Allocates the block for a payload of `sz` bytes at `p` from the
    /// `k`-th free block.
    #[verifier::rlimit(50)]
    fn carve(&mut self, k: usize, p: usize, sz: usize)
        requires
            old(self).wf(),
            k < old(self)@.free.len(),
            sz % 8 == 0,
            sz >= 8,
            p % 8 == 0,
            old(self)@.free[k as int].addr + 8 <= p,
            p + sz <= old(self)@.free[k as int].end(),
        ensures
            final(self).wf(),
            taken(old(self)@, final(self)@, p as int, sz as int, 0),
    {
        let ghost hb = self@;
        proof {
            lemma_carve_fits(hb, k as int, p as int, sz as int);
        }
        let blk = BlockInfo { addr: p - 8, size: sz + 8 };
        take_block(&mut self.free, k, blk, self.memstart, self.memstart + self.heapsize);
        self.used.push(blk);
        proof {
            lemma_carved(hb, self@, k as int, blk);
        }
    }
}

/// The block for a payload that lies in a free block lies in the heap, and
/// the free list is one that a block can be taken from.
proof fn lemma_carve_fits(hb: HeapModel, k: int, p: int, sz: int)
    requires
        hb.wf(),
        0 <= k < hb.free.len(),
        sz >= 8,
        sz % 8 == 0,
        p % 8 == 0,
        hb.free[k].addr + 8 <= p,
        p + sz <= hb.free[k].end(),
    ensures
        spaced(hb.free),
        all_within(hb.free, hb.start, hb.end()),
        block_for(p, sz).within(hb.start, hb.end()),
        hb.free[k].addr <= block_for(p, sz).addr,
        block_for(p, sz).end() <= hb.free[k].end(),
        0 <= hb.start,
        hb.end() <= RESERVED_START,
{
    assert(hb.free[k].within(hb.start, hb.end()));
}

/// Once a block that lay in a free block was taken from the free list and
/// added to the allocated blocks, the heap is well formed and differs from
/// what it was by that block.
proof fn lemma_carved(hb: HeapModel, ha: HeapModel, k: int, blk: BlockInfo)
    requires
        hb.wf(),
        0 <= k < hb.free.len(),
        hb.free[k].addr <= blk.addr,
        blk.end() <= hb.free[k].end(),
        blk.within(hb.start, hb.end()),
        blk.size >= 16,
        ha.start == hb.start,
        ha.max == hb.max,
        ha.size == hb.size,
        ha.used == hb.used.push(blk),
        spaced(ha.free),
        all_within(ha.free, hb.start, hb.end()),
        forall|x: int|
            #![trigger covers(ha.free, x)]
            #![trigger covers(hb.free, x)]
            covers(ha.free, x) <==> covers(hb.free, x) && !blk.holds(x),
    ensures
        ha.wf(),
        taken(hb, ha, blk.addr + 8, blk.size - 8, 0),
{
    assert(ha.end() == hb.end());
    assert forall|x: int| blk.holds(x) implies covers(hb.free, x) by {
        assert(hb.free[k].holds(x));
    }
    lemma_taken_wf(hb, ha, blk);
    assert(block_for(blk.addr + 8, blk.size - 8) == blk);
}

/// Once `n` pages were mapped behind the backed part of a region, the
/// mapper maps exactly the part that is longer by them.
proof fn lemma_grown_backed(start: int, size: int, max: int, mb: PagingModel, f: int, n: nat)
    requires
        mb.wf(),
        region_backed(start, size, max, mb),
        0 <= start,
        0 <= size,
        start % 0x1000 == 0,
        size % 0x1000 == 0,
        size + n * 0x1000 <= max,
        start + max <= RESERVED_START,
        0 <= f,
        f + n <= crate::memory::N_PAGES,
    ensures
        pages_unmapped(mb, start + size, n as int),
        mb.map_pages(f, start + size, n).wf(),
        region_backed(start, size + n * 0x1000, max, mb.map_pages(f, start + size, n)),
{
    let v = start + size;
    assert forall|x: int| page_of(v, n as int, x) && x < RESERVED_START implies #[trigger] mb.translate(
        x,
    ) is None by {
        assert(backed_page(start, size, max, mb, x));
    }
    lemma_map_pages(mb, f, v, n);
    let ma = mb.map_pages(f, v, n);
    assert forall|w: int| #[trigger] backed_page(start, size + n * 0x1000, max, ma, w) by {
        assert(backed_page(start, size, max, mb, w));
        if start <= w < start + max && w % 0x1000 == 0 {
            assert(ma.removable(w) == (if v <= w < v + n * 0x1000 {
                true
            } else {
                mb.removable(w)
            }));
            assert(ma.translate(w) == (if v <= w < v + n * 0x1000 {
                Some((f + (w - v) / 0x1000) * 0x1000 + w % 0x1000)
            } else {
                mb.translate(w)
            }));
        }
    }
}

/// Once the mappings of the last `n` pages of the backed part of a region
/// were removed, the mapper maps exactly the part that is shorter by them.
proof fn lemma_shrunk_backed(start: int, size: int, max: int, mb: PagingModel, n: nat)
    requires
        mb.wf(),
        region_backed(start, size, max, mb),
        0 <= start,
        start % 0x1000 == 0,
        size % 0x1000 == 0,
        0 <= size - n * 0x1000,
        size <= max,
    ensures
        pages_removable(mb, start + size - n * 0x1000, n as int),
        mb.unmap_pages(start + size - n * 0x1000, n).wf(),
        region_backed(start, size - n * 0x1000, max, mb.unmap_pages(start + size - n * 0x1000, n)),
{
    let v = start + size - n * 0x1000;
    assert forall|x: int| page_of(v, n as int, x) implies #[trigger] unmap_refusal(mb, x) is None by {
        assert(backed_page(start, size, max, mb, x));
    }
    lemma_unmap_pages(mb, v, n);
    let ma = mb.unmap_pages(v, n);
    assert forall|w: int| #[trigger] backed_page(start, size - n * 0x1000, max, ma, w) by {
        assert(backed_page(start, size, max, mb, w));
        if start <= w < start + max && w % 0x1000 == 0 {
            assert(ma.removable(w) == (if v <= w < v + n * 0x1000 {
                false
            } else {
                mb.removable(w)
            }));
            assert(ma.translate(w) == (if v <= w < v + n * 0x1000 {
                None
            } else {
                mb.translate(w)
            }));
        }
    }
}

/// What is free after the heap grew: what was free, and what of the new
/// pages lies in front of and behind the block allocated in them.
proof fn lemma_grown_cover(
    f0: Seq<BlockInfo>,
    f1: Seq<BlockInfo>,
    f2: Seq<BlockInfo>,
    front: BlockInfo,
    blk: BlockInfo,
    tail: BlockInfo,
    lo: int,
    end: int,
    new_end: int,
)
    requires
        all_within(f0, lo, end),
        front.addr == end,
        front.end() == blk.addr,
        blk.end() == tail.addr,
        tail.end() == new_end,
        forall|x: int|
            #![trigger covers(f1, x)]
            #![trigger covers(f0, x)]
            covers(f1, x) <==> covers(f0, x) || front.holds(x),
        forall|x: int|
            #![trigger covers(f2, x)]
            #![trigger covers(f1, x)]
            covers(f2, x) <==> covers(f1, x) || tail.holds(x),
    ensures
        forall|x: int|
            #![trigger covers(f2, x)]
            #![trigger covers(f0, x)]
            covers(f2, x) <==> (covers(f0, x) || end <= x < new_end) && !blk.holds(x),
        forall|x: int| #![trigger covers(f0, x)] blk.holds(x) ==> covers(f0, x) || end <= x < new_end,
{
    assert forall|x: int|
        #![trigger covers(f2, x)]
        #![trigger covers(f0, x)]
        covers(f2, x) <==> (covers(f0, x) || end <= x < new_end) && !blk.holds(x) by {
        assert(covers(f2, x) <==> covers(f1, x) || tail.holds(x));
        assert(covers(f1, x) <==> covers(f0, x) || front.holds(x));
        if covers(f0, x) {
            let i = choose|i: int| 0 <= i < f0.len() && (#[trigger] f0[i]).holds(x);
            assert(f0[i].within(lo, end));
        }
    }
}

/// Adds to the free list `free`, whose blocks lie below `end`, what of the
/// range from `end` to `new_end` lies in front of and behind `blk`.
#[verifier::rlimit(50)]
fn add_around(free: &mut Vec<BlockInfo>, blk: BlockInfo, lo: usize, end: usize, new_end: usize)
    requires
        spaced(old(free)@),
        all_within(old(free)@, lo as int, end as int),
        lo <= end <= new_end,
        end % 8 == 0,
        new_end % 8 == 0,
        blk.within(end as int, new_end as int),
    ensures
        spaced(final(free)@),
        all_within(final(free)@, lo as int, new_end as int),
        forall|x: int|
            #![trigger covers(final(free)@, x)]
            #![trigger covers(old(free)@, x)]
            covers(final(free)@, x) <==> (covers(old(free)@, x) || end <= x < new_end) && !blk.holds(
                x,
            ),
        forall|x: int|
            #![trigger covers(old(free)@, x)]
            blk.holds(x) ==> covers(old(free)@, x) || end <= x < new_end,
{
    let front = BlockInfo { addr: end, size: blk.addr - end };
    let tail = BlockInfo { addr: blk.addr + blk.size, size: new_end - (blk.addr + blk.size) };
    let ghost f0 = free@;
    assert forall|i: int| 0 <= i < f0.len() implies (#[trigger] f0[i]).within(
        lo as int,
        new_end as int,
    ) && f0[i].apart(front) by {
        assert(f0[i].within(lo as int, end as int));
    }
    if front.size > 0 {
        insert_block(free, front, lo, new_end);
    }
    let ghost f1 = free@;
    assert forall|i: int| 0 <= i < f1.len() implies (#[trigger] f1[i]).apart(tail) by {
        assert(f1[i].within(lo as int, new_end as int));
        if tail.size > 0 {
            assert forall|x: int| #![trigger covers(f1, x)] tail.holds(x) implies !covers(f1, x) by {
                if covers(f0, x) {
                    let j = choose|j: int| 0 <= j < f0.len() && (#[trigger] f0[j]).holds(x);
                    assert(f0[j].within(lo as int, end as int));
                }
            }
            lemma_apart(tail, f1, i);
        }
    }
    if tail.size > 0 {
        insert_block(free, tail, lo, new_end);
    }
    proof {
        lemma_grown_cover(f0, f1, free@, front, blk, tail, lo as int, end as int, new_end as int);
    }
}

/// Takes `npages` frames from `pmm` and maps them behind the first `size`
/// bytes of the region of `max` bytes from `start` on, which `mapper` backs.
#[verifier::rlimit(50)]
fn extend_backing(
    mapper: &mut PageDir,
    pmm: &mut BitMap,
    start: usize,
    size: usize,
    max: usize,
    npages: usize,
) -> (r: Result<FrameRange, Error>)
    requires
        old(mapper).wf(),
        old(pmm).inv(),
        region_backed(start as int, size as int, max as int, old(mapper)@),
        start % 0x1000 == 0,
        size % 0x1000 == 0,
        npages > 0,
        size + npages * 0x1000 <= max,
        start + max <= RESERVED_START,
    ensures
        final(mapper).wf(),
        final(pmm).inv(),
        run_allocated(old(pmm)@, final(pmm)@, npages, Zone::Normal, r),
        match r {
            Ok(range) => {
                &&& final(mapper)@ == old(mapper)@.map_pages(
                    range.start.0 as int,
                    start + size,
                    npages as nat,
                )
                &&& region_backed(
                    start as int,
                    size + npages * 0x1000,
                    max as int,
                    final(mapper)@,
                )
            },
            Err(_) => final(mapper)@ == old(mapper)@,
        },
{
    let ghost mb = mapper@;
    let range = match pmm.alloc_contiguous_pages(npages, Zone::Normal) {
        Ok(range) => range,
        Err(e) => {
            return Err(e);
        },
    };
    let end = start + size;
    proof {
        assert(fits(old(pmm)@, old(pmm)@.len() as int, range.start.0 as int, npages as int));
        lemma_grown_backed(
            start as int,
            size as int,
            max as int,
            mb,
            range.start.0 as int,
            npages as nat,
        );
    }
    match mapper.map_range(range, end) {
        Ok(_) => {},
        Err(_) => {
            assert(false);
        },
    }
    Ok(range)
}

impl ListAllocator {
    /// Where the payload of `sz` bytes aligned to `al` lies if the heap
    /// grows for it, and by how many bytes the heap grows.
    fn plan_growth(&self, sz: usize, al: usize) -> (r: (u64, u64))
        requires
            self.wf(),
            0 < al <= 0x4000_0000,
            al % 8 == 0,
            sz % 8 == 0,
            8 <= sz <= 0x8000_0000,
        ensures
            r.0 == payload_at(self@.end(), al as int),
            r.1 == growth(self@, sz as int, al as int),
            r.0 % 8 == 0,
            r.0 % (al as u64) == 0,
            self@.end() + 8 <= r.0,
            r.0 + sz <= self@.end() + r.1,
            r.1 % 0x1000 == 0,
            0 < r.1,
    {
        let end = self.memstart + self.heapsize;
        proof {
            lemma_aligned_up(end + 8, al as int);
        }
        let p = align_up(end as u64 + 8, al as u64);
        let needed = p + sz as u64 - end as u64;
        proof {
            lemma_aligned_up(needed as int, 0x1000);
        }
        let total = align_up(needed, 0x1000);
        (p, total)
    }

    /// Allocates the block for a payload of `sz` bytes at `p` in the
    /// `total` bytes by which the heap has just grown.
    #[verifier::rlimit(50)]
    fn place_grown(&mut self, p: usize, sz: usize, total: usize)
        requires
            old(self).wf(),
            old(self)@.size + total <= old(self)@.max,
            total % 0x1000 == 0,
            sz % 8 == 0,
            sz >= 8,
            p % 8 == 0,
            old(self)@.end() + 8 <= p,
            p + sz <= old(self)@.end() + total,
        ensures
            final(self).wf(),
            taken(old(self)@, final(self)@, p as int, sz as int, total as int),
    {
        let ghost hb = self@;
        let end = self.memstart + self.heapsize;
        let blk = BlockInfo { addr: p - 8, size: sz + 8 };
        assert(all_within(hb.free, hb.start, hb.end()));
        assert(spaced(hb.free));
        add_around(&mut self.free, blk, self.memstart, end, end + total);
        self.used.push(blk);
        self.heapsize = self.heapsize + total;
        proof {
            lemma_taken_wf(hb, self@, blk);
        }
    }

    /// Grows the heap by the pages that hold a payload of `sz` bytes aligned
    /// to `al` at its end, and allocates the block for it there.
    #[verifier::rlimit(50)]
    fn grow(&mut self, mapper: &mut PageDir, pmm: &mut BitMap, sz: usize, al: usize) -> (r: Result<
        usize,
        Error,
    >)
        requires
            old(self).wf(),
            old(mapper).wf(),
            old(pmm).inv(),
            backed_by(old(self)@, old(mapper)@),
            0 < al <= 0x4000_0000,
            al % 8 == 0,
            sz % 8 == 0,
            8 <= sz <= 0x8000_0000,
        ensures
            final(self).wf(),
            final(mapper).wf(),
            final(pmm).inv(),
            backed_by(final(self)@, final(mapper)@),
            grown(
                old(self)@,
                final(self)@,
                old(mapper)@,
                final(mapper)@,
                old(pmm)@,
                final(pmm)@,
                sz as int,
                al as int,
                r,
            ),
            r is Ok ==> {
                &&& r->Ok_0 % al == 0
                &&& r->Ok_0 >= 8
                &&& taken(
                    old(self)@,
                    final(self)@,
                    r->Ok_0 as int,
                    sz as int,
                    final(self)@.size - old(self)@.size,
                )
            },
    {
        let (p, total) = self.plan_growth(sz, al);
        if total > (self.heapmax - self.heapsize) as u64 {
            return Err(Error::OutOfMemory);
        }
        let p = p as usize;
        let total = total as usize;
        let npages = total / 0x1000;
        let ghost hb = self@;
        let ghost fb = pmm@;
        let ghost n = growth(hb, sz as int, al as int) / 0x1000;
        assert(n == npages);
        match extend_backing(mapper, pmm, self.memstart, self.heapsize, self.heapmax, npages) {
            Ok(range) => {
                proof {
                    let f = range.start.0 as int;
                    assert(first_run(fb, fb.len() as int, f, n));
                    assert(fits(fb, fb.len() as int, f, n));
                    assert(pmm@ == with_range(fb, f, n, true));
                    assert(mapper@ == old(mapper)@.map_pages(f, hb.end(), n as nat));
                }
                self.place_grown(p, sz, total);
                Ok(p)
            },
            Err(_) => {
                proof {
                    assert(crate::memory::pmm::zone_limit(Zone::Normal, fb.len() as int) == fb.len());
                    assert(forall|t: int| !#[trigger] fits(fb, fb.len() as int, t, n));
                }
                Err(Error::OutOfMemory)
            },
        }
    }
}

/// A block without an address, which helps to speak of a heap from which no
/// block is being freed.
pub open spec fn no_block() -> BlockInfo {
    BlockInfo { addr: 0, size: 0 }
}

/// Whether address `x` is free in `h` once `blk` was freed.
pub open spec fn freed_at(h: HeapModel, blk: BlockInfo, x: int) -> bool {
    h.is_free(x) || blk.holds(x)
}

/// `e` is where the heap `h` ends once `blk` was freed and the heap gave up
/// the pages at its end that are entirely free: what lies between `e` and
/// the end of `h` is free, and the page in front of `e`, if the heap has
/// one, is not entirely free.
pub open spec fn trimmed(h: HeapModel, blk: BlockInfo, e: int) -> bool {
    &&& h.start <= e <= h.end()
    &&& e % 0x1000 == 0
    &&& forall|x: int| e <= x < h.end() ==> #[trigger] freed_at(h, blk, x)
    &&& e > h.start ==> exists|x: int| e - 0x1000 <= x < e && !#[trigger] freed_at(h, blk, x)
}

/// The heap `ha` is `hb` with the allocated block `u` freed: the block is no
/// longer allocated, the heap has given up the pages at its end that are
/// entirely free, and what of the block and of the free space of `hb` lies
/// in front of the new end is free.
pub open spec fn heap_freed(hb: HeapModel, ha: HeapModel, u: int) -> bool {
    let blk = hb.used[u];
    &&& 0 <= u < hb.used.len()
    &&& ha.start == hb.start
    &&& ha.max == hb.max
    &&& ha.used == hb.used.remove(u)
    &&& trimmed(hb, blk, ha.end())
    &&& forall|x: int| #[trigger] ha.is_free(x) <==> freed_at(hb, blk, x) && x < ha.end()
}

/// The pages that the heap gave up are no longer mapped, and their frames
/// were given back.
pub open spec fn backing_released(
    hb: HeapModel,
    ha: HeapModel,
    mb: PagingModel,
    ma: PagingModel,
    fb: Seq<bool>,
    fa: Seq<bool>,
) -> bool {
    let n = ((hb.end() - ha.end()) / 0x1000) as nat;
    &&& ma == mb.unmap_pages(ha.end(), n)
    &&& fa == released_pages(fb, mb, ha.end(), n)
}

/// Two addresses between which everything is free lie in one free block.
pub proof fn lemma_same_block(h: HeapModel, x: int, y: int)
    requires
        h.wf(),
        x <= y,
        forall|z: int| x <= z <= y ==> #[trigger] h.is_free(z),
    ensures
        exists|i: int| 0 <= i < h.free.len() && (#[trigger] h.free[i]).holds(x) && h.free[i].holds(y),
{
    assert(h.is_free(x));
    let i = choose|i: int| 0 <= i < h.free.len() && (#[trigger] h.free[i]).holds(x);
    if !h.free[i].holds(y) {
        let z = h.free[i].end();
        assert(h.is_free(z));
        let j = choose|j: int| 0 <= j < h.free.len() && (#[trigger] h.free[j]).holds(z);
        if i < j {
            assert(h.free[i].end() < h.free[j].addr);
        } else if j < i {
            assert(h.free[j].end() < h.free[i].addr);
        }
        assert(false);
    }
}

/// After two blocks that touch were freed, in either order, what is left of
/// them in the heap lies in one free block.
pub proof fn lemma_adjacent_frees_coalesce(
    h0: HeapModel,
    h1: HeapModel,
    h2: HeapModel,
    u1: int,
    u2: int,
    x: int,
    y: int,
)
    requires
        h0.wf(),
        h1.wf(),
        h2.wf(),
        heap_freed(h0, h1, u1),
        heap_freed(h1, h2, u2),
        h0.used[u1].end() == h1.used[u2].addr || h1.used[u2].end() == h0.used[u1].addr,
        h0.used[u1].holds(x) || h1.used[u2].holds(x),
        h0.used[u1].holds(y) || h1.used[u2].holds(y),
        x < h2.end(),
        y < h2.end(),
    ensures
        exists|i: int| 0 <= i < h2.free.len() && (#[trigger] h2.free[i]).holds(x) && h2.free[i].holds(y),
{
    let a = h0.used[u1];
    let b = h1.used[u2];
    assert forall|z: int| (a.holds(z) || b.holds(z)) && z < h2.end() implies #[trigger] h2.is_free(
        z,
    ) by {
        if a.holds(z) {
            assert(freed_at(h0, a, z));
            assert(h1.is_free(z));
        }
        assert(freed_at(h1, b, z));
    }
    if x <= y {
        lemma_same_block(h2, x, y);
    } else {
        lemma_same_block(h2, y, x);
    }
}

/// What `deallocate` does with the block whose payload starts at `ptr`.
pub open spec fn deallocated(
    hb: HeapModel,
    ha: HeapModel,
    mb: PagingModel,
    ma: PagingModel,
    fb: Seq<bool>,
    fa: Seq<bool>,
    ptr: usize,
) -> bool {
    &&& exists|u: int| #[trigger] hb.used[u].addr + HEADER_SIZE == ptr && heap_freed(hb, ha, u)
    &&& backing_released(hb, ha, mb, ma, fb, fa)
}

impl HeapModel {
    /// Whether `ptr` is the address of the payload of an allocated block.
    pub open spec fn owns(&self, ptr: int) -> bool {
        exists|u: int| 0 <= u < self.used.len() && (#[trigger] self.used[u]).addr + HEADER_SIZE == ptr
    }
}

/// Where the heap ends once the pages at its end that are entirely free
/// were given up.
proof fn lemma_trim_point(h: HeapModel, e: int)
    requires
        h.wf(),
        h.start <= e <= h.end(),
        e % 0x1000 == 0,
        if h.free.len() > 0 && h.free.last().end() == h.end() {
            h.free.last().addr <= e < h.free.last().addr + 0x1000
        } else {
            e == h.end()
        },
    ensures
        trimmed(h, no_block(), e),
{
    let n = h.free.len() as int;
    assert forall|x: int| e <= x < h.end() implies #[trigger] freed_at(h, no_block(), x) by {
        assert(h.free[n - 1].holds(x));
    }
    if e > h.start {
        let x = if n > 0 && h.free.last().end() == h.end() {
            h.free.last().addr - 1
        } else {
            h.end() - 1
        };
        if h.is_free(x) {
            let j = choose|j: int| 0 <= j < h.free.len() && (#[trigger] h.free[j]).holds(x);
            assert(h.free[j].within(h.start, h.end()));
            if j < n - 1 {
                assert(h.free[j].end() < h.free[n - 1].addr);
                assert(h.free[n - 1].within(h.start, h.end()));
            }
        }
        assert(!freed_at(h, no_block(), x));
        if n > 0 {
            assert(h.free[n - 1].within(h.start, h.end()));
        }
        assert(e - 0x1000 <= x < e);
    }
}

impl ListAllocator {
    /// Index of the allocated block whose payload starts at `ptr`.
    fn position(&self, ptr: usize) -> (r: Option<usize>)
        requires
            self.wf(),
        ensures
            match r {
                Some(u) => u < self@.used.len() && self@.used[u as int].addr + HEADER_SIZE == ptr,
                None => !self@.owns(ptr as int),
            },
    {
        let n = self.used.len();
        let mut u: usize = 0;
        while u < n
            invariant
                self.wf(),
                u <= n,
                n == self.used@.len(),
                forall|j: int| 0 <= j < u ==> (#[trigger] self.used@[j]).addr + HEADER_SIZE != ptr,
            decreases n - u,
        {
            assert(self@.used[u as int].within(self@.start, self@.end()));
            if self.used[u].addr + HEADER_SIZE == ptr {
                return Some(u);
            }
            u = u + 1;
        }
        None
    }

    /// Whether `ptr` is the address of the payload of an allocated block.
    pub fn owns(&self, ptr: usize) -> (b: bool)
        requires
            self.wf(),
        ensures
            b == self@.owns(ptr as int),
    {
        self.position(ptr).is_some()
    }

    /// Gives up the last `npages` pages of the heap, which hold no block.
    #[verifier::rlimit(50)]
    fn decrease_heap(&mut self, mapper: &mut PageDir, pmm: &mut BitMap, npages: usize)
        requires
            old(self).wf(),
            old(mapper).wf(),
            old(pmm).inv(),
            backed_by(old(self)@, old(mapper)@),
            npages * 0x1000 <= old(self)@.size,
            all_within(old(self)@.free, old(self)@.start, old(self)@.end() - npages * 0x1000),
            all_within(old(self)@.used, old(self)@.start, old(self)@.end() - npages * 0x1000),
        ensures
            final(self).wf(),
            final(mapper).wf(),
            final(pmm).inv(),
            backed_by(final(self)@, final(mapper)@),
            final(self)@ == (HeapModel { size: old(self)@.size - npages * 0x1000, ..old(self)@ }),
            backing_released(
                old(self)@,
                final(self)@,
                old(mapper)@,
                final(mapper)@,
                old(pmm)@,
                final(pmm)@,
            ),
    {
        let ghost hb = self@;
        let ghost mb = mapper@;
        let cut = self.memstart + self.heapsize - npages * 0x1000;
        proof {
            lemma_shrunk_backed(hb.start, hb.size, hb.max, mb, npages as nat);
        }
        match mapper.unmap_range(pmm, cut, npages) {
            Ok(_) => {},
            Err(e) => {
                proof {
                    let i = choose|i: int|
                        0 <= i < npages && #[trigger] crate::arch::x86::paging::first_refused(
                            mb,
                            cut as int,
                            i,
                            e,
                        );
                    assert(page_of(cut as int, npages as int, cut + i * 0x1000));
                    assert(unmap_refusal(mb, cut + i * 0x1000) is None);
                }
                assert(false);
            },
        }
        self.heapsize = self.heapsize - npages * 0x1000;
        proof {
            let ha = self@;
            assert(ha.free == hb.free);
            assert(ha.used == hb.used);
            assert forall|i: int| 0 <= i < ha.free.len() implies (#[trigger] ha.free[i]).within(
                ha.start,
                ha.end(),
            ) by {
                assert(hb.free[i].within(hb.start, hb.end() - npages * 0x1000));
            }
            assert forall|i: int| 0 <= i < ha.used.len() implies (#[trigger] ha.used[i]).within(
                ha.start,
                ha.end(),
            ) by {
                assert(hb.used[i].within(hb.start, hb.end() - npages * 0x1000));
            }
            assert forall|i: int, j: int| 0 <= i < j < ha.free.len() implies (
            #[trigger] ha.free[i]).end() < (#[trigger] ha.free[j]).addr by {
                assert(hb.free[i].end() < hb.free[j].addr);
            }
            assert forall|i: int, j: int| 0 <= i < j < ha.used.len() implies (
            #[trigger] ha.used[i]).apart(#[trigger] ha.used[j]) by {
                assert(hb.used[i].apart(hb.used[j]));
            }
            assert forall|i: int, j: int|
                0 <= i < ha.used.len() && 0 <= j < ha.free.len() implies (
            #[trigger] ha.used[i]).apart(#[trigger] ha.free[j]) by {
                assert(hb.used[i].apart(hb.free[j]));
            }
        }
    }
}

/// Drops from the free list `free` what of its last block lies at or behind
/// `cut`.
#[verifier::rlimit(50)]
fn cut_last(free: &mut Vec<BlockInfo>, cut: usize, lo: usize, hi: usize)
    requires
        spaced(old(free)@),
        all_within(old(free)@, lo as int, hi as int),
        old(free)@.len() > 0,
        old(free)@.last().addr <= cut <= old(free)@.last().end(),
        cut % 8 == 0,
    ensures
        spaced(final(free)@),
        all_within(final(free)@, lo as int, cut as int),
        forall|x: int|
            #![trigger covers(final(free)@, x)]
            #![trigger covers(old(free)@, x)]
            covers(final(free)@, x) <==> covers(old(free)@, x) && x < cut,
{
    let n = free.len();
    let last = free[n - 1];
    let ghost s = free@;
    assert(s[n - 1].within(lo as int, hi as int));
    if cut == last.addr {
        free.remove(n - 1);
    } else {
        free[n - 1] = BlockInfo { addr: last.addr, size: cut - last.addr };
    }
    proof {
        let t = free@;
        assert forall|i: int| 0 <= i < t.len() implies (#[trigger] t[i]).within(lo as int, cut as int) by {
            assert(s[i].within(lo as int, hi as int));
            if i < n - 1 {
                assert(s[i].end() < s[n - 1].addr);
            }
        }
        assert forall|i: int, j: int| 0 <= i < j < t.len() implies (#[trigger] t[i]).end() < (
        #[trigger] t[j]).addr by {
            assert(s[i].end() < s[j].addr);
        }
        assert forall|x: int|
            #![trigger covers(t, x)]
            #![trigger covers(s, x)]
            covers(t, x) <==> covers(s, x) && x < cut by {
            if covers(t, x) {
                let i = choose|i: int| 0 <= i < t.len() && (#[trigger] t[i]).holds(x);
                assert(s[i].holds(x));
                assert(t[i].within(lo as int, cut as int));
            }
            if covers(s, x) && x < cut {
                let i = choose|i: int| 0 <= i < s.len() && (#[trigger] s[i]).holds(x);
                if i < n - 1 {
                    assert(t[i].holds(x));
                } else {
                    assert(t[n - 1].holds(x));
                }
            }
        }
    }
}

/// A heap is well formed once the end of its last free block, which reached
/// the heap's end, was dropped from the free list; no block then reaches
/// beyond where the free list was cut.
proof fn lemma_cut_wf(hb: HeapModel, hm: HeapModel, cut: int)
    requires
        hb.wf(),
        hb.free.len() > 0,
        hb.free.last().end() == hb.end(),
        hb.free.last().addr <= cut <= hb.end(),
        hm == (HeapModel { free: hm.free, ..hb }),
        spaced(hm.free),
        all_within(hm.free, hb.start, cut),
        forall|x: int|
            #![trigger covers(hm.free, x)]
            #![trigger covers(hb.free, x)]
            covers(hm.free, x) <==> covers(hb.free, x) && x < cut,
    ensures
        hm.wf(),
        all_within(hm.used, hm.start, cut),
{
    let n = hb.free.len() as int;
    assert(hb.free[n - 1].within(hb.start, hb.end()));
    assert forall|i: int| 0 <= i < hm.free.len() implies (#[trigger] hm.free[i]).within(
        hm.start,
        hm.end(),
    ) by {
        assert(hm.free[i].within(hb.start, cut));
    }
    assert forall|i: int| 0 <= i < hm.used.len() implies (#[trigger] hm.used[i]).within(
        hm.start,
        cut,
    ) by {
        assert(hb.used[i].within(hb.start, hb.end()));
        assert(hb.used[i].apart(hb.free[n - 1]));
    }
    assert forall|i: int, j: int| 0 <= i < j < hm.used.len() implies (#[trigger] hm.used[i]).apart(
        #[trigger] hm.used[j],
    ) by {
        assert(hb.used[i].apart(hb.used[j]));
    }
    assert forall|i: int, j: int|
        0 <= i < hm.used.len() && 0 <= j < hm.free.len() implies (#[trigger] hm.used[i]).apart(
        #[trigger] hm.free[j],
    ) by {
        let u = hm.used[i];
        assert(hb.used[i].within(hb.start, hb.end()));
        assert(hm.free[j].within(hb.start, cut));
        assert forall|x: int| #![trigger covers(hm.free, x)] u.holds(x) implies !covers(hm.free, x) by {
            lemma_used_not_free(hb, i, x);
        }
        lemma_apart(u, hm.free, j);
    }
}

/// A heap is well formed once an allocated block was moved to its free
/// space.
proof fn lemma_released_wf(hb: HeapModel, hm: HeapModel, u: int)
    requires
        hb.wf(),
        0 <= u < hb.used.len(),
        hm == (HeapModel { free: hm.free, used: hb.used.remove(u), ..hb }),
        spaced(hm.free),
        all_within(hm.free, hb.start, hb.end()),
        forall|x: int|
            #![trigger covers(hm.free, x)]
            #![trigger covers(hb.free, x)]
            covers(hm.free, x) <==> covers(hb.free, x) || hb.used[u].holds(x),
    ensures
        hm.wf(),
{
    let blk = hb.used[u];
    assert forall|i: int| 0 <= i < hm.used.len() implies #[trigger] hm.used[i] == (if i < u {
        hb.used[i]
    } else {
        hb.used[i + 1]
    }) by {}
    assert forall|i: int| 0 <= i < hm.used.len() implies (#[trigger] hm.used[i]).within(
        hm.start,
        hm.end(),
    ) by {
        let oi = if i < u { i } else { i + 1 };
        assert(hb.used[oi].within(hb.start, hb.end()));
    }
    assert forall|i: int, j: int| 0 <= i < j < hm.used.len() implies (#[trigger] hm.used[i]).apart(
        #[trigger] hm.used[j],
    ) by {
        let oi = if i < u { i } else { i + 1 };
        let oj = if j < u { j } else { j + 1 };
        assert(hb.used[oi].apart(hb.used[oj]));
    }
    assert forall|i: int, j: int|
        0 <= i < hm.used.len() && 0 <= j < hm.free.len() implies (#[trigger] hm.used[i]).apart(
        #[trigger] hm.free[j],
    ) by {
        let oi = if i < u { i } else { i + 1 };
        let w = hb.used[oi];
        assert(w.within(hb.start, hb.end()));
        assert(hm.free[j].within(hb.start, hb.end()));
        if oi < u {
            assert(hb.used[oi].apart(hb.used[u]));
        } else {
            assert(hb.used[u].apart(hb.used[oi]));
        }
        assert forall|x: int| #![trigger covers(hm.free, x)] w.holds(x) implies !covers(hm.free, x) by {
            lemma_used_not_free(hb, oi, x);
        }
        lemma_apart(w, hm.free, j);
    }
}

/// The payload of a block that was just allocated is that of an allocated
/// block, and shares no address with a block that was allocated before.
proof fn lemma_allocation_sound(hb: HeapModel, ha: HeapModel, p: int, sz: int, size: int, g: int)
    requires
        ha.wf(),
        taken(hb, ha, p, sz, g),
        0 <= size <= sz,
        8 <= p,
        p + sz <= usize::MAX,
    ensures
        ha.owns(p),
        forall|i: int|
            0 <= i < hb.used.len() ==> (#[trigger] hb.used[i]).end() <= p || p + size
                <= hb.used[i].addr,
{
    let n = hb.used.len() as int;
    let blk = block_for(p, sz);
    assert(ha.used == hb.used.push(blk));
    assert(ha.used[n] == blk);
    assert(blk.addr + HEADER_SIZE == p);
    assert forall|i: int| 0 <= i < n implies (#[trigger] hb.used[i]).end() <= p || p + size
        <= hb.used[i].addr by {
        assert(ha.used[i] == hb.used[i]);
        assert(ha.used[i].apart(ha.used[n]));
    }
}

impl ListAllocator {
    /// Gives up the pages at the end of the heap that are entirely free.
    #[verifier::rlimit(50)]
    fn trim(&mut self, mapper: &mut PageDir, pmm: &mut BitMap)
        requires
            old(self).wf(),
            old(mapper).wf(),
            old(pmm).inv(),
            backed_by(old(self)@, old(mapper)@),
        ensures
            final(self).wf(),
            final(mapper).wf(),
            final(pmm).inv(),
            backed_by(final(self)@, final(mapper)@),
            final(self)@.start == old(self)@.start,
            final(self)@.max == old(self)@.max,
            final(self)@.used == old(self)@.used,
            trimmed(old(self)@, no_block(), final(self)@.end()),
            forall|x: int|
                #![trigger final(self)@.is_free(x)]
                #![trigger old(self)@.is_free(x)]
                final(self)@.is_free(x) <==> old(self)@.is_free(x) && x < final(self)@.end(),
            backing_released(
                old(self)@,
                final(self)@,
                old(mapper)@,
                final(mapper)@,
                old(pmm)@,
                final(pmm)@,
            ),
    {
        let ghost hb = self@;
        let n = self.free.len();
        let end = self.memstart + self.heapsize;
        if n == 0 {
            proof {
                lemma_trim_point(hb, end as int);
            }
            return ;
        }
        let last = self.free[n - 1];
        assert(hb.free[n - 1].within(hb.start, hb.end()));
        if last.addr + last.size != end {
            proof {
                lemma_trim_point(hb, end as int);
                assert forall|x: int| hb.is_free(x) implies x < end by {
                    let i = choose|i: int| 0 <= i < hb.free.len() && (#[trigger] hb.free[i]).holds(x);
                    assert(hb.free[i].within(hb.start, hb.end()));
                }
            }
            return ;
        }
        let rem = last.addr % 0x1000;
        let cut = if rem == 0 { last.addr } else { last.addr + (0x1000 - rem) };
        let npages = (end - cut) / 0x1000;
        proof {
            lemma_trim_point(hb, cut as int);
            assert(spaced(hb.free));
            assert(all_within(hb.free, hb.start, hb.end()));
        }
        cut_last(&mut self.free, cut, self.memstart, end);
        proof {
            lemma_cut_wf(hb, self@, cut as int);
        }
        if npages > 0 {
            self.decrease_heap(mapper, pmm, npages);
        }
    }

    /// Frees the block whose payload starts at `ptr`, which must be one that
    /// `allocate` returned and that was not freed since. The block is joined
    /// with the free blocks that touch it, and the heap gives up the pages at
    /// its end that are entirely free. The size and the alignment of the
    /// request are not needed: the block's header holds its size.
    #[verifier::rlimit(50)]
    pub fn deallocate(
        &mut self,
        mapper: &mut PageDir,
        pmm: &mut BitMap,
        ptr: usize,
        size: usize,
        align: usize,
    )
        requires
            old(self).wf(),
            old(mapper).wf(),
            old(pmm).inv(),
            backed_by(old(self)@, old(mapper)@),
            old(self)@.owns(ptr as int),
        ensures
            final(self).wf(),
            final(mapper).wf(),
            final(pmm).inv(),
            backed_by(final(self)@, final(mapper)@),
            deallocated(
                old(self)@,
                final(self)@,
                old(mapper)@,
                final(mapper)@,
                old(pmm)@,
                final(pmm)@,
                ptr,
            ),
    {
        let ghost hb = self@;
        let u = match self.position(ptr) {
            Some(u) => u,
            None => {
                assert(false);
                return ;
            },
        };
        let blk = self.used.remove(u);
        let end = self.memstart + self.heapsize;
        proof {
            assert(hb.used[u as int].within(hb.start, hb.end()));
            assert(spaced(hb.free));
            assert(all_within(hb.free, hb.start, hb.end()));
            assert forall|i: int| 0 <= i < hb.free.len() implies (#[trigger] hb.free[i]).apart(blk) by {
                assert(hb.used[u as int].apart(hb.free[i]));
            }
        }
        insert_block(&mut self.free, blk, self.memstart, end);
        let ghost hm = self@;
        proof {
            lemma_released_wf(hb, hm, u as int);
        }
        self.trim(mapper, pmm);
        proof {
            let ha = self@;
            let e = ha.end();
            assert forall|x: int| e <= x < hb.end() implies #[trigger] freed_at(hb, blk, x) by {
                assert(freed_at(hm, no_block(), x));
            }
            if e > hb.start {
                let x = choose|x: int| e - 0x1000 <= x < e && !#[trigger] freed_at(hm, no_block(), x);
                assert(!freed_at(hb, blk, x));
            }
            assert forall|x: int| #[trigger] ha.is_free(x) <==> freed_at(hb, blk, x) && x < ha.end() by {
                assert(ha.is_free(x) <==> hm.is_free(x) && x < ha.end());
            }
            assert(heap_freed(hb, ha, u as int));
        }
    }

    /// Serves a request for a payload of `sz` bytes aligned to `al`.
    #[verifier::rlimit(50)]
    fn serve(&mut self, mapper: &mut PageDir, pmm: &mut BitMap, sz: usize, al: usize) -> (r: Result<
        usize,
        Error,
    >)
        requires
            old(self).wf(),
            old(mapper).wf(),
            old(pmm).inv(),
            backed_by(old(self)@, old(mapper)@),
            0 < al <= 0x4000_0000,
            al % 8 == 0,
            sz % 8 == 0,
            8 <= sz <= 0x8000_0000,
        ensures
            final(self).wf(),
            final(mapper).wf(),
            final(pmm).inv(),
            backed_by(final(self)@, final(mapper)@),
            served(
                old(self)@,
                final(self)@,
                old(mapper)@,
                final(mapper)@,
                old(pmm)@,
                final(pmm)@,
                sz as int,
                al as int,
                r,
            ),
            r is Ok ==> {
                &&& r->Ok_0 % al == 0
                &&& r->Ok_0 >= 8
                &&& taken(
                    old(self)@,
                    final(self)@,
                    r->Ok_0 as int,
                    sz as int,
                    final(self)@.size - old(self)@.size,
                )
            },
    {
        let ghost hb = self@;
        match self.find_fit(sz, al) {
            Some((k, p)) => {
                self.carve(k, p, sz);
                proof {
                    assert(first_fit(hb.free, k as int, sz as int, al as int));
                    assert(fit(hb.free[k as int], sz as int, al as int));
                    assert(!no_fit(hb.free, sz as int, al as int));
                }
                Ok(p)
            },
            None => self.grow(mapper, pmm, sz, al),
        }
    }

    /// Allocates `size` bytes aligned to `align` and returns their address.
    /// The first free block that can hold them is used; where there is none,
    /// the heap grows by as many pages as hold them.
    #[verifier::rlimit(50)]
    pub fn allocate(
        &mut self,
        mapper: &mut PageDir,
        pmm: &mut BitMap,
        size: usize,
        align: usize,
    ) -> (r: Result<usize, Error>)
        requires
            old(self).wf(),
            old(mapper).wf(),
            old(pmm).inv(),
            backed_by(old(self)@, old(mapper)@),
        ensures
            final(self).wf(),
            final(mapper).wf(),
            final(pmm).inv(),
            backed_by(final(self)@, final(mapper)@),
            allocated(
                old(self)@,
                final(self)@,
                old(mapper)@,
                final(mapper)@,
                old(pmm)@,
                final(pmm)@,
                size,
                align,
                r,
            ),
            r is Ok ==> {
                &&& r->Ok_0 != 0
                &&& r->Ok_0 % align == 0
                &&& final(self)@.owns(r->Ok_0 as int)
                &&& forall|i: int|
                    0 <= i < old(self)@.used.len() ==> (#[trigger] old(self)@.used[i]).end() <= r->Ok_0
                        || r->Ok_0 + size <= old(self)@.used[i].addr
            },
    {
        let ghost hb = self@;
        let (sz, al) = match Self::adjust_layout(size, align) {
            Some(l) => l,
            None => {
                return Err(Error::InvalidArgument);
            },
        };
        let r = self.serve(mapper, pmm, sz, al);
        proof {
            if r is Ok {
                let p = r->Ok_0;
                if align >= 8 {
                    assert(al == align);
                } else {
                    assert(al == 8);
                    assert(p % 8 == 0);
                    if align == 1 {
                        assert(p % align == 0);
                    } else if align == 2 {
                        assert(p % 2 == 0);
                    } else {
                        assert(align == 4);
                        assert(p % 4 == 0);
                    }
                }
                assert(p % align == 0);
                lemma_allocation_sound(
                    hb,
                    self@,
                    r->Ok_0 as int,
                    sz as int,
                    size as int,
                    self@.size - hb.size,
                );
            }
        }
        r
    }

    /// The free blocks, in address order.
    pub fn free_blocks(&self) -> (r: Vec<BlockInfo>)
        ensures
            r@ == self@.free,
    {
        let n = self.free.len();
        let mut r: Vec<BlockInfo> = Vec::new();
        let mut i: usize = 0;
        while i < n
            invariant
                i <= n,
                n == self.free@.len(),
                r@ == self.free@.subrange(0, i as int),
            decreases n - i,
        {
            r.push(self.free[i]);
            assert(r@ =~= self.free@.subrange(0, i + 1));
            i = i + 1;
        }
        assert(r@ =~= self.free@);
        r
    }

    /// The lines of a listing of the free blocks, in the order of the list.
    pub fn print_list(&self) -> (lines: Vec<ListLine>)
        ensures
            lines@.len() == self@.free.len(),
            forall|i: int|
                0 <= i < lines@.len() ==> #[trigger] lines@[i] == (ListLine {
                    index: i as usize,
                    size: self@.free[i].size,
                    addr: self@.free[i].addr,
                }),
    {
        let n = self.free.len();
        let mut lines: Vec<ListLine> = Vec::new();
        let mut i: usize = 0;
        while i < n
            invariant
                i <= n,
                n == self.free@.len(),
                lines@.len() == i,
                forall|k: int|
                    0 <= k < i ==> #[trigger] lines@[k] == (ListLine {
                        index: k as usize,
                        size: self.free@[k].size,
                        addr: self.free@[k].addr,
                    }),
            decreases n - i,
        {
            lines.push(ListLine { index: i, size: self.free[i].size, addr: self.free[i].addr });
            i = i + 1;
        }
        lines
    }

    /// Number of bytes of the heap that are backed by pages.
    pub fn heapsize(&self) -> (n: usize)
        ensures
            n == self@.size,
    {
        self.heapsize
    }
}

impl KernelAllocator for ListAllocator {
    open spec fn region(&self) -> (int, int) {
        (self@.start, self@.max)
    }

    open spec fn backed(&self) -> int {
        self@.size
    }

    open spec fn blocks(&self) -> int {
        (self@.free.len() + self@.used.len()) as int
    }

    fn init(&mut self, memstart: usize, heapsize: usize)
        ensures
            final(self).wf(),
            final(self)@.free.len() == 0,
            final(self)@.used.len() == 0,
    {
        self.memstart = memstart;
        self.heapmax = heapsize;
    }
}

/// Where the heap grows for a request, the number of free frames falls by
/// the number of pages that hold the payload and its header at the heap's
/// end, and by no more.
pub proof fn lemma_growth_takes_frames(
    hb: HeapModel,
    ha: HeapModel,
    mb: PagingModel,
    ma: PagingModel,
    fb: Seq<bool>,
    fa: Seq<bool>,
    sz: int,
    al: int,
    r: Result<usize, Error>,
)
    requires
        hb.wf(),
        0 <= sz,
        0 < al,
        grown(hb, ha, mb, ma, fb, fa, sz, al, r),
        r is Ok,
    ensures
        crate::memory::pmm::count_free(fa) + growth(hb, sz, al) / 0x1000 == crate::memory::pmm::count_free(
            fb,
        ),
        ha.size == hb.size + growth(hb, sz, al),
{
    let n = growth(hb, sz, al) / 0x1000;
    let f = choose|f: int|
        {
            &&& #[trigger] first_run(fb, fb.len() as int, f, n)
            &&& fa == with_range(fb, f, n, true)
            &&& ma == mb.map_pages(f, hb.end(), n as nat)
        };
    assert(fits(fb, fb.len() as int, f, n));
    lemma_aligned_up(hb.end() + 8, al);
    lemma_aligned_up(payload_at(hb.end(), al) + sz - hb.end(), 0x1000);
    crate::memory::pmm::lemma_run_count(fb, f, n as nat);
}

impl ListAllocator {
    /// Whether `mapper` maps the backed part of the heap, page by page, and
    /// nothing of the rest of its region, as `allocate` and `deallocate`
    /// need it.
    #[verifier::rlimit(50)]
    pub fn is_backed(&self, mapper: &PageDir) -> (b: bool)
        requires
            self.wf(),
            mapper.wf(),
        ensures
            b == backed_by(self@, mapper@),
    {
        let end = self.memstart + self.heapsize;
        let limit = self.memstart + self.heapmax;
        let mut v = self.memstart;
        while v < limit
            invariant
                self.wf(),
                mapper.wf(),
                end == self@.end(),
                limit == self@.start + self@.max,
                self@.start <= v <= limit,
                v % 0x1000 == 0,
                forall|w: int|
                    self@.start <= w < v ==> #[trigger] backed_page(
                        self@.start,
                        self@.size,
                        self@.max,
                        mapper@,
                        w,
                    ),
            decreases limit - v,
        {
            let ok = if v < end {
                mapper.can_unmap(v)
            } else {
                mapper.virt_to_phys(v).is_none()
            };
            if !ok {
                assert(!backed_page(self@.start, self@.size, self@.max, mapper@, v as int));
                return false;
            }
            v = v + 0x1000;
        }
        true
    }
}

} // verus!
