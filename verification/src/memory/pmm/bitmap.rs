//! A frame manager that keeps one bit per frame and searches it first-fit.

use vstd::prelude::*;
use crate::error::{Error, Result};
use crate::memory::{PhysicalMemory, PhysicalRegion, RegionType, N_PAGES, PAGE_SIZE};
use crate::memory::pmm::{
    count_free, first_free, first_run, fits, highest_frame, run_free, total_frames, usable,
    with_range, zone_limit, Frame, FrameRange, PageManager, Zone, DMA_FRAMES,
};

verus! {

/// Number of frames the bitmap can track: enough for 4 GiB.
pub const BITMAP_SIZE: usize = 0x10_0000;

/// Number of bytes that hold `BITMAP_SIZE` bits.
pub const BITMAP_BYTES: usize = 0x2_0000;

/// Bit `k` of `b`.
pub open spec fn bit_of(b: u8, k: u8) -> bool {
    (b >> k) & 1u8 == 1u8
}

/// The first `n` bits of `data`, least significant bit of each byte first.
pub open spec fn bits_of(data: Seq<u8>, n: nat) -> Seq<bool> {
    Seq::new(n, |i: int| bit_of(data[i / 8], (i % 8) as u8))
}

proof fn lemma_bit_test(b: u8, k: u8)
    by (bit_vector)
    requires
        k < 8,
    ensures
        (b & (1u8 << k) != 0) == bit_of(b, k),
{
}

proof fn lemma_bit_set(b: u8, k: u8, j: u8)
    by (bit_vector)
    requires
        k < 8,
        j < 8,
    ensures
        bit_of(b | (1u8 << k), j) == (j == k || bit_of(b, j)),
{
}

proof fn lemma_bit_clear(b: u8, k: u8, j: u8)
    by (bit_vector)
    requires
        k < 8,
        j < 8,
    ensures
        bit_of(b & !(1u8 << k), j) == (j != k && bit_of(b, j)),
{
}

proof fn lemma_bit_full(j: u8)
    by (bit_vector)
    requires
        j < 8,
    ensures
        bit_of(0xffu8, j),
        !bit_of(0u8, j),
{
}

/// Changing one entry changes the number of free frames by what that entry
/// contributes.
pub proof fn lemma_count_update(s: Seq<bool>, i: int, used: bool)
    requires
        0 <= i < s.len(),
    ensures
        count_free(s.update(i, used)) + (if s[i] { 0int } else { 1int }) == count_free(s) + (if used {
            0int
        } else {
            1int
        }),
    decreases s.len(),
{
    let t = s.update(i, used);
    if i == s.len() - 1 {
        assert(t.drop_last() =~= s.drop_last());
    } else {
        assert(t.drop_last() =~= s.drop_last().update(i, used));
        lemma_count_update(s.drop_last(), i, used);
    }
}

/// A sequence whose entries are all equal has either no free frame or only
/// free frames.
pub proof fn lemma_count_uniform(s: Seq<bool>, used: bool)
    requires
        forall|i: int| 0 <= i < s.len() ==> s[i] == used,
    ensures
        count_free(s) == (if used { 0 } else { s.len() }),
    decreases s.len(),
{
    if s.len() > 0 {
        lemma_count_uniform(s.drop_last(), used);
    }
}

/// There are no more free frames than frames.
pub proof fn lemma_count_bound(s: Seq<bool>)
    ensures
        count_free(s) <= s.len(),
    decreases s.len(),
{
    if s.len() > 0 {
        lemma_count_bound(s.drop_last());
    }
}

/// One bit per frame, set where the frame is allocated or unavailable.
pub struct BitMap {
    pub data: [u8; BITMAP_BYTES],
    /// Number of frames tracked.
    pub size: usize,
    free_pages: usize,
}

impl View for BitMap {
    type V = Seq<bool>;

    /// One entry per tracked frame, `true` where its bit is set.
    closed spec fn view(&self) -> Seq<bool> {
        bits_of(self.data@, self.size as nat)
    }
}

impl BitMap {
    /// The value of the free-frame counter.
    pub closed spec fn counter(&self) -> nat {
        self.free_pages as nat
    }

    /// The bitmap tracks no more frames than it has bits, and its counter
    /// equals the number of clear bits among them.
    pub open spec fn inv(&self) -> bool {
        &&& self@.len() <= BITMAP_SIZE
        &&& self.counter() == count_free(self@)
    }

    /// A bitmap that tracks `BITMAP_SIZE` frames, all of them free.
    pub fn default_const() -> (b: Self)
        ensures
            b.inv(),
            b@.len() == BITMAP_SIZE,
            forall|i: int| 0 <= i < BITMAP_SIZE ==> !b@[i],
    {
        let b = BitMap { data: [0u8; BITMAP_BYTES], size: BITMAP_SIZE, free_pages: BITMAP_SIZE };
        proof {
            assert forall|i: int| 0 <= i < BITMAP_SIZE implies !b@[i] by {
                lemma_bit_full((i % 8) as u8);
            }
            lemma_count_uniform(b@, false);
        }
        b
    }

    /// Number of frames tracked.
    pub fn len(&self) -> (n: usize)
        ensures
            n == self@.len(),
    {
        self.size
    }

    /// Number of free frames.
    pub fn free_pages(&self) -> (n: usize)
        requires
            self.inv(),
        ensures
            n == count_free(self@),
    {
        self.free_pages
    }

    /// Whether frame `i` is allocated or unavailable.
    pub fn is_allocated(&self, i: usize) -> (b: bool)
        requires
            self.inv(),
            i < self@.len(),
        ensures
            b == self@[i as int],
    {
        let k: u8 = (i % 8) as u8;
        proof {
            lemma_bit_test(self.data@[(i / 8) as int], k);
        }
        self.data[i / 8] & (1u8 << k) != 0
    }

    /// Sets the bit of frame `i` to `used` and keeps the counter in step.
    fn mark(&mut self, i: usize, used: bool)
        requires
            old(self).inv(),
            i < old(self)@.len(),
        ensures
            final(self).inv(),
            final(self)@ == old(self)@.update(i as int, used),
    {
        let was = self.is_allocated(i);
        let k: u8 = (i % 8) as u8;
        let byte = self.data[i / 8];
        let ghost before = self@;
        proof {
            lemma_count_update(before, i as int, used);
            lemma_count_bound(before.update(i as int, used));
        }
        if used {
            self.data[i / 8] = byte | (1u8 << k);
            if !was {
                self.free_pages = self.free_pages - 1;
            }
        } else {
            self.data[i / 8] = byte & !(1u8 << k);
            if was {
                self.free_pages = self.free_pages + 1;
            }
        }
        proof {
            assert forall|x: int| 0 <= x < self.size implies self@[x] == before.update(
                i as int,
                used,
            )[x] by {
                if x / 8 == i / 8 {
                    lemma_bit_set(byte, k, (x % 8) as u8);
                    lemma_bit_clear(byte, k, (x % 8) as u8);
                }
            }
            assert(self@ =~= before.update(i as int, used));
        }
    }

    /// Sets the bits of the frames `start..end` to `used`.
    fn mark_range(&mut self, start: usize, end: usize, used: bool)
        requires
            old(self).inv(),
            start <= end <= old(self)@.len(),
        ensures
            final(self).inv(),
            final(self)@ == with_range(old(self)@, start as int, end - start, used),
    {
        let mut i: usize = start;
        while i < end
            invariant
                self.inv(),
                self.size == old(self).size,
                start <= i <= end <= self.size,
                self@ == with_range(old(self)@, start as int, i - start, used),
            decreases end - i,
        {
            let ghost before = self@;
            self.mark(i, used);
            i = i + 1;
            assert(self@ =~= with_range(old(self)@, start as int, i - start, used));
        }
    }
}

/// Frame `frame` lies entirely inside an `Available` region among the first
/// `k` of `regions`.
pub open spec fn usable_before(regions: Seq<PhysicalRegion>, k: int, frame: int) -> bool {
    exists|j: int|
        0 <= j < k && (#[trigger] regions[j]).rtype == RegionType::Available
            && regions[j].holds_frame(frame)
}

/// The frames that lie entirely inside `r` are those from the first result
/// up to, not including, the second.
fn span(r: &PhysicalRegion) -> (res: (usize, usize))
    ensures
        res.1 == r.end() / (PAGE_SIZE as int),
        forall|i: int| #[trigger] r.holds_frame(i) <==> res.0 <= i < res.1,
{
    let lo = r.start / PAGE_SIZE + (if r.start % PAGE_SIZE != 0 { 1 } else { 0 });
    let hi = r.start / PAGE_SIZE + r.size / PAGE_SIZE + (r.start % PAGE_SIZE + r.size % PAGE_SIZE)
        / PAGE_SIZE;
    (lo, hi)
}

impl BitMap {
    /// Number of leading frames that `z` may allocate from.
    fn limit(&self, z: Zone) -> (l: usize)
        requires
            self.inv(),
        ensures
            l == zone_limit(z, self@.len() as int),
            l <= self@.len(),
    {
        match z {
            Zone::Normal => self.size,
            Zone::Dma => if self.size < DMA_FRAMES { self.size } else { DMA_FRAMES },
        }
    }

    /// Number of frames that a bitmap set up from `regions` tracks.
    fn count_frames(regions: &PhysicalMemory) -> (total: usize)
        requires
            regions.wf(),
        ensures
            total == total_frames(regions@),
    {
        let mut high: usize = 0;
        let mut k: usize = 0;
        while k < regions.size
            invariant
                regions.wf(),
                k <= regions.size,
                high == highest_frame(regions@.subrange(0, k as int)),
            decreases regions.size - k,
        {
            let r = regions.get(k);
            let (_, hi) = span(&r);
            proof {
                assert(regions@.subrange(0, k + 1).drop_last() =~= regions@.subrange(0, k as int));
            }
            if hi > high {
                high = hi;
            }
            k = k + 1;
        }
        assert(regions@.subrange(0, k as int) =~= regions@);
        if high < N_PAGES {
            high
        } else {
            N_PAGES
        }
    }
}

impl PageManager for BitMap {
    open spec fn frames(&self) -> Seq<bool> {
        self@
    }

    open spec fn wf(&self) -> bool {
        self.inv()
    }

    fn setup(&mut self, regions: &PhysicalMemory) -> (r: Result<()>) {
        let total = Self::count_frames(regions);
        let mut b: usize = 0;
        while b < BITMAP_BYTES
            invariant
                b <= BITMAP_BYTES,
                forall|x: int| 0 <= x < b ==> self.data@[x] == 0xffu8,
            decreases BITMAP_BYTES - b,
        {
            self.data[b] = 0xff;
            b = b + 1;
        }
        self.size = total;
        self.free_pages = 0;
        proof {
            assert forall|i: int| 0 <= i < total implies self@[i] by {
                lemma_bit_full((i % 8) as u8);
            }
            lemma_count_uniform(self@, true);
        }
        let mut k: usize = 0;
        while k < regions.size
            invariant
                regions.wf(),
                k <= regions.size,
                self.inv(),
                self@.len() == total,
                forall|i: int|
                    0 <= i < total ==> (!#[trigger] self@[i] <==> usable_before(
                        regions@,
                        k as int,
                        i,
                    )),
            decreases regions.size - k,
        {
            let r = regions.get(k);
            let ghost before = self@;
            if r.rtype == RegionType::Available {
                let (lo, hi) = span(&r);
                let end = if hi < total { hi } else { total };
                if lo < end {
                    self.mark_range(lo, end, false);
                }
            }
            proof {
                assert forall|i: int| 0 <= i < total implies (!#[trigger] self@[i]
                    <==> usable_before(regions@, k + 1, i)) by {
                    assert(regions@[k as int] == r);
                    if usable_before(regions@, k as int, i) {
                        let j = choose|j: int|
                            0 <= j < k && (#[trigger] regions@[j]).rtype == RegionType::Available
                                && regions@[j].holds_frame(i);
                        assert(0 <= j < k + 1);
                    }
                    if r.rtype == RegionType::Available && r.holds_frame(i) {
                        assert(usable_before(regions@, k + 1, i));
                    }
                }
            }
            k = k + 1;
        }
        Ok(())
    }

    fn alloc_page(&mut self, z: Zone) -> (r: Result<Frame>) {
        let limit = self.limit(z);
        let mut i: usize = 0;
        while i < limit
            invariant
                self.inv(),
                self@ == old(self)@,
                i <= limit <= self@.len(),
                limit == zone_limit(z, self@.len() as int),
                forall|j: int| 0 <= j < i ==> self@[j],
            decreases limit - i,
        {
            if !self.is_allocated(i) {
                self.mark(i, true);
                return Ok(Frame(i));
            }
            i = i + 1;
        }
        Err(Error::OutOfMemory)
    }

    fn alloc_contiguous_pages(&mut self, n: usize, z: Zone) -> (r: Result<FrameRange>) {
        if n == 0 {
            return Err(Error::OutOfMemory);
        }
        let limit = self.limit(z);
        let mut i: usize = 0;
        let mut run: usize = 0;
        while i < limit
            invariant
                self.inv(),
                self@ == old(self)@,
                i <= limit <= self@.len(),
                limit == zone_limit(z, self@.len() as int),
                run <= i,
                run < n,
                run_free(self@, i - run, run as int),
                forall|t: int| 0 <= t < i - run ==> !#[trigger] fits(self@, limit as int, t, n as int),
            decreases limit - i,
        {
            if !self.is_allocated(i) {
                run = run + 1;
                if run == n {
                    let start = i + 1 - n;
                    assert(fits(self@, limit as int, start as int, n as int));
                    self.mark_range(start, i + 1, true);
                    return Ok(FrameRange { start: Frame(start), size: n });
                }
            } else {
                assert forall|t: int| 0 <= t < i + 1 implies !#[trigger] fits(
                    self@,
                    limit as int,
                    t,
                    n as int,
                ) by {
                    if t >= i - run {
                        assert(self@[i as int]);
                    }
                }
                run = 0;
            }
            i = i + 1;
        }
        assert forall|t: int| !#[trigger] fits(self@, limit as int, t, n as int) by {
            if 0 <= t && t + n <= limit {
                assert(t < i - run);
            }
        }
        Err(Error::OutOfMemory)
    }

    fn free_page(&mut self, f: Frame) {
        self.mark(f.0, false);
    }

    fn free_contiguous_pages(&mut self, r: FrameRange) {
        self.mark_range(r.start.0, r.start.0 + r.size, false);
    }

    fn fill_range(&mut self, r: FrameRange) {
        self.mark_range(r.start.0, r.start.0 + r.size, true);
    }

    fn get_phys_frames(&self, phys_addres: usize, n: usize) -> (r: FrameRange) {
        FrameRange { start: Frame(phys_addres / PAGE_SIZE), size: n }
    }
}

} // verus!
