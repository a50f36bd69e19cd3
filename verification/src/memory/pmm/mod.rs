//! Physical frame allocation.
//!
//! A frame manager is modelled by one boolean per frame, `true` where the
//! frame is allocated or unavailable. Every operation is stated over that
//! sequence.

pub mod bitmap;

use vstd::prelude::*;
use crate::error::{Error, Result};
use crate::memory::{PhysicalMemory, PhysicalRegion, RegionType, N_PAGES, PAGE_SIZE};
use crate::memory::pmm::bitmap::BitMap;

verus! {

/// Index of one physical frame: its address divided by the page size.
#[derive(Clone, Copy, Debug, PartialEq, Eq, Structural)]
pub struct Frame(pub usize);

impl Frame {
    /// Physical address of the first byte of the frame.
    pub fn to_address(&self) -> (a: usize)
        requires
            self.0 < N_PAGES,
        ensures
            a == self.0 * PAGE_SIZE,
    {
        self.0 * PAGE_SIZE
    }
}

/// `size` consecutive frames, the first of which is `start`.
#[derive(Clone, Copy, Debug, PartialEq, Eq, Structural)]
pub struct FrameRange {
    pub start: Frame,
    pub size: usize,
}

/// Which part of physical memory an allocation may come from.
#[derive(Clone, Copy, Debug, PartialEq, Eq, Structural)]
pub enum Zone {
    /// Any frame.
    Normal,
    /// Only frames below 16 MiB, which legacy DMA can reach.
    Dma,
}

/// Number of frames below 16 MiB.
pub const DMA_FRAMES: usize = 0x1000;

/// Number of leading frames among `total` that `zone` may allocate from.
pub open spec fn zone_limit(zone: Zone, total: int) -> int {
    match zone {
        Zone::Normal => total,
        Zone::Dma => if total < DMA_FRAMES { total } else { DMA_FRAMES as int },
    }
}

/// `i` is the lowest free frame below `limit`.
pub open spec fn first_free(frames: Seq<bool>, limit: int, i: int) -> bool {
    &&& 0 <= i < limit
    &&& !frames[i]
    &&& forall|j: int| 0 <= j < i ==> frames[j]
}

/// The `n` frames from `start` on are all free.
pub open spec fn run_free(frames: Seq<bool>, start: int, n: int) -> bool {
    forall|k: int| start <= k < start + n ==> !#[trigger] frames[k]
}

/// A run of `n` free frames starts at `start` and ends at or before `limit`.
pub open spec fn fits(frames: Seq<bool>, limit: int, start: int, n: int) -> bool {
    0 <= start && start + n <= limit && run_free(frames, start, n)
}

/// `start` is the lowest frame at which a run of `n` free frames below
/// `limit` begins.
pub open spec fn first_run(frames: Seq<bool>, limit: int, start: int, n: int) -> bool {
    &&& fits(frames, limit, start, n)
    &&& forall|t: int| 0 <= t < start ==> !#[trigger] fits(frames, limit, t, n)
}

/// `frames` with the `n` entries from `start` on replaced by `used`.
pub open spec fn with_range(frames: Seq<bool>, start: int, n: int, used: bool) -> Seq<bool> {
    Seq::new(frames.len(), |i: int| if start <= i < start + n { used } else { frames[i] })
}

/// Number of free frames in `frames`.
pub open spec fn count_free(frames: Seq<bool>) -> nat
    decreases frames.len(),
{
    if frames.len() == 0 {
        0
    } else {
        count_free(frames.drop_last()) + if frames.last() { 0nat } else { 1nat }
    }
}

/// One past the highest frame that ends at or before the end of a region of
/// `regions`.
pub open spec fn highest_frame(regions: Seq<PhysicalRegion>) -> int
    decreases regions.len(),
{
    if regions.len() == 0 {
        0
    } else {
        let rest = highest_frame(regions.drop_last());
        let here = regions.last().end() / (PAGE_SIZE as int);
        if here > rest { here } else { rest }
    }
}

/// Number of frames that a manager set up from `regions` tracks: up to the
/// highest address that any region reaches, and at most `N_PAGES`.
pub open spec fn total_frames(regions: Seq<PhysicalRegion>) -> int {
    let h = highest_frame(regions);
    if h < N_PAGES { h } else { N_PAGES as int }
}

/// Frame `frame` lies entirely inside an `Available` region of `regions`.
pub open spec fn usable(regions: Seq<PhysicalRegion>, frame: int) -> bool {
    exists|k: int|
        0 <= k < regions.len() && (#[trigger] regions[k]).rtype == RegionType::Available
            && regions[k].holds_frame(frame)
}

/// What `alloc_page` does: on success `r` is the lowest free frame that `z`
/// admits and only its entry changes; it fails, changing nothing, exactly
/// when `z` admits no free frame.
pub open spec fn page_allocated(before: Seq<bool>, after: Seq<bool>, z: Zone, r: Result<Frame>) -> bool {
    let limit = zone_limit(z, before.len() as int);
    match r {
        Ok(f) => first_free(before, limit, f.0 as int) && after == before.update(f.0 as int, true),
        Err(e) => {
            &&& e == Error::OutOfMemory
            &&& forall|j: int| 0 <= j < limit ==> before[j]
            &&& after == before
        },
    }
}

/// What `alloc_contiguous_pages` does: on success `r` is the lowest run of
/// `n` free frames that `z` admits and only its entries change; it fails,
/// changing nothing, exactly when `n` is 0 or `z` admits no such run.
pub open spec fn run_allocated(
    before: Seq<bool>,
    after: Seq<bool>,
    n: usize,
    z: Zone,
    r: Result<FrameRange>,
) -> bool {
    let limit = zone_limit(z, before.len() as int);
    match r {
        Ok(range) => {
            &&& n > 0
            &&& range.size == n
            &&& first_run(before, limit, range.start.0 as int, n as int)
            &&& after == with_range(before, range.start.0 as int, n as int, true)
        },
        Err(e) => {
            &&& e == Error::OutOfMemory
            &&& n == 0 || forall|t: int| !#[trigger] fits(before, limit, t, n as int)
            &&& after == before
        },
    }
}

/// What every physical frame manager offers.
pub trait PageManager {
    /// One entry per tracked frame, `true` where it is allocated or
    /// unavailable.
    spec fn frames(&self) -> Seq<bool>;

    /// Consistency of the manager's bookkeeping.
    spec fn wf(&self) -> bool;

    /// Tracks the frames that `regions` describe and leaves free exactly
    /// those that lie entirely inside an `Available` region.
    fn setup(&mut self, regions: &PhysicalMemory) -> (r: Result<()>)
        requires
            regions.wf(),
        ensures
            r is Ok,
            final(self).wf(),
            final(self).frames().len() == total_frames(regions@),
            forall|i: int|
                0 <= i < final(self).frames().len() ==> (!#[trigger] final(self).frames()[i]
                    <==> usable(regions@, i)),
    ;

    /// Allocates the lowest free frame that `z` admits.
    fn alloc_page(&mut self, z: Zone) -> (r: Result<Frame>)
        requires
            old(self).wf(),
        ensures
            final(self).wf(),
            page_allocated(old(self).frames(), final(self).frames(), z, r),
    ;

    /// Allocates the lowest run of `n` free frames that `z` admits, all of it
    /// or nothing. A request for no frame fails.
    fn alloc_contiguous_pages(&mut self, n: usize, z: Zone) -> (r: Result<FrameRange>)
        requires
            old(self).wf(),
        ensures
            final(self).wf(),
            run_allocated(old(self).frames(), final(self).frames(), n, z, r),
    ;

    /// Marks `f` free, whatever it was before.
    fn free_page(&mut self, f: Frame)
        requires
            old(self).wf(),
            f.0 < old(self).frames().len(),
        ensures
            final(self).wf(),
            final(self).frames() == old(self).frames().update(f.0 as int, false),
    ;

    /// Marks every frame of `r` free, whatever it was before.
    fn free_contiguous_pages(&mut self, r: FrameRange)
        requires
            old(self).wf(),
            r.start.0 + r.size <= old(self).frames().len(),
        ensures
            final(self).wf(),
            final(self).frames() == with_range(
                old(self).frames(),
                r.start.0 as int,
                r.size as int,
                false,
            ),
    ;

    /// Marks every frame of `r` allocated, whatever it was before.
    fn fill_range(&mut self, r: FrameRange)
        requires
            old(self).wf(),
            r.start.0 + r.size <= old(self).frames().len(),
        ensures
            final(self).wf(),
            final(self).frames() == with_range(
                old(self).frames(),
                r.start.0 as int,
                r.size as int,
                true,
            ),
    ;

    /// The `n` frames from the one that holds `phys_addres` on. Nothing is
    /// allocated.
    fn get_phys_frames(&self, phys_addres: usize, n: usize) -> (r: FrameRange)
        ensures
            r.start.0 == phys_addres / PAGE_SIZE,
            r.size == n,
    ;
}

/// Initializes `pmm` from the machine's memory map: afterwards exactly the
/// frames that lie entirely inside an `Available` region are free.
pub fn init(pmm: &mut BitMap, memmap: &PhysicalMemory)
    requires
        memmap.wf(),
    ensures
        final(pmm).inv(),
        final(pmm)@.len() == total_frames(memmap@),
        forall|i: int| 0 <= i < final(pmm)@.len() ==> (!#[trigger] final(pmm)@[i] <==> usable(memmap@, i)),
{
    let _ = pmm.setup(memmap);
}

/// Allocates a single physical frame in `zone`.
pub fn alloc_page(pmm: &mut BitMap, zone: Zone) -> (r: Result<Frame>)
    requires
        old(pmm).inv(),
    ensures
        final(pmm).inv(),
        page_allocated(old(pmm)@, final(pmm)@, zone, r),
{
    pmm.alloc_page(zone)
}

/// Allocates `n` contiguous frames in `zone`.
pub fn alloc_contiguous_pages(pmm: &mut BitMap, n: usize, zone: Zone) -> (r: Result<FrameRange>)
    requires
        old(pmm).inv(),
    ensures
        final(pmm).inv(),
        run_allocated(old(pmm)@, final(pmm)@, n, zone, r),
{
    pmm.alloc_contiguous_pages(n, zone)
}

/// Frees a single frame.
pub fn free_page(pmm: &mut BitMap, f: Frame)
    requires
        old(pmm).inv(),
        f.0 < old(pmm)@.len(),
    ensures
        final(pmm).inv(),
        final(pmm)@ == old(pmm)@.update(f.0 as int, false),
{
    pmm.free_page(f)
}

/// Frees a range of contiguous frames.
pub fn free_contiguous_pages(pmm: &mut BitMap, f: FrameRange)
    requires
        old(pmm).inv(),
        f.start.0 + f.size <= old(pmm)@.len(),
    ensures
        final(pmm).inv(),
        final(pmm)@ == with_range(old(pmm)@, f.start.0 as int, f.size as int, false),
{
    pmm.free_contiguous_pages(f)
}

/// Marks a range of frames as allocated; used to block out ranges that are
/// occupied before the manager starts.
pub fn fill_range(pmm: &mut BitMap, f: FrameRange)
    requires
        old(pmm).inv(),
        f.start.0 + f.size <= old(pmm)@.len(),
    ensures
        final(pmm).inv(),
        final(pmm)@ == with_range(old(pmm)@, f.start.0 as int, f.size as int, true),
{
    pmm.fill_range(f)
}

/// The `n` frames from the one that holds `phys_addres` on.
pub fn get_phys_frames(pmm: &BitMap, phys_addres: usize, n: usize) -> (r: FrameRange)
    ensures
        r.start.0 == phys_addres / PAGE_SIZE,
        r.size == n,
{
    pmm.get_phys_frames(phys_addres, n)
}

/// Allocating a frame, freeing it and allocating again gives the same frame,
/// and the frame given is free at that moment.
pub proof fn lemma_alloc_free_alloc(s0: Seq<bool>, s1: Seq<bool>, s2: Seq<bool>, s3: Seq<bool>, z: Zone, f: Frame, g: Frame)
    requires
        page_allocated(s0, s1, z, Ok(f)),
        s2 == s1.update(f.0 as int, false),
        page_allocated(s2, s3, z, Ok(g)),
    ensures
        g == f,
        !s2[g.0 as int],
{
    assert(s2 =~= s0);
    let limit = zone_limit(z, s0.len() as int);
    if g.0 < f.0 {
        assert(s0[g.0 as int]);
    }
    if f.0 < g.0 {
        assert(s2[f.0 as int]);
    }
}

/// No frame is handed out twice: where every frame of `live` is marked
/// allocated, a frame that `alloc_page` returns is not in `live`, and with it
/// added every frame of the set is still marked allocated.
pub proof fn lemma_alloc_is_fresh(before: Seq<bool>, after: Seq<bool>, live: Set<int>, z: Zone, f: Frame)
    requires
        forall|x: int| #[trigger] live.contains(x) ==> 0 <= x < before.len() && before[x],
        page_allocated(before, after, z, Ok(f)),
    ensures
        !live.contains(f.0 as int),
        forall|x: int| #[trigger] live.insert(f.0 as int).contains(x) ==> 0 <= x < after.len() && after[x],
{
}

/// Freeing one frame of `live` leaves every other frame of it marked
/// allocated.
pub proof fn lemma_free_keeps_live(before: Seq<bool>, live: Set<int>, f: Frame)
    requires
        forall|x: int| #[trigger] live.contains(x) ==> 0 <= x < before.len() && before[x],
        f.0 < before.len(),
    ensures
        forall|x: int| #[trigger]
            live.remove(f.0 as int).contains(x) ==> 0 <= x < before.len() && before.update(
                f.0 as int,
                false,
            )[x],
{
}

/// One call of `alloc_page` or `free_page` with what came of it.
pub enum FrameEvent {
    /// `alloc_page` was asked for a frame of the zone and gave the frame.
    Allocated(Zone, Frame),
    /// `alloc_page` was asked for a frame of the zone and had none.
    Refused(Zone),
    /// The frame was handed to `free_page`.
    Freed(Frame),
}

/// Whether `after` is what the call `e` makes of `before`.
pub open spec fn follows(before: Seq<bool>, after: Seq<bool>, e: FrameEvent) -> bool {
    match e {
        FrameEvent::Allocated(z, f) => page_allocated(before, after, z, Ok(f)),
        FrameEvent::Refused(z) => page_allocated(before, after, z, Err(Error::OutOfMemory)),
        FrameEvent::Freed(f) => f.0 < before.len() && after == before.update(f.0 as int, false),
    }
}

/// Whether `states` are the states that a frame manager went through while
/// the calls `events` were made, one after the other.
pub open spec fn history(states: Seq<Seq<bool>>, events: Seq<FrameEvent>) -> bool {
    &&& states.len() == events.len() + 1
    &&& forall|i: int| 0 <= i < events.len() ==> follows(states[i], states[i + 1], #[trigger] events[i])
}

/// The frames that are live after the calls `events`: those that were
/// allocated and not freed since.
pub open spec fn live_after(events: Seq<FrameEvent>) -> Set<int>
    decreases events.len(),
{
    if events.len() == 0 {
        Set::empty()
    } else {
        let live = live_after(events.drop_last());
        match events.last() {
            FrameEvent::Allocated(_, f) => live.insert(f.0 as int),
            FrameEvent::Refused(_) => live,
            FrameEvent::Freed(f) => live.remove(f.0 as int),
        }
    }
}

/// After any number of calls of `alloc_page` and `free_page`, every live
/// frame is marked allocated.
pub proof fn lemma_live_is_allocated(states: Seq<Seq<bool>>, events: Seq<FrameEvent>, n: int)
    requires
        history(states, events),
        0 <= n <= events.len(),
    ensures
        forall|x: int| #[trigger]
            live_after(events.take(n)).contains(x) ==> 0 <= x < states[n].len() && states[n][x],
    decreases n,
{
    if n > 0 {
        lemma_live_is_allocated(states, events, n - 1);
        let live = live_after(events.take(n - 1));
        assert(events.take(n).drop_last() =~= events.take(n - 1));
        assert(events.take(n).last() == events[n - 1]);
        assert(follows(states[n - 1], states[n], events[n - 1]));
        match events[n - 1] {
            FrameEvent::Allocated(z, f) => {
                lemma_alloc_is_fresh(states[n - 1], states[n], live, z, f);
            },
            FrameEvent::Refused(_) => {},
            FrameEvent::Freed(f) => {
                lemma_free_keeps_live(states[n - 1], live, f);
            },
        }
    }
}

/// No two live allocations are of the same frame: whatever calls of
/// `alloc_page` and `free_page` were made, a frame that `alloc_page` gives
/// is not live at that moment.
pub proof fn lemma_no_double_allocation(
    states: Seq<Seq<bool>>,
    events: Seq<FrameEvent>,
    n: int,
    z: Zone,
    f: Frame,
)
    requires
        history(states, events),
        0 <= n < events.len(),
        events[n] == FrameEvent::Allocated(z, f),
    ensures
        !live_after(events.take(n)).contains(f.0 as int),
{
    lemma_live_is_allocated(states, events, n);
    assert(follows(states[n], states[n + 1], events[n]));
    lemma_alloc_is_fresh(states[n], states[n + 1], live_after(events.take(n)), z, f);
}

/// A frame allocated right after a range was filled lies outside the range.
pub proof fn lemma_fill_is_absolute(before: Seq<bool>, r: FrameRange, after: Seq<bool>, z: Zone, f: Frame)
    requires
        r.start.0 + r.size <= before.len(),
        page_allocated(with_range(before, r.start.0 as int, r.size as int, true), after, z, Ok(f)),
    ensures
        !(r.start.0 <= f.0 < r.start.0 + r.size),
{
}

/// A contiguous allocation marks exactly its `n` frames, which were free and
/// are consecutive; a failed one changes nothing.
pub proof fn lemma_contiguous_is_atomic(before: Seq<bool>, after: Seq<bool>, n: usize, z: Zone, r: Result<FrameRange>)
    requires
        run_allocated(before, after, n, z, r),
    ensures
        r is Err ==> after == before,
        r is Ok ==> forall|i: int|
            0 <= i < before.len() ==> #[trigger] after[i] == (before[i] || r->Ok_0.start.0 <= i
                < r->Ok_0.start.0 + n),
        r is Ok ==> forall|i: int|
            r->Ok_0.start.0 <= i < r->Ok_0.start.0 + n ==> 0 <= i < before.len() && !#[trigger] before[i],
{
    if r is Ok {
        let limit = zone_limit(z, before.len() as int);
        assert(fits(before, limit, r->Ok_0.start.0 as int, n as int));
    }
}

/// Marking a run of free frames allocated lowers the number of free frames
/// by the length of the run.
pub proof fn lemma_run_count(s: Seq<bool>, start: int, n: nat)
    requires
        0 <= start,
        start + n <= s.len(),
        run_free(s, start, n as int),
    ensures
        count_free(with_range(s, start, n as int, true)) + n == count_free(s),
    decreases n,
{
    if n == 0 {
        assert(with_range(s, start, 0, true) =~= s);
    } else {
        let k = (n - 1) as nat;
        let t = with_range(s, start, k as int, true);
        assert(run_free(s, start, k as int));
        lemma_run_count(s, start, k);
        assert(with_range(s, start, n as int, true) =~= t.update(start + k, true));
        assert(!s[start + k]);
        assert(!t[start + k]);
        crate::memory::pmm::bitmap::lemma_count_update(t, start + k, true);
    }
}

} // verus!
