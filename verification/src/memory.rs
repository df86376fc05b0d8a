//! Physical memory: the boot-supplied memory map, the frame source that
//! hands out each usable frame exactly once, and the model of the paging
//! capability that installs page-table leaf entries.

use vstd::prelude::*;

verus! {

use vstd::arithmetic::div_mod::{
    lemma_div_pos_is_pos, lemma_fundamental_div_mod, lemma_mod_division_less_than_divisor,
    lemma_mod_multiples_basic, lemma_mod_multiples_vanish,
};

/// Size of a physical frame and of a virtual page, in bytes.
pub const FRAME_SIZE: u64 = 4096;

/// One region of the boot-supplied physical memory map: `[start, end)`,
/// usable by the kernel or reserved. Read-only for the kernel's lifetime.
#[derive(Debug, Clone, Copy, PartialEq, Eq, Structural)]
pub struct MemoryRegion {
    pub start: u64,
    pub end: u64,
    pub usable: bool,
}

/// A physical frame: `FRAME_SIZE` bytes starting at a frame-aligned
/// physical address.
#[derive(Debug, Clone, Copy, PartialEq, Eq, Structural)]
pub struct PhysFrame {
    pub start: u64,
}

impl PhysFrame {
    /// A frame address is a multiple of the frame size.
    pub open spec fn wf(self) -> bool {
        self.start % FRAME_SIZE == 0
    }

    /// The frame containing the given physical address.
    pub fn containing_address(addr: u64) -> (r: PhysFrame)
        ensures
            r.start == addr - addr % FRAME_SIZE,
            r.wf(),
            r.start <= addr < r.start + FRAME_SIZE,
    {
        proof {
            lemma_mod_division_less_than_divisor(addr as int, FRAME_SIZE as int);
            lemma_fundamental_div_mod(addr as int, FRAME_SIZE as int);
            lemma_mod_multiples_basic(addr as int / FRAME_SIZE as int, FRAME_SIZE as int);
        }
        PhysFrame { start: addr - addr % FRAME_SIZE }
    }
}

/// A single region is frame-aligned on both ends and not inverted.
pub open spec fn region_wf(r: MemoryRegion) -> bool {
    &&& r.start % FRAME_SIZE == 0
    &&& r.end % FRAME_SIZE == 0
    &&& r.start <= r.end
}

/// The boot memory map: aligned regions, in increasing address order,
/// pairwise disjoint.
pub open spec fn regions_wf(regions: Seq<MemoryRegion>) -> bool {
    &&& (forall|i: int| 0 <= i < regions.len() ==> region_wf(#[trigger] regions[i]))
    &&& (forall|i: int, j: int|
        0 <= i < j < regions.len() ==> (#[trigger] regions[i]).end <= (#[trigger] regions[j]).start)
}

/// Dropping the first region keeps the map well-formed.
pub proof fn lemma_regions_wf_drop_first(regions: Seq<MemoryRegion>)
    requires
        regions_wf(regions),
        regions.len() > 0,
    ensures
        regions_wf(regions.drop_first()),
{
    assert(forall|i: int|
        0 <= i < regions.drop_first().len() ==> #[trigger] regions.drop_first()[i] == regions[i
            + 1]);
}

/// How many frames a region contributes to the frame source: usable
/// regions are handed out frame by frame, reserved ones not at all.
pub open spec fn region_frames(r: MemoryRegion) -> int {
    if r.usable && r.start <= r.end {
        (r.end - r.start) / (FRAME_SIZE as int)
    } else {
        0
    }
}

/// Total number of frames the whole map yields.
pub open spec fn total_frames(regions: Seq<MemoryRegion>) -> int
    decreases regions.len(),
{
    if regions.len() == 0 {
        0
    } else {
        region_frames(regions[0]) + total_frames(regions.drop_first())
    }
}

/// The map never yields a negative number of frames.
pub proof fn lemma_total_frames_nonneg(regions: Seq<MemoryRegion>)
    ensures
        total_frames(regions) >= 0,
    decreases regions.len(),
{
    if regions.len() > 0 {
        if regions[0].usable && regions[0].start <= regions[0].end {
            lemma_div_pos_is_pos((regions[0].end - regions[0].start) as int, FRAME_SIZE as int);
        }
        lemma_total_frames_nonneg(regions.drop_first());
    }
}

/// Address of the `n`th frame the map yields, counting usable regions in
/// map order with a one-frame stride.
pub open spec fn frame_address(regions: Seq<MemoryRegion>, n: int) -> int
    recommends
        0 <= n < total_frames(regions),
    decreases regions.len(),
{
    if regions.len() == 0 {
        0
    } else if n < region_frames(regions[0]) {
        regions[0].start + n * (FRAME_SIZE as int)
    } else {
        frame_address(regions.drop_first(), n - region_frames(regions[0]))
    }
}

/// An aligned region contributes exactly `(end - start) / FRAME_SIZE`
/// frames, and they cover it: frame `k` ends at or before `end`.
proof fn lemma_region_frames_cover(r: MemoryRegion, k: int)
    requires
        region_wf(r),
        0 <= k < region_frames(r),
    ensures
        r.start + k * (FRAME_SIZE as int) + FRAME_SIZE <= r.end,
{
    let f = FRAME_SIZE as int;
    let s = r.start as int;
    let e = r.end as int;
    let c = region_frames(r);
    lemma_fundamental_div_mod(e - s, f);
    assert((e - s) % f == 0) by {
        lemma_fundamental_div_mod(s, f);
        lemma_fundamental_div_mod(e, f);
        assert(e - s == f * (e / f - s / f)) by (nonlinear_arith)
            requires
                s == f * (s / f) + s % f,
                e == f * (e / f) + e % f,
                s % f == 0,
                e % f == 0,
        ;
        lemma_mod_multiples_basic(e / f - s / f, f);
    }
    assert(c * f == e - s) by (nonlinear_arith)
        requires
            e - s == f * c + (e - s) % f,
            (e - s) % f == 0,
    ;
    assert((k + 1) * f <= c * f) by (nonlinear_arith)
        requires
            k + 1 <= c,
            f > 0,
    ;
    assert(k * f + f == (k + 1) * f) by (nonlinear_arith);
}

/// Every frame the map yields is frame-aligned.
pub proof fn lemma_frame_addresses_aligned(regions: Seq<MemoryRegion>, n: int)
    requires
        regions_wf(regions),
        0 <= n < total_frames(regions),
    ensures
        frame_address(regions, n) % (FRAME_SIZE as int) == 0,
    decreases regions.len(),
{
    let f = FRAME_SIZE as int;
    lemma_total_frames_nonneg(regions.drop_first());
    if n < region_frames(regions[0]) {
        let s = regions[0].start as int;
        assert((f * n + s) % f == s % f) by {
            lemma_mod_multiples_vanish(n, s, f);
        }
        assert(s + n * f == f * n + s);
    } else {
        lemma_regions_wf_drop_first(regions);
        lemma_frame_addresses_aligned(regions.drop_first(), n - region_frames(regions[0]));
    }
}

/// Every frame the map yields lies inside a usable region of the map.
pub proof fn lemma_frame_address_in_usable_region(regions: Seq<MemoryRegion>, n: int)
    requires
        regions_wf(regions),
        0 <= n < total_frames(regions),
    ensures
        exists|i: int|
            0 <= i < regions.len() && (#[trigger] regions[i]).usable && regions[i].start
                <= frame_address(regions, n) && frame_address(regions, n) + FRAME_SIZE
                <= regions[i].end,
    decreases regions.len(),
{
    lemma_total_frames_nonneg(regions.drop_first());
    if n < region_frames(regions[0]) {
        lemma_region_frames_cover(regions[0], n);
        assert(regions[0].usable && regions[0].start <= frame_address(regions, n)
            && frame_address(regions, n) + FRAME_SIZE <= regions[0].end);
    } else {
        lemma_regions_wf_drop_first(regions);
        let rest = regions.drop_first();
        let m = n - region_frames(regions[0]);
        lemma_frame_address_in_usable_region(rest, m);
        let j = choose|j: int|
            0 <= j < rest.len() && (#[trigger] rest[j]).usable && rest[j].start <= frame_address(
                rest,
                m,
            ) && frame_address(rest, m) + FRAME_SIZE <= rest[j].end;
        assert(regions[j + 1] == rest[j]);
        assert(0 <= j + 1 < regions.len() && regions[j + 1].usable && regions[j + 1].start
            <= frame_address(regions, n) && frame_address(regions, n) + FRAME_SIZE <= regions[j
            + 1].end);
    }
}

/// Frames come out in strictly increasing address order: distinct calls
/// yield distinct frames.
pub proof fn lemma_frame_addresses_increasing(regions: Seq<MemoryRegion>, n1: int, n2: int)
    requires
        regions_wf(regions),
        0 <= n1 < n2 < total_frames(regions),
    ensures
        frame_address(regions, n1) + FRAME_SIZE <= frame_address(regions, n2),
    decreases regions.len(),
{
    let f = FRAME_SIZE as int;
    let c = region_frames(regions[0]);
    lemma_total_frames_nonneg(regions.drop_first());
    if n2 < c {
        assert(n1 * f + f <= n2 * f) by (nonlinear_arith)
            requires
                n1 + 1 <= n2,
                f > 0,
        ;
    } else if n1 < c {
        lemma_region_frames_cover(regions[0], n1);
        lemma_regions_wf_drop_first(regions);
        let rest = regions.drop_first();
        let m = n2 - c;
        lemma_frame_address_in_usable_region(rest, m);
        let j = choose|j: int|
            0 <= j < rest.len() && (#[trigger] rest[j]).usable && rest[j].start <= frame_address(
                rest,
                m,
            ) && frame_address(rest, m) + FRAME_SIZE <= rest[j].end;
        assert(regions[0].end <= regions[j + 1].start);
        assert(rest[j] == regions[j + 1]);
    } else {
        lemma_regions_wf_drop_first(regions);
        lemma_frame_addresses_increasing(regions.drop_first(), n1 - c, n2 - c);
    }
}

/// Yields each usable physical frame of the boot memory map exactly once,
/// in map order; after the last one it reports exhaustion forever.
pub struct BootInfoFrameAllocator {
    /// The boot-supplied memory map, fixed at initialization.
    pub memory_map: Vec<MemoryRegion>,
    /// Index of the next frame to hand out (also counts failed requests
    /// after exhaustion).
    pub next: usize,
}

impl BootInfoFrameAllocator {
    /// The frame source is usable: its map is well-formed.
    pub open spec fn wf(self) -> bool {
        regions_wf(self.memory_map@)
    }

    /// Build a frame source over the boot memory map. The caller vouches
    /// for the map: aligned, ordered, disjoint regions, as the boot loader
    /// hands them over.
    pub fn init(memory_map: Vec<MemoryRegion>) -> (r: BootInfoFrameAllocator)
        requires
            regions_wf(memory_map@),
        ensures
            r.memory_map@ == memory_map@,
            r.next == 0,
            r.wf(),
    {
        BootInfoFrameAllocator { memory_map, next: 0 }
    }

    /// Hand out the next unused frame, advancing the cursor; once the map
    /// is exhausted, report `None` — and keep reporting it on every later
    /// call.
    pub fn allocate_frame(&mut self) -> (r: Option<PhysFrame>)
        requires
            old(self).wf(),
            old(self).next < usize::MAX,
        ensures
            final(self).wf(),
            final(self).memory_map == old(self).memory_map,
            final(self).next == old(self).next + 1,
            r == (if (old(self).next as int) < total_frames(old(self).memory_map@) {
                Some(
                    (PhysFrame {
                        start: frame_address(old(self).memory_map@, old(self).next as int) as u64,
                    }),
                )
            } else {
                None::<PhysFrame>
            }),
    {
        let frame = self.nth_usable_frame(self.next);
        self.next = self.next + 1;
        frame
    }

    /// The `n`th usable frame of the memory map: walk the regions in map
    /// order, skipping reserved ones, counting frames with a one-frame
    /// stride.
    fn nth_usable_frame(&self, n: usize) -> (r: Option<PhysFrame>)
        requires
            self.wf(),
        ensures
            r == (if (n as int) < total_frames(self.memory_map@) {
                Some((PhysFrame { start: frame_address(self.memory_map@, n as int) as u64 }))
            } else {
                None::<PhysFrame>
            }),
    {
        let map = &self.memory_map;
        let len = map.len();
        let mut i: usize = 0;
        let mut rem: u64 = n as u64;
        proof {
            assert(map@.skip(0) =~= map@);
            lemma_total_frames_nonneg(map@);
        }
        while i < len
            invariant
                self.wf(),
                len == map@.len(),
                map == &self.memory_map,
                i <= len,
                rem <= n,
                total_frames(map@.skip(i as int)) >= 0,
                (n as int) < total_frames(map@) <==> (rem as int) < total_frames(
                    map@.skip(i as int),
                ),
                (n as int) < total_frames(map@) ==> frame_address(map@, n as int) == frame_address(
                    map@.skip(i as int),
                    rem as int,
                ),
            decreases len - i,
        {
            let r = map[i];
            proof {
                assert(map@.skip(i as int)[0] == map@[i as int]);
                assert(map@.skip(i as int).drop_first() =~= map@.skip(i as int + 1));
                lemma_total_frames_nonneg(map@.skip(i as int + 1));
            }
            if r.usable {
                let count = (r.end - r.start) / FRAME_SIZE;
                proof {
                    assert(count == region_frames(map@[i as int]));
                }
                if rem < count {
                    proof {
                        lemma_region_frames_cover(map@[i as int], rem as int);
                    }
                    let addr = r.start + rem * FRAME_SIZE;
                    return Some(PhysFrame { start: addr });
                }
                rem = rem - count;
            }
            i = i + 1;
        }
        proof {
            assert(map@.skip(len as int) =~= Seq::<MemoryRegion>::empty());
        }
        None
    }
}

/// A frame source with nothing to give: every request reports exhaustion.
pub struct EmptyFrameAllocator;

impl EmptyFrameAllocator {
    /// Always exhausted.
    pub fn allocate_frame(&mut self) -> (r: Option<PhysFrame>)
        ensures
            r is None,
    {
        None
    }
}

/// Why installing a mapping can fail: the frame source ran dry while a
/// page-table level had to be allocated, or the page already has a
/// translation installed.
#[derive(Debug, Clone, Copy, PartialEq, Eq, Structural)]
pub enum MappingError {
    FrameAllocationFailed,
    PageAlreadyMapped,
}

/// One installed page-table leaf entry: a virtual page backed by a
/// physical frame under the given protection flags.
#[derive(Debug, Clone, Copy, PartialEq, Eq, Structural)]
pub struct PageMapping {
    pub page: u64,
    pub frame: PhysFrame,
    pub present: bool,
    pub writable: bool,
}

/// Model of the paging capability: the leaf mappings installed so far, in
/// installation order. Installing a mapping invalidates any cached
/// translation for its page; installed heap mappings are never removed.
pub struct PageMapper {
    pub entries: Vec<PageMapping>,
}

impl PageMapper {
    /// Whether some entry already translates `page`.
    pub open spec fn spec_maps(self, page: u64) -> bool {
        exists|i: int| 0 <= i < self.entries@.len() && (#[trigger] self.entries@[i]).page == page
    }

    /// A mapper with no installed translations.
    pub fn new() -> (r: PageMapper)
        ensures
            r.entries@ == Seq::<PageMapping>::empty(),
    {
        PageMapper { entries: Vec::new() }
    }

    /// Install the leaf mapping `page -> frame` with the given flags. Fails
    /// without changing anything if the page already has a translation.
    pub fn map_to(&mut self, page: u64, frame: PhysFrame, present: bool, writable: bool) -> (r:
        Result<(), MappingError>)
        requires
            page % FRAME_SIZE == 0,
            frame.wf(),
        ensures
            match r {
                Ok(_) => {
                    &&& !old(self).spec_maps(page)
                    &&& final(self).entries@ == old(self).entries@.push(
                        PageMapping { page, frame, present, writable },
                    )
                },
                Err(e) => {
                    &&& e == MappingError::PageAlreadyMapped
                    &&& old(self).spec_maps(page)
                    &&& *final(self) == *old(self)
                },
            },
    {
        let len = self.entries.len();
        let mut i: usize = 0;
        while i < len
            invariant
                len == self.entries@.len(),
                i <= len,
                *self == *old(self),
                forall|k: int| 0 <= k < i ==> (#[trigger] self.entries@[k]).page != page,
            decreases len - i,
        {
            if self.entries[i].page == page {
                return Err(MappingError::PageAlreadyMapped);
            }
            i = i + 1;
        }
        self.entries.push(PageMapping { page, frame, present, writable });
        Ok(())
    }
}

} // verus!
