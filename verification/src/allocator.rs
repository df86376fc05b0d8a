//! The heap window, alignment arithmetic shared by the allocator backends,
//! heap initialization over the frame source and the mapper model, and the
//! always-failing placeholder allocator.

use vstd::prelude::*;

verus! {

use vstd::arithmetic::div_mod::{
    lemma_fundamental_div_mod, lemma_mod_division_less_than_divisor, lemma_mod_multiples_basic,
    lemma_mod_multiples_vanish,
};
use crate::linked_list::{FreeBlock, LinkedListAllocator};
use crate::memory::{
    frame_address, lemma_frame_address_in_usable_region, lemma_frame_addresses_aligned,
    total_frames, BootInfoFrameAllocator, MappingError, MemoryRegion, PageMapper, PageMapping,
    PhysFrame, FRAME_SIZE,
};

/// Base of the virtual address window reserved for the kernel heap.
pub const HEAP_START: u64 = 0x4444_4444_0000;

/// Size of the kernel heap window in bytes (100 KiB).
pub const HEAP_SIZE: u64 = 100 * 1024;

/// Whether `n` is a power of two, by the usual bit trick: a power of two
/// has exactly one bit set, so clearing its lowest set bit leaves zero.
/// Allocation alignments must satisfy this.
pub open spec fn spec_is_power_of_two(n: u64) -> bool {
    n > 0 && n & ((n - 1) as u64) == 0
}

/// A power of two is positive.
pub proof fn lemma_power_of_two_pos(n: u64)
    requires
        spec_is_power_of_two(n),
    ensures
        n >= 1,
{
}

/// The smallest multiple of `align` that is at least `addr`.
pub open spec fn spec_align_up(addr: int, align: int) -> int
    recommends
        align > 0,
{
    if addr % align == 0 {
        addr
    } else {
        addr + align - addr % align
    }
}

/// Rounding up to an alignment stays within one alignment step and lands on
/// a multiple of the alignment.
pub proof fn lemma_align_up_properties(addr: int, align: int)
    requires
        align > 0,
        addr >= 0,
    ensures
        addr <= spec_align_up(addr, align) < addr + align,
        spec_align_up(addr, align) % align == 0,
{
    let m = addr % align;
    lemma_mod_division_less_than_divisor(addr, align);
    if m != 0 {
        lemma_fundamental_div_mod(addr, align);
        let q = addr / align;
        assert(addr + align - m == align * (q + 1)) by (nonlinear_arith)
            requires
                addr == align * q + m,
        ;
        lemma_mod_multiples_basic(q + 1, align);
    }
}

/// Round `addr` up to the next multiple of `align`.
///
/// The alignment must be a power of two; this is part of the allocation
/// contract that every caller of the allocator interface obeys.
pub fn align_up(addr: u64, align: u64) -> (r: u64)
    requires
        spec_is_power_of_two(align),
        addr + align - 1 <= u64::MAX,
    ensures
        r == spec_align_up(addr as int, align as int),
{
    proof {
        lemma_power_of_two_pos(align);
        lemma_mod_division_less_than_divisor(addr as int, align as int);
    }
    let rem = addr % align;
    if rem == 0 {
        addr
    } else {
        addr + (align - rem)
    }
}

/// Number of virtual pages in the heap window.
pub const HEAP_PAGE_COUNT: u64 = HEAP_SIZE / FRAME_SIZE;

/// The mapper `post` extends `pre` by leaf mappings for the first `count`
/// heap pages, in page order, each present and writable, backed by the
/// frames the memory map `map` yields from index `first` on.
pub open spec fn heap_mappings_installed(
    pre: PageMapper,
    post: PageMapper,
    map: Seq<MemoryRegion>,
    first: int,
    count: int,
) -> bool {
    &&& post.entries@.len() == pre.entries@.len() + count
    &&& (forall|k: int| 0 <= k < pre.entries@.len() ==> post.entries@[k] == pre.entries@[k])
    &&& (forall|k: int|
        0 <= k < count ==> #[trigger] post.entries@[pre.entries@.len() + k] == (PageMapping {
            page: (HEAP_START + k * FRAME_SIZE) as u64,
            frame: (PhysFrame { start: frame_address(map, first + k) as u64 }),
            present: true,
            writable: true,
        }))
}

/// How many frames the source can still hand out before it is exhausted.
pub open spec fn frames_available(fa: BootInfoFrameAllocator) -> int {
    if fa.next <= total_frames(fa.memory_map@) {
        total_frames(fa.memory_map@) - fa.next
    } else {
        0
    }
}

/// Map every page of the heap window to a fresh physical frame, present
/// and writable, then hand the window to the allocator backend. Runs once
/// at boot. Any frame-source failure aborts the sequence at once: the
/// partially mapped window is left as it is, the backend stays untouched,
/// and the caller treats the error as an unrecoverable boot failure.
pub fn init_heap(
    mapper: &mut PageMapper,
    frame_allocator: &mut BootInfoFrameAllocator,
    backend: &mut LinkedListAllocator,
) -> (r: Result<(), MappingError>)
    requires
        old(frame_allocator).wf(),
        old(frame_allocator).next + HEAP_PAGE_COUNT < usize::MAX,
        forall|p: u64|
            HEAP_START <= p < HEAP_START + HEAP_SIZE ==> !old(mapper).spec_maps(p),
        old(backend).blocks@.len() == 0,
        old(backend).live@ == Set::<(u64, u64)>::empty(),
    ensures
        final(frame_allocator).wf(),
        final(frame_allocator).memory_map == old(frame_allocator).memory_map,
        r is Ok <==> old(frame_allocator).next + HEAP_PAGE_COUNT <= total_frames(
            old(frame_allocator).memory_map@,
        ),
        match r {
            Ok(_) => {
                &&& heap_mappings_installed(
                    *old(mapper),
                    *final(mapper),
                    old(frame_allocator).memory_map@,
                    old(frame_allocator).next as int,
                    HEAP_PAGE_COUNT as int,
                )
                &&& final(frame_allocator).next == old(frame_allocator).next + HEAP_PAGE_COUNT
                &&& final(backend).heap_start == HEAP_START
                &&& final(backend).heap_end == HEAP_START + HEAP_SIZE
                &&& final(backend).blocks@ == seq![
                    (FreeBlock { start: HEAP_START, size: HEAP_SIZE }),
                ]
                &&& final(backend).live@ == old(backend).live@
                &&& final(backend).wf()
            },
            Err(e) => {
                &&& e == MappingError::FrameAllocationFailed
                &&& heap_mappings_installed(
                    *old(mapper),
                    *final(mapper),
                    old(frame_allocator).memory_map@,
                    old(frame_allocator).next as int,
                    frames_available(*old(frame_allocator)),
                )
                &&& final(frame_allocator).next == old(frame_allocator).next + frames_available(
                    *old(frame_allocator),
                ) + 1
                &&& *final(backend) == *old(backend)
            },
        },
{
    let ghost fa0 = *old(frame_allocator);
    let ghost m0 = *old(mapper);
    let mut i: u64 = 0;
    while i < HEAP_PAGE_COUNT
        invariant
            fa0 == *old(frame_allocator),
            m0 == *old(mapper),
            frame_allocator.wf(),
            frame_allocator.memory_map == fa0.memory_map,
            fa0.wf(),
            i <= HEAP_PAGE_COUNT,
            frame_allocator.next == fa0.next + i,
            fa0.next + HEAP_PAGE_COUNT < usize::MAX,
            i as int <= frames_available(fa0),
            heap_mappings_installed(m0, *mapper, fa0.memory_map@, fa0.next as int, i as int),
            forall|p: u64| HEAP_START <= p < HEAP_START + HEAP_SIZE ==> !m0.spec_maps(p),
            *backend == *old(backend),
            old(backend).blocks@.len() == 0,
            old(backend).live@ == Set::<(u64, u64)>::empty(),
        decreases HEAP_PAGE_COUNT - i,
    {
        let frame = match frame_allocator.allocate_frame() {
            Some(f) => f,
            None => {
                // the map ran dry exactly at frame fa0.next + i
                proof {
                    assert(i as int == frames_available(fa0));
                }
                return Err(MappingError::FrameAllocationFailed);
            },
        };
        let page = HEAP_START + i * FRAME_SIZE;
        proof {
            lemma_mod_multiples_vanish(i as int, HEAP_START as int, FRAME_SIZE as int);
            assert(page as int == (FRAME_SIZE as int) * (i as int) + (HEAP_START as int));
            lemma_frame_addresses_aligned(fa0.memory_map@, fa0.next + i);
            lemma_frame_address_in_usable_region(fa0.memory_map@, fa0.next + i);
            assert(!mapper.spec_maps(page)) by {
                if mapper.spec_maps(page) {
                    let idx = choose|idx: int|
                        0 <= idx < mapper.entries@.len() && (#[trigger] mapper.entries@[idx]).page
                            == page;
                    if idx < m0.entries@.len() {
                        assert(m0.entries@[idx].page == page);
                        assert(m0.spec_maps(page));
                    } else {
                        let k = idx - m0.entries@.len();
                        assert(mapper.entries@[m0.entries@.len() + k].page == (HEAP_START + k
                            * FRAME_SIZE) as u64);
                    }
                }
            }
        }
        match mapper.map_to(page, frame, true, true) {
            Ok(_) => {},
            Err(_) => {
                proof {
                    assert(false);
                }
                return Err(MappingError::FrameAllocationFailed);
            },
        }
        i = i + 1;
    }
    backend.init(HEAP_START, HEAP_SIZE);
    Ok(())
}

/// An allocator that satisfies no request: every allocation reports
/// exhaustion. It stands in for a backend before the heap is initialized.
pub struct Dummy;

impl Dummy {
    /// Always fails: there is no memory behind this allocator.
    pub fn allocate(&self, size: u64, align: u64) -> (r: Option<u64>)
        ensures
            r is None,
    {
        None
    }
}

} // verus!
