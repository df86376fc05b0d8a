//! Free-list allocator backend: a first-fit list of free blocks over the
//! heap window. Allocation walks the list in order and carves the request
//! out of the first block it fits in, re-inserting any leftover prefix or
//! suffix that is still at least one node large; smaller leftovers are
//! absorbed as padding. Freeing pushes the range back as one new block at
//! the head of the list; adjacent free blocks are never merged — the
//! fragmentation that causes is an accepted property of this design.
//!
//! As in the bump backend, a ghost set of live `(address, size)` ranges
//! models the outstanding allocations; well-formedness keeps free blocks
//! and live ranges pairwise disjoint inside the window, so no two live
//! allocations ever overlap.

use vstd::prelude::*;

verus! {

use crate::allocator::{
    lemma_align_up_properties, lemma_power_of_two_pos, spec_align_up, spec_is_power_of_two,
};

/// Smallest size a free block may have: the bytes a block must offer to
/// store its own list node when the list is embedded in the free memory it
/// describes (a size field and a link, eight bytes each).
pub const MIN_BLOCK_SIZE: u64 = 16;

/// One free block: `size` unused bytes starting at `start`.
#[derive(Debug, Clone, Copy, PartialEq, Eq, Structural)]
pub struct FreeBlock {
    pub start: u64,
    pub size: u64,
}

/// The size a request occupies in the heap: a freed range must be able to
/// carry a list node, so requests below the minimum node size are padded up
/// to it.
pub open spec fn spec_effective_size(size: u64) -> u64 {
    if size < MIN_BLOCK_SIZE {
        MIN_BLOCK_SIZE
    } else {
        size
    }
}

/// Whether an aligned request of `size` bytes fits entirely inside block `b`.
pub open spec fn block_fits(b: FreeBlock, size: u64, align: u64) -> bool {
    spec_align_up(b.start as int, align as int) + spec_effective_size(size) <= b.start + b.size
}

/// Index of the first block in the list that the request fits in.
pub open spec fn spec_first_fit(blocks: Seq<FreeBlock>, size: u64, align: u64) -> Option<int>
    decreases blocks.len(),
{
    if blocks.len() == 0 {
        None
    } else if block_fits(blocks[0], size, align) {
        Some(0int)
    } else {
        match spec_first_fit(blocks.drop_first(), size, align) {
            Some(i) => Some(i + 1),
            None => None,
        }
    }
}

/// `spec_first_fit` really is the first fit: it points at a fitting block
/// preceded only by blocks the request does not fit in, and it is `None`
/// exactly when no block fits.
pub proof fn lemma_first_fit_characterization(blocks: Seq<FreeBlock>, size: u64, align: u64)
    ensures
        match spec_first_fit(blocks, size, align) {
            Some(i) => 0 <= i < blocks.len() && block_fits(blocks[i], size, align) && (forall|
                k: int,
            |
                0 <= k < i ==> !block_fits(#[trigger] blocks[k], size, align)),
            None => forall|k: int|
                0 <= k < blocks.len() ==> !block_fits(#[trigger] blocks[k], size, align),
        },
    decreases blocks.len(),
{
    if blocks.len() != 0 && !block_fits(blocks[0], size, align) {
        lemma_first_fit_characterization(blocks.drop_first(), size, align);
        assert(forall|k: int|
            1 <= k < blocks.len() ==> #[trigger] blocks[k] == blocks.drop_first()[k - 1]);
    }
}

/// What is left of block `b` after carving the request out of it: the bytes
/// before the aligned start and the bytes after the carved range, each kept
/// as a free block only if it can still hold a list node.
pub open spec fn spec_split_remainders(b: FreeBlock, size: u64, align: u64) -> Seq<FreeBlock>
    recommends
        block_fits(b, size, align),
{
    let a = spec_align_up(b.start as int, align as int);
    let eff = spec_effective_size(size);
    let prefix = a - b.start;
    let suffix = b.start + b.size - (a + eff);
    (if prefix >= MIN_BLOCK_SIZE {
        seq![(FreeBlock { start: b.start, size: prefix as u64 })]
    } else {
        Seq::empty()
    }) + (if suffix >= MIN_BLOCK_SIZE {
        seq![(FreeBlock { start: (a + eff) as u64, size: suffix as u64 })]
    } else {
        Seq::empty()
    })
}

/// Two free blocks cover disjoint byte ranges.
pub open spec fn blocks_disjoint(a: FreeBlock, b: FreeBlock) -> bool {
    a.start + a.size <= b.start || b.start + b.size <= a.start
}

/// A live range and a free block cover disjoint byte ranges.
pub open spec fn range_block_disjoint(r: (u64, u64), b: FreeBlock) -> bool {
    r.0 + r.1 <= b.start || b.start + b.size <= r.0
}

/// First-fit free-list allocator over a fixed heap window.
pub struct LinkedListAllocator {
    /// First address of the heap window.
    pub heap_start: u64,
    /// One past the last address of the heap window.
    pub heap_end: u64,
    /// The free list, head first: the order the allocator walks it in.
    pub blocks: Vec<FreeBlock>,
    /// Model of the live allocations as `(address, size)` ranges, sizes
    /// already padded to the effective size.
    pub live: Ghost<Set<(u64, u64)>>,
}

impl LinkedListAllocator {
    /// Internal invariant: free blocks and live ranges lie inside the heap
    /// window, every free block can hold its list node, and all of them —
    /// free against free, live against live, live against free — are
    /// pairwise disjoint.
    pub open spec fn wf(self) -> bool {
        &&& self.heap_start <= self.heap_end
        &&& (forall|i: int|
            0 <= i < self.blocks@.len() ==> {
                let b = #[trigger] self.blocks@[i];
                &&& self.heap_start <= b.start
                &&& b.start + b.size <= self.heap_end
                &&& b.size >= MIN_BLOCK_SIZE
            })
        &&& (forall|i: int, j: int|
            0 <= i < j < self.blocks@.len() ==> blocks_disjoint(
                #[trigger] self.blocks@[i],
                #[trigger] self.blocks@[j],
            ))
        &&& self.live@.finite()
        &&& (forall|r: (u64, u64)| #[trigger]
            self.live@.contains(r) ==> self.heap_start <= r.0 && r.0 + r.1 <= self.heap_end
                && r.1 >= MIN_BLOCK_SIZE)
        &&& (forall|r1: (u64, u64), r2: (u64, u64)|
            #[trigger] self.live@.contains(r1) && #[trigger] self.live@.contains(r2) && r1 != r2
                ==> r1.0 + r1.1 <= r2.0 || r2.0 + r2.1 <= r1.0)
        &&& (forall|r: (u64, u64), i: int|
            #[trigger] self.live@.contains(r) && 0 <= i < self.blocks@.len()
                ==> range_block_disjoint(r, #[trigger] self.blocks@[i]))
    }

    /// A new, empty free-list allocator over no memory at all.
    pub fn new() -> (r: LinkedListAllocator)
        ensures
            r.heap_start == 0,
            r.heap_end == 0,
            r.blocks@ == Seq::<FreeBlock>::empty(),
            r.live@ == Set::<(u64, u64)>::empty(),
            r.wf(),
    {
        LinkedListAllocator {
            heap_start: 0,
            heap_end: 0,
            blocks: Vec::new(),
            live: Ghost(Set::empty()),
        }
    }

    /// Hand the allocator its heap window: the list is seeded with one
    /// free block covering the whole window. The window must be unused and
    /// the allocator must not have served any allocation yet.
    pub fn init(&mut self, heap_start: u64, heap_size: u64)
        requires
            old(self).blocks@.len() == 0,
            old(self).live@ == Set::<(u64, u64)>::empty(),
            heap_size >= MIN_BLOCK_SIZE,
            heap_start + heap_size <= u64::MAX,
        ensures
            final(self).heap_start == heap_start,
            final(self).heap_end == heap_start + heap_size,
            final(self).blocks@ == seq![(FreeBlock { start: heap_start, size: heap_size })],
            final(self).live@ == old(self).live@,
            final(self).wf(),
    {
        self.heap_start = heap_start;
        self.heap_end = heap_start + heap_size;
        self.blocks.push(FreeBlock { start: heap_start, size: heap_size });
        proof {
            assert(final(self).blocks@ =~= seq![(FreeBlock { start: heap_start, size: heap_size })]);
        }
    }

    /// Serve one allocation, first fit: walk the free list in order and
    /// carve the request out of the first block it fits in. The leftover
    /// prefix and suffix of that block are re-inserted in its place (each
    /// only if it can still hold a list node). If no block fits, report
    /// exhaustion (`None`) and leave the allocator untouched.
    pub fn allocate(&mut self, size: u64, align: u64) -> (r: Option<u64>)
        requires
            old(self).wf(),
            size > 0,
            spec_is_power_of_two(align),
        ensures
            final(self).wf(),
            final(self).heap_start == old(self).heap_start,
            final(self).heap_end == old(self).heap_end,
            r is Some <==> spec_first_fit(old(self).blocks@, size, align) is Some,
            match spec_first_fit(old(self).blocks@, size, align) {
                Some(i) => {
                    let b = old(self).blocks@[i];
                    let a = spec_align_up(b.start as int, align as int);
                    let eff = spec_effective_size(size);
                    &&& r == Some(a as u64)
                    &&& a % (align as int) == 0
                    &&& old(self).heap_start <= a
                    &&& a + eff <= old(self).heap_end
                    &&& final(self).blocks@ == old(self).blocks@.subrange(0, i)
                        + spec_split_remainders(b, size, align) + old(self).blocks@.subrange(
                        i + 1,
                        old(self).blocks@.len() as int,
                    )
                    &&& final(self).live@ == old(self).live@.insert((a as u64, eff))
                },
                None => {
                    &&& r is None
                    &&& *final(self) == *old(self)
                },
            },
    {
        proof {
            lemma_power_of_two_pos(align);
            lemma_first_fit_characterization(self.blocks@, size, align);
        }
        let eff = effective_size(size);
        let n = self.blocks.len();
        let mut i: usize = 0;
        let mut found: Option<usize> = None;
        while i < n
            invariant_except_break
                found is None,
            invariant
                old(self).wf(),
                *self == *old(self),
                n == self.blocks@.len(),
                i <= n,
                eff == spec_effective_size(size),
                align >= 1,
                forall|k: int| 0 <= k < i ==> !block_fits(#[trigger] self.blocks@[k], size, align),
            ensures
                *self == *old(self),
                match found {
                    Some(f) => f < n && block_fits(self.blocks@[f as int], size, align) && (forall|
                        k: int,
                    |
                        0 <= k < f ==> !block_fits(#[trigger] self.blocks@[k], size, align)),
                    None => forall|k: int|
                        0 <= k < n ==> !block_fits(#[trigger] self.blocks@[k], size, align),
                },
            decreases n - i,
        {
            let b = self.blocks[i];
            proof {
                lemma_align_up_properties(b.start as int, align as int);
            }
            let rem = b.start % align;
            let rounded = if rem == 0 {
                Some(b.start)
            } else {
                b.start.checked_add(align - rem)
            };
            match rounded {
                Some(a) => {
                    match a.checked_add(eff) {
                        Some(carved_end) => {
                            if carved_end <= b.start + b.size {
                                found = Some(i);
                                break ;
                            }
                        },
                        None => {},
                    }
                },
                None => {},
            }
            i = i + 1;
        }
        match found {
            None => {
                proof {
                    if spec_first_fit(old(self).blocks@, size, align) is Some {
                        assert(false);
                    }
                }
                None
            },
            Some(f) => {
                proof {
                    assert(spec_first_fit(old(self).blocks@, size, align) == Some(f as int));
                }
                let b = self.blocks[f];
                proof {
                    lemma_align_up_properties(b.start as int, align as int);
                }
                let rem = b.start % align;
                let alloc_start = if rem == 0 {
                    b.start
                } else {
                    b.start + (align - rem)
                };
                let alloc_end = alloc_start + eff;
                let block_end = b.start + b.size;
                let _removed = self.blocks.remove(f);
                let prefix = alloc_start - b.start;
                let suffix = block_end - alloc_end;
                let mut at = f;
                if prefix >= MIN_BLOCK_SIZE {
                    self.blocks.insert(at, FreeBlock { start: b.start, size: prefix });
                    at = at + 1;
                }
                if suffix >= MIN_BLOCK_SIZE {
                    self.blocks.insert(at, FreeBlock { start: alloc_end, size: suffix });
                }
                proof {
                    let fi = f as int;
                    let obs = old(self).blocks@;
                    assert(self.blocks@ =~= obs.subrange(0, fi) + spec_split_remainders(
                        b,
                        size,
                        align,
                    ) + obs.subrange(fi + 1, obs.len() as int));
                    let carved = (alloc_start, eff);
                    if self.live@.contains(carved) {
                        assert(range_block_disjoint(carved, b));
                        assert(false);
                    }
                    self.live@ = self.live@.insert(carved);
                    lemma_split_preserves_wf(*old(self), fi, size, align, *self);
                }
                Some(alloc_start)
            },
        }
    }

    /// Return one live allocation to the allocator: the freed range becomes
    /// a new free block at the head of the list. Nothing is merged with
    /// it. The freed range is named by address and size; the alignment is
    /// part of the allocation contract but plays no role here.
    pub fn deallocate(&mut self, addr: u64, size: u64, align: u64)
        requires
            old(self).wf(),
            old(self).live@.contains((addr, spec_effective_size(size))),
        ensures
            final(self).wf(),
            final(self).heap_start == old(self).heap_start,
            final(self).heap_end == old(self).heap_end,
            final(self).blocks@ == seq![(FreeBlock { start: addr, size: spec_effective_size(size) })]
                + old(self).blocks@,
            final(self).live@ == old(self).live@.remove((addr, spec_effective_size(size))),
    {
        let eff = effective_size(size);
        self.blocks.insert(0, FreeBlock { start: addr, size: eff });
        proof {
            self.live@ = self.live@.remove((addr, eff));
            let freed = FreeBlock { start: addr, size: eff };
            assert(self.blocks@ =~= seq![freed] + old(self).blocks@);
            assert forall|i: int, j: int| 0 <= i < j < self.blocks@.len() implies blocks_disjoint(
                self.blocks@[i],
                self.blocks@[j],
            ) by {
                if i == 0 {
                    assert(old(self).live@.contains((addr, eff)));
                    assert(range_block_disjoint((addr, eff), old(self).blocks@[j - 1]));
                } else {
                    assert(blocks_disjoint(old(self).blocks@[i - 1], old(self).blocks@[j - 1]));
                }
            }
            assert forall|r: (u64, u64), i: int|
                #[trigger] self.live@.contains(r) && 0 <= i < self.blocks@.len() implies
                range_block_disjoint(r, #[trigger] self.blocks@[i]) by {
                assert(old(self).live@.contains(r));
                if i == 0 {
                    assert(r != (addr, eff));
                } else {
                    assert(range_block_disjoint(r, old(self).blocks@[i - 1]));
                }
            }
        }
    }
}

/// Carving the first fitting block preserves well-formedness: the carved
/// range, the re-inserted remainders, the untouched blocks and all live
/// ranges stay pairwise disjoint inside the window.
proof fn lemma_split_preserves_wf(
    pre: LinkedListAllocator,
    i: int,
    size: u64,
    align: u64,
    post: LinkedListAllocator,
)
    requires
        pre.wf(),
        0 <= i < pre.blocks@.len(),
        align >= 1,
        size > 0,
        block_fits(pre.blocks@[i], size, align),
        post.heap_start == pre.heap_start,
        post.heap_end == pre.heap_end,
        post.blocks@ == pre.blocks@.subrange(0, i) + spec_split_remainders(
            pre.blocks@[i],
            size,
            align,
        ) + pre.blocks@.subrange(i + 1, pre.blocks@.len() as int),
        post.live@ == pre.live@.insert(
            (
                spec_align_up(pre.blocks@[i].start as int, align as int) as u64,
                spec_effective_size(size),
            ),
        ),
    ensures
        post.wf(),
{
    let b = pre.blocks@[i];
    let a = spec_align_up(b.start as int, align as int);
    let eff = spec_effective_size(size);
    let carved = (a as u64, eff);
    lemma_align_up_properties(b.start as int, align as int);
    let rem = spec_split_remainders(b, size, align);
    let pb = pre.blocks@;
    let nb = post.blocks@;
    let k = rem.len();

    assert(b.start <= a <= a + eff <= b.start + b.size);
    assert(carved.0 == a);

    // every block of the new list is an old block or a remainder inside b
    assert(forall|m: int| 0 <= m < i ==> nb[m] == pb[m]);
    assert(forall|m: int| i + k <= m < nb.len() ==> nb[m] == pb[m - k + 1]);
    // remainders lie inside b's extent, can hold a node, and avoid the
    // carved range [a, a + eff)
    assert(forall|m: int|
        i <= m < i + k ==> b.start <= (#[trigger] nb[m]).start && nb[m].start + nb[m].size
            <= b.start + b.size && nb[m].size >= MIN_BLOCK_SIZE);
    assert(forall|m: int|
        i <= m < i + k ==> (#[trigger] nb[m]).start + nb[m].size <= a || a + eff <= nb[m].start);

    if pre.live@.contains(carved) {
        assert(range_block_disjoint(carved, b));
        assert(false);
    }

    assert forall|m: int, j: int| 0 <= m < j < nb.len() implies blocks_disjoint(
        nb[m],
        nb[j],
    ) by {
        let om = if m < i {
            m
        } else {
            m - k + 1
        };
        let oj = if j < i {
            j
        } else {
            j - k + 1
        };
        if m < i || m >= i + k {
            if j < i || j >= i + k {
                assert(blocks_disjoint(pb[om], pb[oj]));
            } else {
                // j is a remainder inside b; m is an old block distinct from b
                assert(blocks_disjoint(pb[om], b));
            }
        } else {
            // m is a remainder
            if j >= i + k {
                assert(blocks_disjoint(b, pb[oj]));
            } else {
                // both remainders: the list holds prefix then suffix
                assert(k == 2);
                assert(nb[m] == spec_split_remainders(b, size, align)[0]);
                assert(nb[j] == spec_split_remainders(b, size, align)[1]);
                assert(nb[m].start + nb[m].size == a);
                assert(nb[j].start == a + eff);
            }
        }
    }

    assert forall|r: (u64, u64)| #[trigger] post.live@.contains(r) implies post.heap_start <= r.0
        && r.0 + r.1 <= post.heap_end && r.1 >= MIN_BLOCK_SIZE by {
        if r != carved {
            assert(pre.live@.contains(r));
        }
    }

    assert forall|r1: (u64, u64), r2: (u64, u64)|
        #[trigger] post.live@.contains(r1) && #[trigger] post.live@.contains(r2) && r1 != r2 implies
        r1.0 + r1.1 <= r2.0 || r2.0 + r2.1 <= r1.0 by {
        if r1 != carved && r2 != carved {
            assert(pre.live@.contains(r1));
            assert(pre.live@.contains(r2));
        } else if r1 == carved {
            assert(pre.live@.contains(r2));
            assert(range_block_disjoint(r2, b));
        } else {
            assert(pre.live@.contains(r1));
            assert(range_block_disjoint(r1, b));
        }
    }

    assert forall|r: (u64, u64), j: int|
        #[trigger] post.live@.contains(r) && 0 <= j < nb.len() implies range_block_disjoint(
        r,
        #[trigger] nb[j],
    ) by {
        if r == carved {
            if j < i || j >= i + k {
                let oj = if j < i {
                    j
                } else {
                    j - k + 1
                };
                assert(blocks_disjoint(b, pb[oj]));
            } else {
                assert(nb[j].start + nb[j].size <= a || a + eff <= nb[j].start);
            }
        } else {
            assert(pre.live@.contains(r));
            if j < i || j >= i + k {
                let oj = if j < i {
                    j
                } else {
                    j - k + 1
                };
                assert(range_block_disjoint(r, pb[oj]));
            } else {
                assert(range_block_disjoint(r, b));
            }
        }
    }
}

/// The size a request occupies in the heap, executable form.
fn effective_size(size: u64) -> (r: u64)
    ensures
        r == spec_effective_size(size),
{
    if size < MIN_BLOCK_SIZE {
        MIN_BLOCK_SIZE
    } else {
        size
    }
}

/// No two live allocations overlap: any two distinct ranges handed out and
/// not yet freed are disjoint, whatever interleaving of allocations and
/// frees produced them.
pub proof fn lemma_live_ranges_disjoint(a: LinkedListAllocator, r1: (u64, u64), r2: (u64, u64))
    requires
        a.wf(),
        a.live@.contains(r1),
        a.live@.contains(r2),
        r1 != r2,
    ensures
        r1.0 + r1.1 <= r2.0 || r2.0 + r2.1 <= r1.0,
{
}

/// First-fit reuse: if some free block starts on the requested alignment
/// and is at least as large as the request's effective size, the request
/// succeeds. In particular, after `deallocate(addr, size)` the freed range
/// heads the list, so a same-or-smaller request with the allocation's
/// alignment is served without any new memory.
pub proof fn lemma_fit_in_free_block(a: LinkedListAllocator, i: int, size: u64, align: u64)
    requires
        a.wf(),
        0 <= i < a.blocks@.len(),
        align >= 1,
        a.blocks@[i].start % align == 0,
        spec_effective_size(size) <= a.blocks@[i].size,
    ensures
        spec_first_fit(a.blocks@, size, align) is Some,
{
    assert(block_fits(a.blocks@[i], size, align));
    lemma_first_fit_characterization(a.blocks@, size, align);
    if spec_first_fit(a.blocks@, size, align) is None {
        assert(!block_fits(a.blocks@[i], size, align));
    }
}

} // verus!
