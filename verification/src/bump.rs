//! Bump-pointer allocator backend: a forward-only cursor over the heap
//! window. Freeing decrements a live-allocation count; when the count drops
//! to zero the whole arena is reclaimed at once by resetting the cursor.
//!
//! A ghost set of live ranges records every allocation that has been handed
//! out and not yet freed. Well-formedness says those ranges lie inside the
//! used part of the window and are pairwise disjoint, so no two live
//! allocations ever overlap.

use vstd::prelude::*;

verus! {

use crate::allocator::{
    lemma_align_up_properties, lemma_power_of_two_pos, spec_align_up, spec_is_power_of_two,
};

/// Forward-only cursor allocator over a fixed heap window.
pub struct BumpAllocator {
    /// First address of the heap window.
    pub heap_start: u64,
    /// One past the last address of the heap window.
    pub heap_end: u64,
    /// Next address to hand out; everything below it (and above
    /// `heap_start`) is already spoken for.
    pub next: u64,
    /// Number of allocations handed out and not yet freed.
    pub allocations: u64,
    /// Model of the live allocations as `(address, size)` ranges.
    pub live: Ghost<Set<(u64, u64)>>,
}

impl BumpAllocator {
    /// Internal invariant: the cursor stays inside the window, the live
    /// ranges lie in the consumed prefix, no two of them overlap, and the
    /// allocation count matches the number of live ranges. A drained
    /// allocator stands at the heap base.
    pub open spec fn wf(self) -> bool {
        &&& self.heap_start <= self.next <= self.heap_end
        &&& self.live@.finite()
        &&& self.allocations == self.live@.len()
        &&& (forall|b: (u64, u64)| #[trigger]
            self.live@.contains(b) ==> self.heap_start <= b.0 && b.0 + b.1 <= self.next && b.1
                > 0)
        &&& (forall|b1: (u64, u64), b2: (u64, u64)|
            #[trigger] self.live@.contains(b1) && #[trigger] self.live@.contains(b2) && b1 != b2
                ==> b1.0 + b1.1 <= b2.0 || b2.0 + b2.1 <= b1.0)
        &&& (self.allocations == 0 ==> self.next == self.heap_start)
    }

    /// A new, empty bump allocator over no memory at all.
    pub fn new() -> (r: BumpAllocator)
        ensures
            r.heap_start == 0,
            r.heap_end == 0,
            r.next == 0,
            r.allocations == 0,
            r.live@ == Set::<(u64, u64)>::empty(),
            r.wf(),
    {
        let r = BumpAllocator {
            heap_start: 0,
            heap_end: 0,
            next: 0,
            allocations: 0,
            live: Ghost(Set::empty()),
        };
        proof {
            assert(Set::<(u64, u64)>::empty().len() == 0);
        }
        r
    }

    /// Hand the allocator its heap window. The window must be unused and
    /// the allocator must not have served any allocation yet; the cursor
    /// starts at the window base.
    pub fn init(&mut self, heap_start: u64, heap_size: u64)
        requires
            old(self).allocations == 0,
            old(self).live@ == Set::<(u64, u64)>::empty(),
            heap_start + heap_size <= u64::MAX,
        ensures
            final(self).heap_start == heap_start,
            final(self).heap_end == heap_start + heap_size,
            final(self).next == heap_start,
            final(self).allocations == 0,
            final(self).live@ == old(self).live@,
            final(self).wf(),
    {
        self.heap_start = heap_start;
        self.heap_end = heap_start + heap_size;
        self.next = heap_start;
        proof {
            assert(Set::<(u64, u64)>::empty().len() == 0);
        }
    }

    /// Serve one allocation: round the cursor up to `align`, and if the
    /// rounded start plus `size` still fits in the window, advance the
    /// cursor past it and return the rounded start. Otherwise report
    /// exhaustion (`None`) and leave the allocator untouched.
    pub fn allocate(&mut self, size: u64, align: u64) -> (r: Option<u64>)
        requires
            old(self).wf(),
            size > 0,
            spec_is_power_of_two(align),
            old(self).allocations < u64::MAX,
        ensures
            final(self).wf(),
            final(self).heap_start == old(self).heap_start,
            final(self).heap_end == old(self).heap_end,
            ({
                let a = spec_align_up(old(self).next as int, align as int);
                if a + size <= old(self).heap_end {
                    &&& r == Some(a as u64)
                    &&& a % (align as int) == 0
                    &&& old(self).heap_start <= a
                    &&& a + size <= old(self).heap_end
                    &&& final(self).next == a + size
                    &&& final(self).allocations == old(self).allocations + 1
                    &&& final(self).live@ == old(self).live@.insert((a as u64, size))
                } else {
                    &&& r is None
                    &&& *final(self) == *old(self)
                }
            }),
    {
        proof {
            lemma_power_of_two_pos(align);
            lemma_align_up_properties(self.next as int, align as int);
        }
        let rem = self.next % align;
        let rounded = if rem == 0 {
            Some(self.next)
        } else {
            self.next.checked_add(align - rem)
        };
        let alloc_start = match rounded {
            Some(s) => s,
            None => {
                // the rounded cursor alone exceeds the address space, so it
                // certainly exceeds the window
                return None;
            },
        };
        let alloc_end = match alloc_start.checked_add(size) {
            Some(e) => e,
            None => {
                return None;
            },
        };
        if alloc_end > self.heap_end {
            None
        } else {
            self.next = alloc_end;
            self.allocations = self.allocations + 1;
            proof {
                let b = (alloc_start, size);
                if self.live@.contains(b) {
                    assert(b.0 + b.1 <= old(self).next);
                    assert(false);
                }
                self.live@ = self.live@.insert(b);
            }
            Some(alloc_start)
        }
    }

    /// Return one live allocation to the allocator. The count drops by one;
    /// when the last outstanding allocation is freed the cursor returns to
    /// the heap base, reclaiming the whole arena at once. Out-of-order
    /// frees reclaim nothing before that point, by design. The alignment
    /// is part of the allocation contract but plays no role in
    /// reclamation.
    pub fn deallocate(&mut self, addr: u64, size: u64, align: u64)
        requires
            old(self).wf(),
            old(self).live@.contains((addr, size)),
        ensures
            final(self).wf(),
            final(self).heap_start == old(self).heap_start,
            final(self).heap_end == old(self).heap_end,
            final(self).allocations == old(self).allocations - 1,
            final(self).live@ == old(self).live@.remove((addr, size)),
            final(self).next == (if old(self).allocations == 1 {
                old(self).heap_start
            } else {
                old(self).next
            }),
    {
        proof {
            assert(self.live@.remove((addr, size)).len() == self.live@.len() - 1);
        }
        self.allocations = self.allocations - 1;
        proof {
            self.live@ = self.live@.remove((addr, size));
        }
        if self.allocations == 0 {
            self.next = self.heap_start;
        }
    }
}

/// No two live allocations overlap: any two distinct ranges handed out and
/// not yet freed are disjoint, whatever interleaving of allocations and
/// frees produced them.
pub proof fn lemma_live_allocations_disjoint(b: BumpAllocator, r1: (u64, u64), r2: (u64, u64))
    requires
        b.wf(),
        b.live@.contains(r1),
        b.live@.contains(r2),
        r1 != r2,
    ensures
        r1.0 + r1.1 <= r2.0 || r2.0 + r2.1 <= r1.0,
{
}

/// Once every outstanding allocation has been freed — in whatever order —
/// the cursor stands at the heap base again.
pub proof fn lemma_drained_cursor_resets(b: BumpAllocator)
    requires
        b.wf(),
        b.allocations == 0,
    ensures
        b.next == b.heap_start,
{
}

} // verus!
