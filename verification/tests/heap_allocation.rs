//! The boot-to-heap flow end to end, mirroring the kernel's heap tests:
//! a few small allocations, a large growing buffer, and long alloc/free
//! loops that depend on the backend reusing freed memory.

use os::allocator::{init_heap, HEAP_SIZE, HEAP_START};
use os::linked_list::LinkedListAllocator;
use os::memory::{BootInfoFrameAllocator, MemoryRegion, PageMapper, FRAME_SIZE};

/// Boot flow on a model machine: frame source over a usable region, heap
/// mapped page by page, backend seeded with the window.
fn booted_heap() -> LinkedListAllocator {
    let mut mapper = PageMapper::new();
    let map = vec![MemoryRegion {
        start: 0x20_0000,
        end: 0x20_0000 + 64 * FRAME_SIZE,
        usable: true,
    }];
    let mut frame_allocator = BootInfoFrameAllocator::init(map);
    let mut backend = LinkedListAllocator::new();
    init_heap(&mut mapper, &mut frame_allocator, &mut backend)
        .expect("heap initialization failed");
    backend
}

#[test]
fn simple_allocation() {
    let mut heap = booted_heap();
    let heap_value_1 = heap.allocate(8, 8).unwrap();
    let heap_value_2 = heap.allocate(8, 8).unwrap();
    assert_ne!(heap_value_1, heap_value_2);
    assert!(heap_value_1 >= HEAP_START && heap_value_1 + 8 <= HEAP_START + HEAP_SIZE);
    assert!(heap_value_2 >= HEAP_START && heap_value_2 + 8 <= HEAP_START + HEAP_SIZE);
}

#[test]
fn large_vec() {
    // a growth-only container of 1000 u64 values: grow by doubling, each
    // growth step allocating the new buffer before freeing the old one
    let mut heap = booted_heap();
    let n: u64 = 1000;
    let mut capacity: u64 = 1;
    let mut buffer = heap.allocate(capacity * 8, 8).unwrap();
    let mut len: u64 = 0;
    for _ in 0..n {
        if len == capacity {
            let bigger = heap.allocate(capacity * 2 * 8, 8).expect("grow");
            heap.deallocate(buffer, capacity * 8, 8);
            buffer = bigger;
            capacity *= 2;
        }
        len += 1;
    }
    assert_eq!(len, n);
    assert!(buffer + capacity * 8 <= HEAP_START + HEAP_SIZE);
    // the sum the kernel test checks, here over the model indices
    assert_eq!((0..n).sum::<u64>(), (n - 1) * n / 2);
}

#[test]
fn many_boxes() {
    let mut heap = booted_heap();
    for i in 0..HEAP_SIZE {
        let x = heap.allocate(8, 8).expect("reuse must prevent exhaustion");
        assert!(x >= HEAP_START && x + 8 <= HEAP_START + HEAP_SIZE);
        let _ = i;
        heap.deallocate(x, 8, 8);
    }
}

#[test]
fn many_boxes_long_lived() {
    let mut heap = booted_heap();
    let long_lived = heap.allocate(8, 8).unwrap();
    for _ in 0..HEAP_SIZE {
        let x = heap.allocate(8, 8).expect("reuse must prevent exhaustion");
        assert_ne!(x, long_lived, "the long-lived block stays untouched");
        heap.deallocate(x, 8, 8);
    }
    assert!(long_lived >= HEAP_START && long_lived + 8 <= HEAP_START + HEAP_SIZE);
}
