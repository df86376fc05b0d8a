//! Frame source, mapper model, and heap initialization.

use os::allocator::{init_heap, HEAP_PAGE_COUNT, HEAP_SIZE, HEAP_START};
use os::linked_list::LinkedListAllocator;
use os::memory::{
    BootInfoFrameAllocator, EmptyFrameAllocator, MappingError, MemoryRegion, PageMapper,
    PhysFrame, FRAME_SIZE,
};
use os::QemuExitCode;

fn region(start: u64, frames: u64, usable: bool) -> MemoryRegion {
    MemoryRegion { start, end: start + frames * FRAME_SIZE, usable }
}

#[test]
fn frames_are_distinct_aligned_increasing_and_in_bounds() {
    let map = vec![
        region(0x1000, 2, true),
        region(0x3000, 1, false),
        region(0x10000, 3, true),
    ];
    let mut fa = BootInfoFrameAllocator::init(map.clone());
    let mut seen: Vec<u64> = Vec::new();
    while let Some(f) = fa.allocate_frame() {
        assert_eq!(f.start % FRAME_SIZE, 0, "frame-aligned");
        if let Some(&prev) = seen.last() {
            assert!(f.start > prev, "non-decreasing, in fact strictly increasing");
        }
        assert!(!seen.contains(&f.start), "distinct");
        let inside = map
            .iter()
            .any(|r| r.usable && r.start <= f.start && f.start + FRAME_SIZE <= r.end);
        assert!(inside, "within a usable region");
        seen.push(f.start);
    }
    assert_eq!(seen, vec![0x1000, 0x2000, 0x10000, 0x11000, 0x12000]);
}

#[test]
fn exhaustion_is_idempotent() {
    let mut fa = BootInfoFrameAllocator::init(vec![region(0x4000, 1, true)]);
    assert_eq!(fa.allocate_frame(), Some(PhysFrame { start: 0x4000 }));
    // exhausted exactly once the usable frames are gone — and forever after
    for _ in 0..10 {
        assert_eq!(fa.allocate_frame(), None);
    }
}

#[test]
fn reserved_regions_yield_nothing() {
    let mut fa = BootInfoFrameAllocator::init(vec![
        region(0x1000, 4, false),
        region(0x8000, 2, false),
    ]);
    assert_eq!(fa.allocate_frame(), None);
}

#[test]
fn empty_frame_allocator_always_fails() {
    let mut fa = EmptyFrameAllocator;
    assert_eq!(fa.allocate_frame(), None);
    assert_eq!(fa.allocate_frame(), None);
}

#[test]
fn containing_address_rounds_down() {
    assert_eq!(PhysFrame::containing_address(0x1000).start, 0x1000);
    assert_eq!(PhysFrame::containing_address(0x1fff).start, 0x1000);
    assert_eq!(PhysFrame::containing_address(0).start, 0);
}

#[test]
fn mapper_rejects_double_mapping() {
    let mut mapper = PageMapper::new();
    let frame = PhysFrame { start: 0x2000 };
    assert_eq!(mapper.map_to(HEAP_START, frame, true, true), Ok(()));
    assert_eq!(mapper.entries.len(), 1);
    assert_eq!(
        mapper.map_to(HEAP_START, PhysFrame { start: 0x5000 }, true, true),
        Err(MappingError::PageAlreadyMapped)
    );
    assert_eq!(mapper.entries.len(), 1);
    assert_eq!(mapper.entries[0].frame, frame);
}

#[test]
fn init_heap_maps_every_page_and_seeds_the_backend() {
    let mut mapper = PageMapper::new();
    let mut fa = BootInfoFrameAllocator::init(vec![region(0x100000, 40, true)]);
    let mut backend = LinkedListAllocator::new();
    assert_eq!(init_heap(&mut mapper, &mut fa, &mut backend), Ok(()));
    assert_eq!(mapper.entries.len(), HEAP_PAGE_COUNT as usize);
    for (k, entry) in mapper.entries.iter().enumerate() {
        assert_eq!(entry.page, HEAP_START + k as u64 * FRAME_SIZE);
        assert_eq!(entry.frame.start, 0x100000 + k as u64 * FRAME_SIZE);
        assert!(entry.present && entry.writable);
    }
    assert_eq!(fa.next, HEAP_PAGE_COUNT as usize);
    // the backend owns exactly the heap window, as one free block
    assert_eq!(backend.heap_start, HEAP_START);
    assert_eq!(backend.heap_end, HEAP_START + HEAP_SIZE);
    assert_eq!(backend.blocks.len(), 1);
    assert_eq!(backend.blocks[0].start, HEAP_START);
    assert_eq!(backend.blocks[0].size, HEAP_SIZE);
    // and serves from it
    let addr = backend.allocate(8, 8).unwrap();
    assert!(addr >= HEAP_START && addr + 8 <= HEAP_START + HEAP_SIZE);
}

#[test]
fn init_heap_propagates_frame_exhaustion() {
    let mut mapper = PageMapper::new();
    let mut fa = BootInfoFrameAllocator::init(vec![region(0x100000, 10, true)]);
    let mut backend = LinkedListAllocator::new();
    assert_eq!(
        init_heap(&mut mapper, &mut fa, &mut backend),
        Err(MappingError::FrameAllocationFailed)
    );
    // the ten frames that existed were mapped; nothing was rolled back
    assert_eq!(mapper.entries.len(), 10);
    // the backend never saw the half-mapped window
    assert_eq!(backend.blocks.len(), 0);
    assert_eq!(backend.heap_start, backend.heap_end);
}

#[test]
fn exit_codes_match_the_debug_exit_protocol() {
    assert_eq!(QemuExitCode::Success.code(), 0x10);
    assert_eq!(QemuExitCode::Failed.code(), 0x11);
    assert_ne!(QemuExitCode::Success, QemuExitCode::Failed);
}
