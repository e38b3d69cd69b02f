//! Kernel heap behaviour: class selection, round trips, and saturation.
use kernel_core::memory::allocator::FallbackAllocator;
use kernel_core::memory::allocator::FixedSizeBlockAllocator;

fn fresh_heap() -> FixedSizeBlockAllocator {
    let mut heap = FixedSizeBlockAllocator::new();
    heap.init(0x4444_4444_0000, 102400);
    heap
}

#[test]
fn class_selection_size_and_alignment() {
    // for every class layout the block is at least max(size, align) bytes
    // and starts aligned to the chosen class size
    let mut heap = fresh_heap();
    let cases: [(u64, u64, u64); 6] =
        [(1, 1, 8), (8, 8, 8), (9, 4, 16), (100, 64, 128), (2048, 1, 2048), (24, 32, 32)];
    for (size, align, class_size) in cases {
        let addr = heap.allocate(size, align);
        assert!(addr != 0);
        assert_eq!(addr % class_size, 0);
        let max = if size > align { size } else { align };
        assert!(class_size >= max);
    }
}

#[test]
fn oversized_requests_use_fallback() {
    let mut heap = fresh_heap();
    let addr = heap.allocate(4096, 8);
    assert!(addr != 0);
    assert_eq!(addr % 8, 0);
    assert!(addr >= 0x4444_4444_0000);
}

#[test]
fn alloc_dealloc_roundtrip_same_address() {
    // an alloc followed by a dealloc of the same layout leaves the
    // allocator observationally equivalent: the next alloc of that
    // layout returns the same address
    let mut heap = fresh_heap();
    let first = heap.allocate(64, 8);
    assert!(first != 0);
    heap.dealloc(first, 64, 8);
    let second = heap.allocate(64, 8);
    assert_eq!(first, second);
}

#[test]
fn roundtrip_after_warmup() {
    let mut heap = fresh_heap();
    let _a = heap.allocate(32, 32);
    let b = heap.allocate(32, 32);
    heap.dealloc(b, 32, 32);
    let c = heap.allocate(32, 32);
    assert_eq!(b, c);
}

#[test]
fn heap_saturation_and_recovery() {
    // repeated allocation of 2048-byte blocks until exhaustion returns a
    // null address; deallocating one block restores the ability to
    // allocate at least one
    let mut heap = fresh_heap();
    let mut blocks = Vec::new();
    loop {
        let addr = heap.allocate(2048, 2048);
        if addr == 0 {
            break;
        }
        blocks.push(addr);
        assert!(blocks.len() <= 64, "heap handed out more than it holds");
    }
    // 100 KiB serves exactly 50 blocks of 2 KiB
    assert_eq!(blocks.len(), 50);
    let freed = blocks[7];
    heap.dealloc(freed, 2048, 2048);
    let again = heap.allocate(2048, 2048);
    assert_eq!(again, freed);
}

#[test]
fn distinct_live_blocks_do_not_overlap() {
    let mut heap = fresh_heap();
    let a = heap.allocate(256, 256);
    let b = heap.allocate(256, 256);
    assert!(a != 0 && b != 0);
    assert!(a + 256 <= b || b + 256 <= a);
}

#[test]
fn fallback_first_fit_and_coalescing() {
    let mut fb = FallbackAllocator::empty();
    assert_eq!(fb.allocate_first_fit(8, 1), 0);
    fb.init(0x1000, 0x1000);
    let a = fb.allocate_first_fit(0x100, 1);
    assert_eq!(a, 0x1000);
    let b = fb.allocate_first_fit(0x100, 1);
    assert_eq!(b, 0x1100);
    fb.deallocate(a, 0x100);
    fb.deallocate(b, 0x100);
    // after both frees the areas merge and the whole region serves again
    let c = fb.allocate_first_fit(0x1000, 1);
    assert_eq!(c, 0x1000);
}

#[test]
fn fallback_respects_alignment() {
    let mut fb = FallbackAllocator::empty();
    fb.init(0x1001, 0x2000);
    let a = fb.allocate_first_fit(16, 0x100);
    assert_eq!(a % 0x100, 0);
    assert_eq!(a, 0x1100);
}
