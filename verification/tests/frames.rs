//! Frame allocator behaviour: uniqueness, region membership, exhaustion.
use kernel_core::memory::BootInfoFrameAllocator;
use kernel_core::memory::MemoryRegion;

fn small_map() -> Vec<MemoryRegion> {
    vec![
        MemoryRegion { start: 0x1000, end: 0x4000, usable: true },
        MemoryRegion { start: 0x4000, end: 0x6000, usable: false },
        MemoryRegion { start: 0x6000, end: 0x8000, usable: true },
    ]
}

#[test]
fn frames_are_pairwise_distinct_and_usable() {
    // every successful allocation returns a fresh frame inside a region
    // tagged usable
    let mut fa = BootInfoFrameAllocator::new(small_map());
    let mut seen = Vec::new();
    while let Some(f) = fa.allocate_frame() {
        assert!(!seen.contains(&f), "frame {f:#x} returned twice");
        assert_eq!(f % 4096, 0);
        let usable = (0x1000..0x4000).contains(&f) || (0x6000..0x8000).contains(&f);
        assert!(usable, "frame {f:#x} outside usable regions");
        seen.push(f);
    }
    // three usable frames in the first region, two in the second
    assert_eq!(seen.len(), 5);
}

#[test]
fn frames_come_in_address_order() {
    let mut fa = BootInfoFrameAllocator::new(small_map());
    assert_eq!(fa.allocate_frame(), Some(0x1000));
    assert_eq!(fa.allocate_frame(), Some(0x2000));
    assert_eq!(fa.allocate_frame(), Some(0x3000));
    assert_eq!(fa.allocate_frame(), Some(0x6000));
    assert_eq!(fa.allocate_frame(), Some(0x7000));
    assert_eq!(fa.allocate_frame(), None);
    assert_eq!(fa.allocate_frame(), None);
}

#[test]
fn unusable_regions_are_skipped() {
    let map = vec![MemoryRegion { start: 0x1000, end: 0x3000, usable: false }];
    let mut fa = BootInfoFrameAllocator::new(map);
    assert_eq!(fa.allocate_frame(), None);
}

#[test]
fn empty_map_is_exhausted_at_once() {
    let mut fa = BootInfoFrameAllocator::new(Vec::new());
    assert_eq!(fa.allocate_frame(), None);
}
