//! Page-table behaviour: kernel mapping, address-space cloning, user
//! stacks and their guard pages.
use kernel_core::memory::allocator::FixedSizeBlockAllocator;
use kernel_core::memory::allocator::HEAP_START;
use kernel_core::memory::allocate_pages;
use kernel_core::memory::allocate_user_stack;
use kernel_core::memory::init;
use kernel_core::memory::translate;
use kernel_core::memory::MemoryRegion;
use kernel_core::memory::PAGE_PRESENT;
use kernel_core::memory::PAGE_USER_ACCESSIBLE;
use kernel_core::memory::PAGE_WRITABLE;
use kernel_core::memory::USER_STACK_BASE;

fn boot_map() -> Vec<MemoryRegion> {
    vec![MemoryRegion { start: 0x10_0000, end: 0x200_0000, usable: true }]
}

#[test]
fn init_maps_the_heap() {
    let mut heap = FixedSizeBlockAllocator::new();
    let mem = init(0, boot_map(), &mut heap).expect("boot memory setup failed");
    let mapped = translate(&mem.kernel_l4_table, HEAP_START);
    let (_frame, flags) = mapped.expect("heap start not mapped");
    assert_eq!(flags, PAGE_PRESENT | PAGE_WRITABLE);
    assert!(translate(&mem.kernel_l4_table, HEAP_START + 102399).is_some());
    assert!(translate(&mem.kernel_l4_table, 0x5000000).is_none());
}

#[test]
fn cloned_space_translates_like_the_template() {
    // every kernel virtual address translates in the copy to the same
    // frame with the same flags
    let mut heap = FixedSizeBlockAllocator::new();
    let mut mem = init(0, boot_map(), &mut heap).expect("boot memory setup failed");
    let (copy, physaddr) = mem.create_new_user_pagetable().expect("clone failed");
    assert_eq!(physaddr, copy.frame);
    for offset in [0u64, 4096, 8192, 102399] {
        let va = HEAP_START + offset;
        assert_eq!(translate(&copy, va), translate(&mem.kernel_l4_table, va));
    }
    assert_eq!(translate(&copy, 0x5000000), None);
}

#[test]
fn writing_the_copy_leaves_the_template_alone() {
    // a user-only mapping added to the copy does not appear in the
    // template
    let mut heap = FixedSizeBlockAllocator::new();
    let mut mem = init(0, boot_map(), &mut heap).expect("boot memory setup failed");
    let (mut copy, _) = mem.create_new_user_pagetable().expect("clone failed");
    let flags = PAGE_PRESENT | PAGE_WRITABLE | PAGE_USER_ACCESSIBLE;
    allocate_pages(&mut mem.frame_allocator, &mut copy, 0x5000000, 4096, flags)
        .expect("mapping failed");
    assert!(translate(&copy, 0x5000000).is_some());
    assert_eq!(translate(&mem.kernel_l4_table, 0x5000000), None);
    // and the kernel mapping is still intact in both
    assert!(translate(&mem.kernel_l4_table, HEAP_START).is_some());
    assert_eq!(translate(&copy, HEAP_START), translate(&mem.kernel_l4_table, HEAP_START));
}

#[test]
fn mapping_conflict_is_reported() {
    let mut heap = FixedSizeBlockAllocator::new();
    let mut mem = init(0, boot_map(), &mut heap).expect("boot memory setup failed");
    let (mut copy, _) = mem.create_new_user_pagetable().expect("clone failed");
    let flags = PAGE_PRESENT | PAGE_WRITABLE;
    allocate_pages(&mut mem.frame_allocator, &mut copy, 0x5000000, 4096, flags).unwrap();
    let again = allocate_pages(&mut mem.frame_allocator, &mut copy, 0x5000000, 4096, flags);
    assert_eq!(again, Err(kernel_core::memory::MapToError::PageAlreadyMapped));
}

#[test]
fn frame_exhaustion_is_reported() {
    let map = vec![MemoryRegion { start: 0x1000, end: 0x3000, usable: true }];
    let mut heap = FixedSizeBlockAllocator::new();
    // two frames cannot hold the root table plus the heap mapping
    let r = init(0, map, &mut heap);
    assert!(r.is_err());
}

#[test]
fn user_stack_slot_layout_and_guard() {
    let mut heap = FixedSizeBlockAllocator::new();
    let mut mem = init(0, boot_map(), &mut heap).expect("boot memory setup failed");
    let (mut copy, _) = mem.create_new_user_pagetable().expect("clone failed");
    let (bottom, top) = allocate_user_stack(&mut mem.frame_allocator, &mut copy, 0)
        .expect("stack allocation failed");
    // the slot hint zero takes the first slot
    assert_eq!(bottom, USER_STACK_BASE + 4096);
    assert_eq!(top, USER_STACK_BASE + 8 * 4096);
    // the guard page below the stack is not mapped
    assert_eq!(translate(&copy, USER_STACK_BASE), None);
    // pages one to six are read-only user pages of one shared frame,
    // page seven is writable
    let (frame1, flags1) = translate(&copy, bottom).expect("first stack page unmapped");
    assert_eq!(flags1, PAGE_PRESENT | PAGE_USER_ACCESSIBLE);
    for page in 1..6u64 {
        let (f, fl) = translate(&copy, bottom + page * 4096).expect("stack page unmapped");
        assert_eq!(f, frame1);
        let expected = if page == 6 {
            PAGE_PRESENT | PAGE_WRITABLE | PAGE_USER_ACCESSIBLE
        } else {
            PAGE_PRESENT | PAGE_USER_ACCESSIBLE
        };
        assert_eq!(fl, expected);
    }
    let (f7, fl7) = translate(&copy, top - 4096).expect("top stack page unmapped");
    assert_eq!(f7, frame1);
    assert_eq!(fl7, PAGE_PRESENT | PAGE_WRITABLE | PAGE_USER_ACCESSIBLE);
}

#[test]
fn stack_slots_fill_up_and_report_full() {
    let mut heap = FixedSizeBlockAllocator::new();
    let mut mem = init(0, boot_map(), &mut heap).expect("boot memory setup failed");
    let (mut copy, _) = mem.create_new_user_pagetable().expect("clone failed");
    for n in 0..64u64 {
        let (bottom, _) = allocate_user_stack(&mut mem.frame_allocator, &mut copy, 0).unwrap();
        assert_eq!(bottom, USER_STACK_BASE + n * 0x8000 + 4096);
    }
    let full = allocate_user_stack(&mut mem.frame_allocator, &mut copy, 17);
    assert_eq!(full, Err("All thread stack slots full"));
}

#[test]
fn stack_allocation_reports_frame_exhaustion() {
    // just enough frames for boot (29) and the clone (4), none to spare
    // for a stack slot's tables and frame
    let map = vec![MemoryRegion { start: 0x1000, end: 0x22000, usable: true }];
    let mut heap = FixedSizeBlockAllocator::new();
    let mut mem = init(0, map, &mut heap).expect("boot memory setup failed");
    let (mut copy, _) = mem.create_new_user_pagetable().expect("clone failed");
    let r = allocate_user_stack(&mut mem.frame_allocator, &mut copy, 0);
    assert_eq!(r, Err("Failed to allocate frame"));
}

#[test]
fn stack_slots_scan_circularly_and_keep_guards() {
    let mut heap = FixedSizeBlockAllocator::new();
    let mut mem = init(0, boot_map(), &mut heap).expect("boot memory setup failed");
    let (mut copy, _) = mem.create_new_user_pagetable().expect("clone failed");
    let (b1, _) = allocate_user_stack(&mut mem.frame_allocator, &mut copy, 3).unwrap();
    let (b2, _) = allocate_user_stack(&mut mem.frame_allocator, &mut copy, 3).unwrap();
    // hint three takes slot three, then the scan moves on to slot four
    assert_eq!(b1, USER_STACK_BASE + 3 * 0x8000 + 4096);
    assert_eq!(b2, USER_STACK_BASE + 4 * 0x8000 + 4096);
    // every slot's first page stays unmapped
    for n in 0..64u64 {
        assert_eq!(translate(&copy, USER_STACK_BASE + n * 0x8000), None);
    }
}
