//! User binary loading: acceptance of a minimal valid image, rejection of
//! bad magic and of out-of-range segments.
use kernel_core::gdt::USER_CODE_SELECTOR;
use kernel_core::gdt::USER_DATA_SELECTOR;
use kernel_core::memory::allocator::FixedSizeBlockAllocator;
use kernel_core::memory::init;
use kernel_core::memory::translate;
use kernel_core::memory::MemoryInfo;
use kernel_core::memory::MemoryRegion;
use kernel_core::process::new_user_thread;
use kernel_core::process::Scheduler;

fn push_u16(v: &mut Vec<u8>, x: u16) {
    v.extend_from_slice(&x.to_le_bytes());
}

fn push_u32(v: &mut Vec<u8>, x: u32) {
    v.extend_from_slice(&x.to_le_bytes());
}

fn push_u64(v: &mut Vec<u8>, x: u64) {
    v.extend_from_slice(&x.to_le_bytes());
}

/// A minimal 64-bit executable image: the header, one loadable segment
/// at `vaddr` holding `code`.
fn flat_image(vaddr: u64, code: &[u8]) -> Vec<u8> {
    let mut v = Vec::new();
    // identification: magic, 64-bit, little-endian, current version
    v.extend_from_slice(&[0x7f, 0x45, 0x4c, 0x46, 2, 1, 1, 0]);
    v.extend_from_slice(&[0u8; 8]);
    push_u16(&mut v, 2); // executable
    push_u16(&mut v, 0x3e); // x86-64
    push_u32(&mut v, 1); // version
    push_u64(&mut v, vaddr); // entry point
    push_u64(&mut v, 64); // program header table offset
    push_u64(&mut v, 0); // no section headers
    push_u32(&mut v, 0); // flags
    push_u16(&mut v, 64); // header size
    push_u16(&mut v, 56); // program header entry size
    push_u16(&mut v, 1); // one program header
    push_u16(&mut v, 0);
    push_u16(&mut v, 0);
    push_u16(&mut v, 0);
    assert_eq!(v.len(), 64);
    // the one loadable segment
    push_u32(&mut v, 1); // loadable
    push_u32(&mut v, 5); // readable and executable
    push_u64(&mut v, 120); // file offset of the bytes
    push_u64(&mut v, vaddr);
    push_u64(&mut v, vaddr);
    push_u64(&mut v, code.len() as u64); // bytes in the file
    push_u64(&mut v, code.len() as u64); // bytes in memory
    push_u64(&mut v, 0x1000);
    assert_eq!(v.len(), 120);
    v.extend_from_slice(code);
    v
}

fn boot() -> (Scheduler, FixedSizeBlockAllocator, MemoryInfo) {
    let map = vec![MemoryRegion { start: 0x10_0000, end: 0x200_0000, usable: true }];
    let mut heap = FixedSizeBlockAllocator::new();
    let mem = init(0, map, &mut heap).expect("boot memory setup failed");
    heap.init(0x4444_4444_0000, 102400);
    (Scheduler::new(), heap, mem)
}

#[test]
fn valid_image_becomes_schedulable() {
    // magic plus one in-range segment with an infinite jump loads and
    // the thread joins the run queue
    let (mut sched, mut heap, mut mem) = boot();
    let image = flat_image(0x0500_0000, &[0xEB, 0xFE]);
    let r = new_user_thread(&mut sched, &mut heap, &mut mem, &image);
    assert_eq!(r, Ok(0));
    assert_eq!(sched.running_queue.len(), 1);
    let t = sched.running_queue.front().unwrap();
    assert_eq!(t.context.rip, 0x0500_0000);
    assert_eq!(t.context.rsp, t.user_stack_end);
    assert_eq!(t.context.rflags, 0x200);
    assert_eq!(t.context.cs, USER_CODE_SELECTOR as u64);
    assert_eq!(t.context.ss, USER_DATA_SELECTOR as u64);
    assert_eq!(t.context.rax, 0x280_0060_0000);
    assert_eq!(t.context.rcx, 4 * 1024 * 1024);
    // the loaded bytes live in the descriptor, and the segment's page is
    // mapped in the thread's own address space
    assert_eq!(t.loaded_segments.len(), 1);
    assert_eq!(t.loaded_segments[0].address, 0x0500_0000);
    assert_eq!(t.loaded_segments[0].data, vec![0xEB, 0xFE]);
    let table = t.page_table.as_ref().unwrap();
    assert!(translate(table, 0x0500_0000).is_some());
}

#[test]
fn bad_magic_is_rejected_without_side_effects() {
    // an image starting with four zero bytes fails validation and leaves
    // everything untouched
    let (mut sched, mut heap, mut mem) = boot();
    let frames_before = mem.frame_allocator.next;
    let mut image = flat_image(0x0500_0000, &[0xEB, 0xFE]);
    image[0] = 0;
    image[1] = 0;
    image[2] = 0;
    image[3] = 0;
    let r = new_user_thread(&mut sched, &mut heap, &mut mem, &image);
    assert_eq!(r, Err("Invalid ELF header"));
    assert_eq!(sched.running_queue.len(), 0);
    assert!(sched.current_thread.is_none());
    assert_eq!(mem.frame_allocator.next, frames_before);
}

#[test]
fn short_image_is_rejected() {
    let (mut sched, mut heap, mut mem) = boot();
    let r = new_user_thread(&mut sched, &mut heap, &mut mem, &[0x7f, 0x45]);
    assert_eq!(r, Err("Invalid ELF header"));
    assert_eq!(sched.running_queue.len(), 0);
}

#[test]
fn unparseable_image_is_rejected() {
    let (mut sched, mut heap, mut mem) = boot();
    // the magic alone is not a parseable image
    let r = new_user_thread(&mut sched, &mut heap, &mut mem, &[0x7f, 0x45, 0x4c, 0x46]);
    assert_eq!(r, Err("Could not parse ELF"));
    assert_eq!(sched.running_queue.len(), 0);
}

#[test]
fn out_of_range_segment_is_rejected_before_mapping() {
    // a valid-magic image whose sole segment starts at the end of the
    // permitted range is rejected before any page is mapped
    let (mut sched, mut heap, mut mem) = boot();
    let frames_before = mem.frame_allocator.next;
    let image = flat_image(0x8000_0000, &[0xEB, 0xFE]);
    let r = new_user_thread(&mut sched, &mut heap, &mut mem, &image);
    assert_eq!(r, Err("ELF segment outside allowed range"));
    assert_eq!(sched.running_queue.len(), 0);
    assert_eq!(mem.frame_allocator.next, frames_before, "pages were mapped before rejection");
}

#[test]
fn below_range_segment_is_rejected() {
    let (mut sched, mut heap, mut mem) = boot();
    let image = flat_image(0x1000, &[0x90]);
    let r = new_user_thread(&mut sched, &mut heap, &mut mem, &image);
    assert_eq!(r, Err("ELF segment outside allowed range"));
}
