//! Scheduler behaviour: run-queue bookkeeping, round-robin rotation, the
//! trampoline contract, and thread interleaving over ticks.
use kernel_core::file::pipe::Pipe;
use kernel_core::gdt::KERNEL_CODE_SELECTOR;
use kernel_core::gdt::KERNEL_DATA_SELECTOR;
use kernel_core::gdt::TIMER_INTERRUPT_INDEX;
use kernel_core::interrupts::Context;
use kernel_core::interrupts::RegisterFile;
use kernel_core::memory::allocator::FixedSizeBlockAllocator;
use kernel_core::process::new_kernel_thread;
use kernel_core::process::schedule_next;
use kernel_core::process::unique_id;
use kernel_core::process::Scheduler;

fn fresh_heap() -> FixedSizeBlockAllocator {
    let mut heap = FixedSizeBlockAllocator::new();
    heap.init(0x4444_4444_0000, 102400);
    heap
}

fn zero_regs() -> RegisterFile {
    RegisterFile {
        r15: 0,
        r14: 0,
        r13: 0,
        r12: 0,
        r11: 0,
        r10: 0,
        r9: 0,
        r8: 0,
        rbp: 0,
        rsi: 0,
        rdi: 0,
        rdx: 0,
        rcx: 0,
        rbx: 0,
        rax: 0,
    }
}

fn dummy_context() -> Context {
    Context::save(&zero_regs(), 0, 0, 0, 0, 0)
}

#[test]
fn empty_queue_keeps_current_context() {
    // with nothing to run the scheduler returns zero: resume unchanged
    let mut sched = Scheduler::new();
    assert_eq!(schedule_next(&mut sched, 0, dummy_context()), 0);
}

#[test]
fn spawn_fills_in_the_bootstrap_context() {
    let mut sched = Scheduler::new();
    let mut heap = fresh_heap();
    new_kernel_thread(&mut sched, &mut heap, 0xAB_CDEF).unwrap();
    assert_eq!(sched.running_queue.len(), 1);
    let t = sched.running_queue.front().unwrap();
    assert_eq!(t.context.rip, 0xAB_CDEF);
    assert_eq!(t.context.rsp, t.user_stack_end);
    assert_eq!(t.context.rflags, 0x200);
    assert_eq!(t.context.cs, KERNEL_CODE_SELECTOR as u64);
    assert_eq!(t.context.ss, KERNEL_DATA_SELECTOR as u64);
    assert_eq!(t.context.rax, 0);
    assert_eq!(t.context_addr, t.kernel_stack_end - 160);
}

#[test]
fn queue_plus_current_counts_live_threads() {
    // at all observable points the queue and the current slot together
    // hold exactly the live threads, and no descriptor twice
    let mut sched = Scheduler::new();
    let mut heap = fresh_heap();
    new_kernel_thread(&mut sched, &mut heap, 0x1000).unwrap();
    new_kernel_thread(&mut sched, &mut heap, 0x2000).unwrap();
    new_kernel_thread(&mut sched, &mut heap, 0x3000).unwrap();
    let live = 3;
    for _tick in 0..10 {
        let queued = sched.running_queue.len();
        let current = if sched.current_thread.is_some() { 1 } else { 0 };
        assert_eq!(queued + current, live);
        let mut ids: Vec<u64> = sched.running_queue.iter().map(|t| t.id).collect();
        if let Some(t) = &sched.current_thread {
            ids.push(t.id);
        }
        let mut unique = ids.clone();
        unique.sort();
        unique.dedup();
        assert_eq!(unique.len(), ids.len(), "a descriptor appears twice");
        schedule_next(&mut sched, 0x9000_0000, dummy_context());
    }
}

#[test]
fn round_robin_rotates_in_fifo_order() {
    let mut sched = Scheduler::new();
    let mut heap = fresh_heap();
    new_kernel_thread(&mut sched, &mut heap, 0x1000).unwrap();
    new_kernel_thread(&mut sched, &mut heap, 0x2000).unwrap();
    let mut order = Vec::new();
    for _tick in 0..6 {
        let r = schedule_next(&mut sched, 0x9000_0000, dummy_context());
        assert!(r != 0);
        order.push(sched.current_thread.as_ref().unwrap().id);
    }
    assert_eq!(order, vec![0, 1, 0, 1, 0, 1]);
}

#[test]
fn schedule_points_timer_stack_at_current_thread() {
    let mut sched = Scheduler::new();
    let mut heap = fresh_heap();
    new_kernel_thread(&mut sched, &mut heap, 0x1000).unwrap();
    let r = schedule_next(&mut sched, 0, dummy_context());
    let t = sched.current_thread.as_ref().unwrap();
    assert_eq!(r, t.context_addr);
    assert_eq!(
        sched.tss.interrupt_stack_table[TIMER_INTERRUPT_INDEX as usize],
        t.kernel_stack_end
    );
}

#[test]
fn single_kernel_thread_keeps_running() {
    // one thread spawned: its quantum count only grows with the ticks
    let mut sched = Scheduler::new();
    let mut heap = fresh_heap();
    new_kernel_thread(&mut sched, &mut heap, 0x4000).unwrap();
    let mut counter = 0u64;
    for _tick in 0..50 {
        let r = schedule_next(&mut sched, 0x9000_0000, dummy_context());
        assert!(r != 0, "the only thread must always be chosen");
        counter += 1;
    }
    assert!(counter >= 1);
    assert_eq!(counter, 50);
}

#[test]
fn two_kernel_threads_interleave() {
    // two threads, each appending its own character when it runs: after
    // enough ticks both characters appear in the shared buffer
    let mut sched = Scheduler::new();
    let mut heap = fresh_heap();
    new_kernel_thread(&mut sched, &mut heap, 0xA000).unwrap();
    new_kernel_thread(&mut sched, &mut heap, 0xB000).unwrap();
    let mut shared = Pipe::new(64);
    for _tick in 0..8 {
        schedule_next(&mut sched, 0x9000_0000, dummy_context());
        let mark = match sched.current_thread.as_ref().unwrap().context.rip {
            0xA000 => b'a',
            _ => b'b',
        };
        shared.write(&[mark]);
    }
    let mut out = vec![0u8; 8];
    let (n, blocked) = shared.read(&mut out);
    assert!(!blocked);
    assert_eq!(n, 8);
    assert!(out.contains(&b'a'));
    assert!(out.contains(&b'b'));
}

#[test]
fn saved_context_is_recorded_on_switch() {
    let mut sched = Scheduler::new();
    let mut heap = fresh_heap();
    new_kernel_thread(&mut sched, &mut heap, 0x1000).unwrap();
    new_kernel_thread(&mut sched, &mut heap, 0x2000).unwrap();
    schedule_next(&mut sched, 0, dummy_context());
    let first_stack_end = sched.current_thread.as_ref().unwrap().kernel_stack_end;
    // the trampoline reports where it saved the running thread's frame
    let saved_at = first_stack_end - 160;
    let mut ctx = dummy_context();
    ctx.rax = 0x1234;
    schedule_next(&mut sched, saved_at, ctx);
    // the thread went to the back of the queue carrying that address
    let stored = sched.running_queue.back().unwrap();
    assert_eq!(stored.context_addr, saved_at);
    assert_eq!(stored.context.rax, 0x1234);
}

#[test]
fn trampoline_save_restore_round_trip() {
    // a context saved and restored returns every register unchanged, and
    // a restore resumes at the frame's instruction and stack pointers
    let regs = RegisterFile {
        r15: 1,
        r14: 2,
        r13: 3,
        r12: 4,
        r11: 5,
        r10: 6,
        r9: 7,
        r8: 8,
        rbp: 9,
        rsi: 10,
        rdi: 11,
        rdx: 12,
        rcx: 13,
        rbx: 14,
        rax: 15,
    };
    let c = Context::save(&regs, 0xDEAD, 8, 0x200, 0xBEEF, 16);
    assert_eq!(c.restore(), regs);
    assert_eq!(c.rip, 0xDEAD);
    assert_eq!(c.rsp, 0xBEEF);
    assert_eq!(c.rflags, 0x200);
}

#[test]
fn unique_ids_never_repeat() {
    let mut sched = Scheduler::new();
    let a = unique_id(&mut sched);
    let b = unique_id(&mut sched);
    let c = unique_id(&mut sched);
    assert_eq!((a, b, c), (0, 1, 2));
}
