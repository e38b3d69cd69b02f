//! Threads and the preemptive round-robin scheduler: a FIFO run queue
//! plus one "currently running" slot, with every descriptor in exactly
//! one of the two places; spawning of kernel threads and of user threads
//! loaded from a flat program image.
use std::collections::VecDeque;

use vstd::prelude::*;

use crate::gdt;
use crate::interrupts::Context;
use crate::interrupts::INTERRUPT_CONTEXT_SIZE;
use crate::memory::allocator::FixedSizeBlockAllocator;
use crate::memory::MemoryInfo;
use crate::memory::PageTable;

verus! {

/// Lowest virtual address user program segments may occupy.
pub const USER_CODE_START: u64 = 0x5000000;
/// One past the highest virtual address user program segments may occupy.
pub const USER_CODE_END: u64 = 0x80000000;

/// Bytes of kernel stack given to each thread.
pub const KERNEL_STACK_SIZE: u64 = 8192;
/// Bytes reserved as a user-mode stack placeholder for kernel threads.
pub const USER_STACK_SIZE: u64 = 20480;

/// Base of the user heap hint passed to new user threads.
pub const USER_HEAP_START: u64 = 0x280_0060_0000;
/// Size of the user heap hint.
pub const USER_HEAP_SIZE: u64 = 4194304;

/// Flags word with only the interrupt-enable bit set.
pub const RFLAGS_INTERRUPTS_ENABLED: u64 = 0x200;

/// One loadable segment of a user program image: its virtual address,
/// its size in memory, and its raw bytes.
#[derive(Debug)]
pub struct Segment {
    pub address: u64,
    pub size: u64,
    pub data: Vec<u8>,
}

/// A parsed user program image: its entry point and its loadable
/// segments.
#[derive(Debug)]
pub struct ProgramImage {
    pub entry: u64,
    pub segments: Vec<Segment>,
}

/// What the outside parser extracts from a program image.  The result
/// depends on the bytes alone: the entry point and, for each loadable
/// segment, its address, size and data.
pub uninterp spec fn parsed_program(bin: Seq<u8>) -> Option<(u64, Seq<(u64, u64, Seq<u8>)>)>;

/// View of a parsed segment as plain values.
pub open spec fn segment_view(s: Segment) -> (u64, u64, Seq<u8>) {
    (s.address, s.size, s.data@)
}

/// Relies on `object::File::parse` and the `Object`/`ObjectSegment`
/// accessors `entry`, `segments`, `address`, `size` and `data`: parsing
/// is a pure function of the input bytes, and a segment whose data the
/// parser cannot produce loads as empty.
#[verifier::external_body]
fn parse_program(bin: &[u8]) -> (r: Option<ProgramImage>)
    ensures
        r matches Some(img) ==> parsed_program(bin@) matches Some(p) && p.0 == img.entry && p.1
            =~= img.segments@.map_values(|s: Segment| segment_view(s)),
        r is None <==> parsed_program(bin@) is None,
{
    let obj = match object::File::parse(bin) {
        Ok(o) => o,
        Err(_) => return None,
    };
    let mut segments = Vec::new();
    for s in object::Object::segments(&obj) {
        let data = object::ObjectSegment::data(&s).unwrap_or(&[]).to_vec();
        let (address, size) = (object::ObjectSegment::address(&s), object::ObjectSegment::size(&s));
        segments.push(Segment { address, size, data });
    }
    Some(ProgramImage { entry: object::Object::entry(&obj), segments })
}

/// Whether the image starts with the four magic bytes `7F 45 4C 46`.
pub open spec fn has_elf_magic(bin: Seq<u8>) -> bool {
    &&& bin.len() >= 4
    &&& bin[0] == 0x7fu8
    &&& bin[1] == 0x45u8
    &&& bin[2] == 0x4cu8
    &&& bin[3] == 0x46u8
}

/// Whether one parsed segment lies wholly within the permitted user code
/// range.
pub open spec fn segment_in_range(s: (u64, u64, Seq<u8>)) -> bool {
    USER_CODE_START <= s.0 && s.0 + s.1 <= USER_CODE_END
}

/// Every frame of a user address space's own tables came from the frame
/// allocator and is no table frame of the kernel template.
pub open spec fn user_table_frames_ok(mem: MemoryInfo, t: PageTable) -> bool {
    forall|f: u64|
        crate::memory::table_frames(t, 4).contains(f)
            ==> #[trigger] mem.frame_allocator.allocated().contains(f)
            && !crate::memory::table_frames(mem.kernel_l4_table, 4).contains(f)
}

/// Whether a segment's mapped pages (the pages its byte range touches)
/// include the page of `w`.
pub open spec fn seg_page_covers(seg: (u64, u64, Seq<u8>), w: u64) -> bool {
    seg.1 > 0 && crate::memory::page_of(seg.0 as int) <= crate::memory::page_of(w as int)
        <= crate::memory::page_of(seg.0 + seg.1 - 1)
}

/// Nothing obstructs loading the segments: no segment page is already
/// mapped by the kernel template, and no two segments share a page.
pub open spec fn load_unobstructed(kernel: PageTable, segs: Seq<(u64, u64, Seq<u8>)>) -> bool {
    &&& forall|k: int, w: u64|
        0 <= k < segs.len() && #[trigger] seg_page_covers(segs[k], w)
            ==> crate::memory::resolve(kernel, w as int) is None
    &&& forall|k1: int, k2: int, w: u64|
        #![trigger seg_page_covers(segs[k1], w), seg_page_covers(segs[k2], w)]
        0 <= k1 < segs.len() && 0 <= k2 < segs.len() && k1 != k2 && seg_page_covers(segs[k1], w)
            ==> !seg_page_covers(segs[k2], w)
}

/// Every byte of every one of the first `n` parsed segments translates
/// in the table to a present, writable, user-accessible mapping.
pub open spec fn segments_mapped(t: PageTable, segs: Seq<(u64, u64, Seq<u8>)>, n: int) -> bool {
    forall|k: int, a: u64|
        0 <= k < n && (#[trigger] segs[k]).1 > 0 && segs[k].0 <= a < segs[k].0 + segs[k].1 ==> ((
        #[trigger] crate::memory::resolve(t, a as int)) matches Some(q) && q.1 == (
        crate::memory::PAGE_PRESENT | crate::memory::PAGE_WRITABLE
            | crate::memory::PAGE_USER_ACCESSIBLE))
}

/// A mapping step preserves the address-space frame discipline: the new
/// tables' frames either were already the space's own or are freshly
/// allocated, and fresh frames are no frames of the kernel template.
proof fn lemma_user_frames_step(m0: MemoryInfo, m1: MemoryInfo, t0: PageTable, t1: PageTable)
    requires
        user_table_frames_ok(m0, t0),
        m0.wf(),
        m1.kernel_l4_table == m0.kernel_l4_table,
        m0.frame_allocator.allocated().subset_of(m1.frame_allocator.allocated()),
        forall|f: u64|
            crate::memory::table_frames(t1, 4).contains(f) ==> crate::memory::table_frames(
                t0,
                4,
            ).contains(f) || (#[trigger] m1.frame_allocator.allocated().contains(f)
                && !m0.frame_allocator.allocated().contains(f)),
    ensures
        user_table_frames_ok(m1, t1),
{
    assert forall|f: u64|
        crate::memory::table_frames(t1, 4).contains(f)
            implies #[trigger] m1.frame_allocator.allocated().contains(f)
        && !crate::memory::table_frames(m1.kernel_l4_table, 4).contains(f) by {
        if crate::memory::table_frames(t0, 4).contains(f) {
            assert(m0.frame_allocator.allocated().contains(f));
        } else {
            assert(!m0.frame_allocator.allocated().contains(f));
            if crate::memory::table_frames(m1.kernel_l4_table, 4).contains(f) {
                assert(m0.frame_allocator.allocated().contains(f));
            }
        }
    }
}

/// A register file with every general-purpose register zero.
pub open spec fn zero_registers() -> crate::interrupts::RegisterFile {
    crate::interrupts::RegisterFile {
        r15: 0,
        r14: 0,
        r13: 0,
        r12: 0,
        r11: 0,
        r10: 0,
        r9: 0,
        r8: 0,
        rbp: 0,
        rsi: 0,
        rdi: 0,
        rdx: 0,
        rcx: 0,
        rbx: 0,
        rax: 0,
    }
}

/// A thread descriptor.  It owns its kernel stack (a block of the kernel
/// heap), holds the saved interrupt context a suspended thread resumes
/// from, and, for a user thread, owns the root of its address space.
/// While the thread is suspended the context lives at `context_addr`,
/// inside its kernel stack.
#[derive(Debug)]
pub struct Thread {
    pub id: u64,
    pub kernel_stack_start: u64,
    pub kernel_stack_end: u64,
    pub user_stack_end: u64,
    pub context_addr: u64,
    pub context: Context,
    pub page_table: Option<Box<PageTable>>,
    pub page_table_physaddr: u64,
    pub loaded_segments: Vec<Segment>,
}

impl Thread {
    /// The context pointer of a suspended thread lies within its kernel
    /// stack, which is a nonempty block below the stack end.
    pub open spec fn wf(self) -> bool {
        &&& 1 <= self.kernel_stack_start
        &&& self.kernel_stack_end == self.kernel_stack_start + KERNEL_STACK_SIZE
        &&& self.kernel_stack_start <= self.context_addr
        &&& self.context_addr + INTERRUPT_CONTEXT_SIZE <= self.kernel_stack_end
    }
}

/// The scheduler: the FIFO run queue, the slot of the currently running
/// thread, the task-state segment whose timer stack slot tracks the
/// current thread, and the counter behind thread identifiers.
pub struct Scheduler {
    pub running_queue: VecDeque<Thread>,
    pub current_thread: Option<Thread>,
    pub tss: gdt::TaskStateSegment,
    pub unique_counter: u64,
}

impl Scheduler {
    /// Number of live threads: those queued plus the one running.  At
    /// every observable point this equals the number of descriptors, and
    /// no descriptor is in both places.
    pub open spec fn thread_count(self) -> int {
        self.running_queue@.len() + if self.current_thread is Some {
            1int
        } else {
            0int
        }
    }

    /// Well-formedness: every descriptor is well formed, identifiers
    /// were all drawn from the counter, and no two descriptors — queued
    /// or running — share an identifier, so none is in two places.
    pub open spec fn wf(self) -> bool {
        &&& forall|i: int|
            0 <= i < self.running_queue@.len() ==> (#[trigger] self.running_queue@[i]).wf()
                && self.running_queue@[i].id < self.unique_counter
        &&& forall|i: int, j: int|
            0 <= i < j < self.running_queue@.len() ==> (#[trigger] self.running_queue@[i]).id != (
            #[trigger] self.running_queue@[j]).id
        &&& self.current_thread matches Some(t) ==> t.wf() && t.id < self.unique_counter
            && forall|i: int|
            0 <= i < self.running_queue@.len() ==> (#[trigger] self.running_queue@[i]).id != t.id
        &&& self.tss.wf()
    }

    /// An empty scheduler: no threads, a cleared task-state segment.
    pub fn new() -> (s: Scheduler)
        ensures
            s.wf(),
            s.thread_count() == 0,
            s.running_queue@.len() == 0,
            s.current_thread is None,
            s.unique_counter == 0,
    {
        Scheduler {
            running_queue: VecDeque::new(),
            current_thread: None,
            tss: gdt::TaskStateSegment::new(),
            unique_counter: 0,
        }
    }
}

/// Draw a fresh thread identifier: the counter's value, after which the
/// counter advances, so no two draws return the same identifier.
pub fn unique_id(sched: &mut Scheduler) -> (r: u64)
    requires
        old(sched).unique_counter < u64::MAX,
    ensures
        r == old(sched).unique_counter,
        final(sched).unique_counter == old(sched).unique_counter + 1,
        final(sched).running_queue == old(sched).running_queue,
        final(sched).current_thread == old(sched).current_thread,
        final(sched).tss == old(sched).tss,
{
    let r = sched.unique_counter;
    sched.unique_counter = sched.unique_counter + 1;
    r
}

/// Spawn a kernel thread that will start at `function`: allocate its
/// kernel stack and a user-mode stack placeholder from the kernel heap,
/// lay a full interrupt context at the top of the kernel stack —
/// instruction pointer at the entry, stack pointer at the placeholder's
/// top, interrupts enabled, kernel code and data selectors, all
/// general-purpose registers zero — and append the thread to the back of
/// the run queue.
pub fn new_kernel_thread(
    sched: &mut Scheduler,
    heap: &mut FixedSizeBlockAllocator,
    function: u64,
) -> (r: Result<(), &'static str>)
    requires
        old(sched).wf(),
        old(heap)@.wf(),
        old(sched).unique_counter < u64::MAX,
    ensures
        final(sched).wf(),
        final(heap)@.wf(),
        ({
            let (h1, ks) = crate::memory::allocator::spec_alloc(
                old(heap)@,
                KERNEL_STACK_SIZE as int,
                16,
            );
            let (h2, us) = crate::memory::allocator::spec_alloc(h1, USER_STACK_SIZE as int, 16);
            &&& (r is Err <==> ks == 0 || us == 0)
            &&& final(heap)@ == if ks == 0 {
                h1
            } else {
                h2
            }
            &&& r matches Ok(()) ==> ({
                let t = final(sched).running_queue@.last();
                t.kernel_stack_start == ks && t.user_stack_end == us + USER_STACK_SIZE
            })
        }),
        r matches Ok(()) ==> {
            &&& final(sched).thread_count() == old(sched).thread_count() + 1
            &&& final(sched).current_thread == old(sched).current_thread
            &&& final(sched).tss == old(sched).tss
            &&& final(sched).running_queue@.len() == old(sched).running_queue@.len() + 1
            &&& forall|i: int|
                0 <= i < old(sched).running_queue@.len() ==> final(sched).running_queue@[i] == old(sched).running_queue@[i]
            &&& ({
                let t = final(sched).running_queue@.last();
                &&& t.wf()
                &&& t.id == old(sched).unique_counter
                &&& t.context.rip == function
                &&& t.context.rsp == t.user_stack_end
                &&& t.context.rflags == RFLAGS_INTERRUPTS_ENABLED
                &&& t.context.cs == gdt::KERNEL_CODE_SELECTOR
                &&& t.context.ss == gdt::KERNEL_DATA_SELECTOR
                &&& t.context.to_registers() == zero_registers()
                &&& t.context_addr == t.kernel_stack_end - INTERRUPT_CONTEXT_SIZE
                &&& t.page_table is None
            })
        },
        r is Err ==> *final(sched) == *old(sched),
{
    let kernel_stack_start = heap.allocate(KERNEL_STACK_SIZE, 16);
    if kernel_stack_start == 0 {
        return Err("Could not allocate memory");
    }
    let ghost h1 = heap@;
    proof {
        crate::memory::allocator::lemma_fb_alloc_props(
            old(heap)@.fallback,
            KERNEL_STACK_SIZE as int,
            16,
        );
    }
    let user_stack_start = heap.allocate(USER_STACK_SIZE, 16);
    if user_stack_start == 0 {
        return Err("Could not allocate memory");
    }
    proof {
        crate::memory::allocator::lemma_fb_alloc_props(h1.fallback, USER_STACK_SIZE as int, 16);
    }
    let kernel_stack_end = kernel_stack_start + KERNEL_STACK_SIZE;
    let user_stack_end = user_stack_start + USER_STACK_SIZE;
    let (code_selector, data_selector) = gdt::get_kernel_segments();
    let regs = crate::interrupts::RegisterFile {
        r15: 0,
        r14: 0,
        r13: 0,
        r12: 0,
        r11: 0,
        r10: 0,
        r9: 0,
        r8: 0,
        rbp: 0,
        rsi: 0,
        rdi: 0,
        rdx: 0,
        rcx: 0,
        rbx: 0,
        rax: 0,
    };
    let context = Context::save(
        &regs,
        function,
        code_selector as u64,
        RFLAGS_INTERRUPTS_ENABLED,
        user_stack_end,
        data_selector as u64,
    );
    let id = unique_id(sched);
    let new_thread = Thread {
        id,
        kernel_stack_start,
        kernel_stack_end,
        user_stack_end,
        context_addr: kernel_stack_end - INTERRUPT_CONTEXT_SIZE,
        context,
        page_table: None,
        page_table_physaddr: 0,
        loaded_segments: Vec::new(),
    };
    sched.running_queue.push_back(new_thread);
    Ok(())
}

/// One scheduling step at a timer tick.  If a thread is running, record
/// where its context was saved and append it to the back of the queue;
/// then make the front of the queue current, point the timer interrupt
/// stack at its kernel stack top, and return the address of its saved
/// context.  A zero return means the queue was empty and the interrupted
/// context is to be resumed unchanged.
pub fn schedule_next(sched: &mut Scheduler, context_addr: u64, context: Context) -> (r: u64)
    requires
        old(sched).wf(),
        old(sched).current_thread matches Some(t) ==> t.kernel_stack_start <= context_addr
            && context_addr + INTERRUPT_CONTEXT_SIZE <= t.kernel_stack_end,
    ensures
        final(sched).wf(),
        final(sched).thread_count() == old(sched).thread_count(),
        final(sched).unique_counter == old(sched).unique_counter,
        old(sched).current_thread is None && old(sched).running_queue@.len() == 0 ==> r == 0
            && final(sched).running_queue@ == old(sched).running_queue@ && final(
        sched).current_thread is None && final(sched).tss == old(sched).tss,
        old(sched).current_thread matches Some(t) ==> ({
            let stored = Thread { context_addr, context, ..t };
            let q1 = old(sched).running_queue@.push(stored);
            &&& final(sched).current_thread == Some(q1[0])
            &&& final(sched).running_queue@ =~= q1.drop_first()
            &&& r == q1[0].context_addr
            &&& r != 0
            &&& final(sched).tss.interrupt_stack_table@[gdt::TIMER_INTERRUPT_INDEX as int]
                == q1[0].kernel_stack_end
        }),
        old(sched).current_thread is None && old(sched).running_queue@.len() > 0 ==> ({
            let q1 = old(sched).running_queue@;
            &&& final(sched).current_thread == Some(q1[0])
            &&& final(sched).running_queue@ =~= q1.drop_first()
            &&& r == q1[0].context_addr
            &&& r != 0
            &&& final(sched).tss.interrupt_stack_table@[gdt::TIMER_INTERRUPT_INDEX as int]
                == q1[0].kernel_stack_end
        }),
{
    let taken = sched.current_thread.take();
    match taken {
        Some(mut thread) => {
            // remember where the trampoline saved this thread's context
            thread.context_addr = context_addr;
            thread.context = context;
            sched.running_queue.push_back(thread);
        },
        None => {},
    }
    let next = sched.running_queue.pop_front();
    match next {
        Some(thread) => {
            let stack_end = thread.kernel_stack_end;
            let addr = thread.context_addr;
            sched.current_thread = Some(thread);
            gdt::set_interrupt_stack_table(
                &mut sched.tss,
                gdt::TIMER_INTERRUPT_INDEX as usize,
                stack_end,
            );
            addr
        },
        None => 0,
    }
}

/// Load a user program image and make it a schedulable thread.  The
/// image must begin with the magic bytes `7F 45 4C 46`, must parse, and
/// every segment must lie within the permitted user code range; each
/// check fails with its own error before any memory is touched.  Then a
/// fresh address space is cloned from the kernel template, the segments'
/// pages are mapped and their bytes installed, a user stack slot is
/// reserved, and a kernel stack with a ready-to-resume context — entry
/// point, user stack top, interrupts enabled, user selectors, the user
/// heap hint in the first two argument registers — is laid out before
/// the thread joins the back of the run queue.  On failure nothing joins
/// the queue and the cloned tables are dropped with the call; frames
/// taken before the failure stay consumed, since the frame allocator
/// never reclaims.
#[verifier::rlimit(100)]
pub fn new_user_thread(
    sched: &mut Scheduler,
    heap: &mut FixedSizeBlockAllocator,
    mem: &mut MemoryInfo,
    bin: &[u8],
) -> (r: Result<usize, &'static str>)
    requires
        old(sched).wf(),
        old(heap)@.wf(),
        old(mem).wf(),
        old(sched).unique_counter < u64::MAX,
    ensures
        final(sched).wf(),
        final(heap)@.wf(),
        final(mem).wf(),
        final(mem).kernel_l4_table == old(mem).kernel_l4_table,
        !has_elf_magic(bin@) ==> r == Err::<usize, &'static str>("Invalid ELF header") && *final(sched) == *old(sched) && *final(heap) == *old(heap) && *final(mem) == *old(mem),
        has_elf_magic(bin@) && parsed_program(bin@) is None ==> r == Err::<usize, &'static str>(
            "Could not parse ELF",
        ) && *final(sched) == *old(sched) && *final(heap) == *old(heap) && *final(mem) == *old(mem),
        has_elf_magic(bin@) && (parsed_program(bin@) matches Some(p) && !(forall|i: int|
            0 <= i < p.1.len() ==> segment_in_range(#[trigger] p.1[i]))) ==> r == Err::<
            usize,
            &'static str,
        >("ELF segment outside allowed range") && *final(sched) == *old(sched) && *final(heap)
            == *old(heap) && *final(mem) == *old(mem),
        r matches Ok(v) ==> {
            &&& v == 0
            &&& has_elf_magic(bin@)
            &&& parsed_program(bin@) matches Some(p) && (forall|i: int|
                0 <= i < p.1.len() ==> segment_in_range(#[trigger] p.1[i]))
            &&& final(sched).thread_count() == old(sched).thread_count() + 1
            &&& final(sched).current_thread == old(sched).current_thread
            &&& final(sched).running_queue@.len() == old(sched).running_queue@.len() + 1
            &&& forall|i: int|
                0 <= i < old(sched).running_queue@.len() ==> final(sched).running_queue@[i] == old(sched).running_queue@[i]
            &&& ({
                let t = final(sched).running_queue@.last();
                let p = parsed_program(bin@).unwrap();
                &&& t.wf()
                &&& t.context.rip == p.0
                &&& t.context.rsp == t.user_stack_end
                &&& t.context.rflags == RFLAGS_INTERRUPTS_ENABLED
                &&& t.context.cs == gdt::USER_CODE_SELECTOR
                &&& t.context.ss == gdt::USER_DATA_SELECTOR
                &&& t.context.rax == USER_HEAP_START
                &&& t.context.rcx == USER_HEAP_SIZE
                &&& t.page_table is Some
                &&& t.loaded_segments@.map_values(|s: Segment| segment_view(s)) =~= p.1
                &&& segments_mapped(*t.page_table.unwrap(), p.1, p.1.len() as int)
                &&& crate::memory::stack_slot_mapped_some(
                    *t.page_table.unwrap(),
                    (t.user_stack_end - 7 * crate::memory::PAGE_SIZE) as u64,
                    t.user_stack_end,
                )
            })
        },
        r matches Err(e) ==> *final(sched) == *old(sched),
        r is Err ==> final(heap)@ == old(heap)@ || (final(heap)@, 0int)
            == crate::memory::allocator::spec_alloc(old(heap)@, KERNEL_STACK_SIZE as int, 16),
        r == Err::<usize, &'static str>("Could not allocate memory")
            ==> final(mem).frame_allocator.exhausted() || (final(heap)@, 0int)
            == crate::memory::allocator::spec_alloc(old(heap)@, KERNEL_STACK_SIZE as int, 16) || (
        parsed_program(bin@) matches Some(p) && !load_unobstructed(
            old(mem).kernel_l4_table,
            p.1,
        )),
        r == Err::<usize, &'static str>("Failed to allocate frame")
            ==> final(mem).frame_allocator.exhausted(),
{
    // magic validation, before anything else
    if !(bin.len() >= 4 && bin[0] == 0x7f && bin[1] == 0x45 && bin[2] == 0x4c && bin[3]
        == 0x46) {
        return Err("Invalid ELF header");
    }
    // parse the image
    let image = match parse_program(bin) {
        Some(img) => img,
        None => {
            return Err("Could not parse ELF");
        },
    };
    let ghost p = parsed_program(bin@).unwrap();
    // every segment must lie within the permitted range, checked before
    // any page is mapped
    let mut si: usize = 0;
    #[verifier::loop_isolation(false)]
    while si < image.segments.len()
        invariant
            parsed_program(bin@) == Some(p),
            p.1 =~= image.segments@.map_values(|s: Segment| segment_view(s)),
            si <= image.segments@.len(),
            forall|i: int| 0 <= i < si ==> segment_in_range(#[trigger] p.1[i]),
        decreases image.segments@.len() - si,
    {
        let seg = &image.segments[si];
        if !(seg.address >= USER_CODE_START && seg.size <= USER_CODE_END && seg.address
            <= USER_CODE_END - seg.size) {
            proof {
                assert(p.1[si as int] == segment_view(image.segments@[si as int]));
                assert(!segment_in_range(p.1[si as int]));
            }
            return Err("ELF segment outside allowed range");
        }
        proof {
            assert(p.1[si as int] == segment_view(image.segments@[si as int]));
        }
        si += 1;
    }
    proof {
        assert(forall|i: int| 0 <= i < p.1.len() ==> segment_in_range(#[trigger] p.1[i]));
    }
    // a fresh address space sharing all kernel mappings
    let (mut user_table, user_table_physaddr) = match mem.create_new_user_pagetable() {
        Ok(t) => t,
        Err(_) => {
            return Err("Could not allocate memory");
        },
    };
    proof {
        assert forall|w: u64|
            w < crate::memory::VA_LIMIT && (#[trigger] crate::memory::resolve(
                user_table,
                w as int,
            )) is Some implies crate::memory::resolve(
            old(mem).kernel_l4_table,
            w as int,
        ) is Some || (exists|k: int| 0 <= k < 0 && #[trigger] seg_page_covers(p.1[k], w)) by {
            assert(crate::memory::resolve(user_table, w as int) == crate::memory::resolve(
                old(mem).kernel_l4_table,
                w as int,
            ));
        }
    }
    // map each segment's pages; the bytes live in the descriptor
    let mut si: usize = 0;
    #[verifier::loop_isolation(false)]
    while si < image.segments.len()
        invariant
            mem.wf(),
            mem.kernel_l4_table == old(mem).kernel_l4_table,
            crate::memory::table_wf(user_table, 4),
            si <= image.segments@.len(),
            p.1 =~= image.segments@.map_values(|s: Segment| segment_view(s)),
            forall|i: int| 0 <= i < p.1.len() ==> segment_in_range(#[trigger] p.1[i]),
            user_table_frames_ok(*mem, user_table),
            segments_mapped(user_table, p.1, si as int),
            forall|w: u64|
                w < crate::memory::VA_LIMIT && (#[trigger] crate::memory::resolve(
                    user_table,
                    w as int,
                )) is Some ==> crate::memory::resolve(old(mem).kernel_l4_table, w as int) is Some
                    || (exists|k: int| 0 <= k < si && #[trigger] seg_page_covers(p.1[k], w)),
        decreases image.segments@.len() - si,
    {
        let seg = &image.segments[si];
        proof {
            assert(p.1[si as int] == segment_view(image.segments@[si as int]));
            assert(segment_in_range(p.1[si as int]));
        }
        if seg.size > 0 {
            let flags = crate::memory::PAGE_PRESENT | crate::memory::PAGE_WRITABLE
                | crate::memory::PAGE_USER_ACCESSIBLE;
            let ghost fa0 = mem.frame_allocator;
            let ghost ut0 = user_table;
            match crate::memory::allocate_pages(
                &mut mem.frame_allocator,
                &mut user_table,
                seg.address,
                seg.size,
                flags,
            ) {
                Ok(()) => {},
                Err(e) => {
                    proof {
                        if e is PageAlreadyMapped || e is ParentEntryHugePage {
                            // a conflicting page means the template already
                            // maps user-range memory or two segments share
                            // a page
                            let sa = p.1[si as int].0;
                            let sz = p.1[si as int].1;
                            let a = choose|a: u64|
                                sa <= a < sa + sz && #[trigger] crate::memory::resolve(
                                    ut0,
                                    a as int,
                                ) is Some;
                            vstd::arithmetic::div_mod::lemma_div_is_ordered(
                                sa as int,
                                a as int,
                                4096,
                            );
                            vstd::arithmetic::div_mod::lemma_div_is_ordered(
                                a as int,
                                sa + sz - 1,
                                4096,
                            );
                            assert(seg_page_covers(p.1[si as int], a));
                            if !load_unobstructed(old(mem).kernel_l4_table, p.1) {
                            } else {
                                if crate::memory::resolve(
                                    old(mem).kernel_l4_table,
                                    a as int,
                                ) is Some {
                                    assert(crate::memory::resolve(
                                        old(mem).kernel_l4_table,
                                        a as int,
                                    ) is None);
                                } else {
                                    let k = choose|k: int|
                                        0 <= k < si && #[trigger] seg_page_covers(p.1[k], a);
                                    assert(!seg_page_covers(p.1[si as int], a));
                                }
                                assert(false);
                            }
                        }
                    }
                    return Err("Could not allocate memory");
                },
            }
            proof {
                assert forall|f: u64|
                    crate::memory::table_frames(mem.kernel_l4_table, 4).contains(f)
                        implies #[trigger] mem.frame_allocator.allocated().contains(f) by {
                    assert(fa0.allocated().contains(f));
                }
                lemma_user_frames_step(
                    MemoryInfo { frame_allocator: fa0, ..*mem },
                    *mem,
                    ut0,
                    user_table,
                );
                assert forall|w: u64|
                    w < crate::memory::VA_LIMIT && (#[trigger] crate::memory::resolve(
                        user_table,
                        w as int,
                    )) is Some implies crate::memory::resolve(
                    old(mem).kernel_l4_table,
                    w as int,
                ) is Some || (exists|k: int|
                    0 <= k < si + 1 && #[trigger] seg_page_covers(p.1[k], w)) by {
                    let sa = p.1[si as int].0;
                    let sz = p.1[si as int].1;
                    if crate::memory::page_of(sa as int) <= crate::memory::page_of(w as int)
                        <= crate::memory::page_of(sa + sz - 1) {
                        assert(seg_page_covers(p.1[si as int], w));
                    } else {
                        assert(crate::memory::resolve(user_table, w as int)
                            == crate::memory::resolve(ut0, w as int));
                    }
                }
                let flags_w = crate::memory::PAGE_PRESENT | crate::memory::PAGE_WRITABLE
                    | crate::memory::PAGE_USER_ACCESSIBLE;
                let sa = p.1[si as int].0;
                let sz = p.1[si as int].1;
                assert forall|k: int, a: u64|
                    0 <= k < si + 1 && (#[trigger] p.1[k]).1 > 0 && p.1[k].0 <= a < p.1[k].0
                        + p.1[k].1 implies ((#[trigger] crate::memory::resolve(
                    user_table,
                    a as int,
                )) matches Some(q) && q.1 == flags_w) by {
                    if k < si {
                        // an earlier segment's byte: its page cannot lie in
                        // the new segment's page range, else mapping the new
                        // range would have found it present and failed
                        assert(segments_mapped(ut0, p.1, si as int));
                        assert((crate::memory::resolve(ut0, a as int) matches Some(q) && q.1
                            == (crate::memory::PAGE_PRESENT | crate::memory::PAGE_WRITABLE
                            | crate::memory::PAGE_USER_ACCESSIBLE)));
                        if crate::memory::page_of(sa as int) <= crate::memory::page_of(a as int)
                            <= crate::memory::page_of(sa + sz - 1) {
                            let b: u64 = if a < sa {
                                sa
                            } else if a >= sa + sz {
                                (sa + sz - 1) as u64
                            } else {
                                a
                            };
                            assert(crate::memory::page_of(b as int) == crate::memory::page_of(
                                a as int,
                            )) by {
                                if a < sa {
                                    vstd::arithmetic::div_mod::lemma_div_is_ordered(
                                        a as int,
                                        sa as int,
                                        4096,
                                    );
                                    vstd::arithmetic::div_mod::lemma_div_is_ordered(
                                        sa as int,
                                        sa + sz - 1,
                                        4096,
                                    );
                                } else if a >= sa + sz {
                                    vstd::arithmetic::div_mod::lemma_div_is_ordered(
                                        sa + sz - 1,
                                        a as int,
                                        4096,
                                    );
                                }
                            }
                            assert(sa <= b < sa + sz);
                            assert(crate::memory::resolve(ut0, b as int) is None);
                            crate::memory::lemma_same_path_same_page(a, b);
                            crate::memory::lemma_resolve_same_path(ut0, 4, a, b);
                            assert(false);
                        }
                        assert(crate::memory::resolve(user_table, a as int)
                            == crate::memory::resolve(ut0, a as int));
                    }
                }
            }
        }
        si += 1;
    }
    // reserve a user stack slot in the new address space
    let slot_hint = sched.unique_counter;
    let ghost ut_pre_stack = user_table;
    let (_user_stack_start, user_stack_end) = match crate::memory::allocate_user_stack(
        &mut mem.frame_allocator,
        &mut user_table,
        slot_hint,
    ) {
        Ok(pair) => pair,
        Err(e) => {
            proof {
                assert forall|f: u64|
                    crate::memory::table_frames(mem.kernel_l4_table, 4).contains(f)
                        implies #[trigger] mem.frame_allocator.allocated().contains(f) by {}
            }
            return Err(e);
        },
    };
    proof {
        let n0 = choose|n: u64|
            n < crate::memory::USER_STACK_SLOTS && _user_stack_start
                == crate::memory::USER_STACK_BASE + #[trigger] (n
                * crate::memory::USER_STACK_SLOT_SIZE) + crate::memory::PAGE_SIZE
                && user_stack_end == crate::memory::USER_STACK_BASE + n
                * crate::memory::USER_STACK_SLOT_SIZE + 8 * crate::memory::PAGE_SIZE;
        assert(_user_stack_start == user_stack_end - 7 * crate::memory::PAGE_SIZE);
        assert(crate::memory::stack_slot_mapped_some(
            user_table,
            (user_stack_end - 7 * crate::memory::PAGE_SIZE) as u64,
            user_stack_end,
        ));
        assert forall|f: u64|
            crate::memory::table_frames(mem.kernel_l4_table, 4).contains(f)
                implies #[trigger] mem.frame_allocator.allocated().contains(f) by {}
        // the stack slot lies far above the user code range, so the
        // segment mappings survive the stack allocation
        assert forall|k: int, a: u64|
            0 <= k < p.1.len() && (#[trigger] p.1[k]).1 > 0 && p.1[k].0 <= a < p.1[k].0
                + p.1[k].1 implies ((#[trigger] crate::memory::resolve(user_table, a as int))
            matches Some(q) && q.1 == (crate::memory::PAGE_PRESENT
            | crate::memory::PAGE_WRITABLE | crate::memory::PAGE_USER_ACCESSIBLE)) by {
            assert(segment_in_range(p.1[k]));
            assert(a < USER_CODE_END);
            assert(crate::memory::resolve(user_table, a as int) == crate::memory::resolve(
                ut_pre_stack,
                a as int,
            ));
            assert((crate::memory::resolve(ut_pre_stack, a as int) matches Some(q) && q.1 == (
            crate::memory::PAGE_PRESENT | crate::memory::PAGE_WRITABLE
                | crate::memory::PAGE_USER_ACCESSIBLE)));
        }
        assert(segments_mapped(user_table, p.1, p.1.len() as int));
    }
    // the thread's kernel stack, with its bootstrap context at the top
    let kernel_stack_start = heap.allocate(KERNEL_STACK_SIZE, 16);
    if kernel_stack_start == 0 {
        return Err("Could not allocate memory");
    }
    proof {
        crate::memory::allocator::lemma_fb_alloc_props(
            old(heap)@.fallback,
            KERNEL_STACK_SIZE as int,
            16,
        );
    }
    let kernel_stack_end = kernel_stack_start + KERNEL_STACK_SIZE;
    let (code_selector, data_selector) = gdt::get_user_segments();
    let regs = crate::interrupts::RegisterFile {
        r15: 0,
        r14: 0,
        r13: 0,
        r12: 0,
        r11: 0,
        r10: 0,
        r9: 0,
        r8: 0,
        rbp: 0,
        rsi: 0,
        rdi: 0,
        rdx: 0,
        rcx: USER_HEAP_SIZE,
        rbx: 0,
        rax: USER_HEAP_START,
    };
    let context = Context::save(
        &regs,
        image.entry,
        code_selector as u64,
        RFLAGS_INTERRUPTS_ENABLED,
        user_stack_end,
        data_selector as u64,
    );
    let id = unique_id(sched);
    let new_thread = Thread {
        id,
        kernel_stack_start,
        kernel_stack_end,
        user_stack_end,
        context_addr: kernel_stack_end - INTERRUPT_CONTEXT_SIZE,
        context,
        page_table: Some(Box::new(user_table)),
        page_table_physaddr: user_table_physaddr,
        loaded_segments: image.segments,
    };
    sched.running_queue.push_back(new_thread);
    Ok(0)
}

} // verus!
