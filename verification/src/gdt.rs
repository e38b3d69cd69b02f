//! Segment and task-state layout: the descriptor table holds, after the
//! mandatory null entry, kernel code, kernel data, a two-slot task-state
//! descriptor, user code and user data.  A selector is its table index
//! shifted left by three, with the requested privilege level in the low
//! two bits (ring three for the user selectors).
use vstd::prelude::*;

verus! {

/// Interrupt-stack-table slot used by the double fault handler.
pub const DOUBLE_FAULT_IST_INDEX: u16 = 0;
/// Interrupt-stack-table slot used by the page fault handler.
pub const PAGE_FAULT_IST_INDEX: u16 = 0;
/// Interrupt-stack-table slot used by the general protection fault handler.
pub const GENERAL_PROTECTION_FAULT_IST_INDEX: u16 = 0;
/// Interrupt-stack-table slot the timer interrupt pushes its context on.
pub const TIMER_INTERRUPT_INDEX: u16 = 1;

/// Number of interrupt-stack-table slots a task-state segment holds.
pub const IST_ENTRIES: usize = 7;

/// Selector of the kernel code segment: table index 1, ring 0.
pub const KERNEL_CODE_SELECTOR: u16 = 8;
/// Selector of the kernel data segment: table index 2, ring 0.
pub const KERNEL_DATA_SELECTOR: u16 = 16;
/// Selector of the user code segment: table index 5 (the task-state
/// descriptor occupies indexes 3 and 4), ring 3.
pub const USER_CODE_SELECTOR: u16 = 43;
/// Selector of the user data segment: table index 6, ring 3.
pub const USER_DATA_SELECTOR: u16 = 51;

/// The selector pair (code, data) that kernel threads run under.
pub fn get_kernel_segments() -> (r: (u16, u16))
    ensures
        r.0 == KERNEL_CODE_SELECTOR,
        r.1 == KERNEL_DATA_SELECTOR,
{
    (KERNEL_CODE_SELECTOR, KERNEL_DATA_SELECTOR)
}

/// The selector pair (code, data) that user threads run under.
pub fn get_user_segments() -> (r: (u16, u16))
    ensures
        r.0 == USER_CODE_SELECTOR,
        r.1 == USER_DATA_SELECTOR,
{
    (USER_CODE_SELECTOR, USER_DATA_SELECTOR)
}

/// The task-state segment's interrupt stack table: one stack-top address
/// per slot, consulted by the CPU when it switches stacks on an interrupt.
pub struct TaskStateSegment {
    pub interrupt_stack_table: Vec<u64>,
}

impl TaskStateSegment {
    /// A task-state segment is well formed when it has exactly the
    /// architectural number of interrupt-stack slots.
    pub open spec fn wf(self) -> bool {
        self.interrupt_stack_table@.len() == IST_ENTRIES
    }

    /// A fresh task-state segment with every stack slot cleared.
    pub fn new() -> (tss: TaskStateSegment)
        ensures
            tss.wf(),
            forall|i: int| 0 <= i < IST_ENTRIES ==> tss.interrupt_stack_table@[i] == 0u64,
    {
        let mut table: Vec<u64> = Vec::new();
        let mut i: usize = 0;
        while i < IST_ENTRIES
            invariant
                i <= IST_ENTRIES,
                table@.len() == i,
                forall|j: int| 0 <= j < i ==> table@[j] == 0u64,
            decreases IST_ENTRIES - i,
        {
            table.push(0);
            i += 1;
        }
        TaskStateSegment { interrupt_stack_table: table }
    }
}

/// Point one interrupt-stack slot at a new stack top, leaving every other
/// slot as it was.  The scheduler uses this to make the timer interrupt
/// push its context frame onto the current thread's own kernel stack.
pub fn set_interrupt_stack_table(tss: &mut TaskStateSegment, index: usize, stack_end: u64)
    requires
        old(tss).wf(),
        index < IST_ENTRIES,
    ensures
        final(tss).wf(),
        final(tss).interrupt_stack_table@[index as int] == stack_end,
        forall|i: int|
            0 <= i < IST_ENTRIES && i != index ==> final(tss).interrupt_stack_table@[i] == old(
                tss,
            ).interrupt_stack_table@[i],
{
    tss.interrupt_stack_table.set(index, stack_end);
}

} // verus!
