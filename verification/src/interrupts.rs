//! Interrupt dispatch model: the saved-context frame that the timer
//! trampoline builds on the current kernel stack, and the vector layout
//! of the interrupt controller pair.
use vstd::prelude::*;

verus! {

/// Base vector the first interrupt controller is remapped to.
pub const PIC_1_OFFSET: u8 = 32;
/// Base vector of the second controller, directly after the first.
pub const PIC_2_OFFSET: u8 = 40;

/// Hardware interrupts the kernel handles, in vector order starting at
/// `PIC_1_OFFSET`.
#[derive(Debug, Clone, Copy, PartialEq, Eq, Structural)]
pub enum InterruptIndex {
    Timer,
    Keyboard,
}

impl InterruptIndex {
    /// The interrupt vector this line is delivered on.
    pub fn vector(self) -> (v: u8)
        ensures
            self is Timer ==> v == PIC_1_OFFSET,
            self is Keyboard ==> v == PIC_1_OFFSET + 1,
    {
        match self {
            InterruptIndex::Timer => PIC_1_OFFSET,
            InterruptIndex::Keyboard => PIC_1_OFFSET + 1,
        }
    }
}

/// Size in bytes of a full `Context` frame: fifteen pushed registers plus
/// the five words the CPU pushes on a ring transition, eight bytes each.
pub const INTERRUPT_CONTEXT_SIZE: u64 = 160;

/// The fifteen general-purpose registers the trampoline saves, in the
/// order they live in memory (the reverse of push order).
#[derive(Debug, Clone, Copy, PartialEq, Eq, Structural)]
pub struct RegisterFile {
    pub r15: u64,
    pub r14: u64,
    pub r13: u64,
    pub r12: u64,
    pub r11: u64,
    pub r10: u64,
    pub r9: u64,
    pub r8: u64,
    pub rbp: u64,
    pub rsi: u64,
    pub rdi: u64,
    pub rdx: u64,
    pub rcx: u64,
    pub rbx: u64,
    pub rax: u64,
}

/// A thread's complete saved state at an interrupt boundary: the registers
/// the trampoline pushes followed by the exception frame the CPU pushes
/// (instruction pointer, code segment, flags, stack pointer, stack segment).
#[derive(Debug, Clone, Copy, PartialEq, Eq, Structural)]
pub struct Context {
    pub r15: u64,
    pub r14: u64,
    pub r13: u64,
    pub r12: u64,
    pub r11: u64,
    pub r10: u64,
    pub r9: u64,
    pub r8: u64,
    pub rbp: u64,
    pub rsi: u64,
    pub rdi: u64,
    pub rdx: u64,
    pub rcx: u64,
    pub rbx: u64,
    pub rax: u64,
    pub rip: u64,
    pub cs: u64,
    pub rflags: u64,
    pub rsp: u64,
    pub ss: u64,
}

impl Context {
    /// The frame the trampoline's register pushes produce, given the
    /// registers at entry and the exception frame the CPU already pushed.
    pub fn save(regs: &RegisterFile, rip: u64, cs: u64, rflags: u64, rsp: u64, ss: u64)
        -> (c: Context)
        ensures
            c.to_registers() == *regs,
            c.rip == rip,
            c.cs == cs,
            c.rflags == rflags,
            c.rsp == rsp,
            c.ss == ss,
    {
        Context {
            r15: regs.r15,
            r14: regs.r14,
            r13: regs.r13,
            r12: regs.r12,
            r11: regs.r11,
            r10: regs.r10,
            r9: regs.r9,
            r8: regs.r8,
            rbp: regs.rbp,
            rsi: regs.rsi,
            rdi: regs.rdi,
            rdx: regs.rdx,
            rcx: regs.rcx,
            rbx: regs.rbx,
            rax: regs.rax,
            rip,
            cs,
            rflags,
            rsp,
            ss,
        }
    }

    /// The register values the trampoline's pops restore from this frame.
    pub fn restore(&self) -> (regs: RegisterFile)
        ensures
            regs == self.to_registers(),
    {
        RegisterFile {
            r15: self.r15,
            r14: self.r14,
            r13: self.r13,
            r12: self.r12,
            r11: self.r11,
            r10: self.r10,
            r9: self.r9,
            r8: self.r8,
            rbp: self.rbp,
            rsi: self.rsi,
            rdi: self.rdi,
            rdx: self.rdx,
            rcx: self.rcx,
            rbx: self.rbx,
            rax: self.rax,
        }
    }

    /// The general-purpose register portion of this frame.
    pub open spec fn to_registers(self) -> RegisterFile {
        RegisterFile {
            r15: self.r15,
            r14: self.r14,
            r13: self.r13,
            r12: self.r12,
            r11: self.r11,
            r10: self.r10,
            r9: self.r9,
            r8: self.r8,
            rbp: self.rbp,
            rsi: self.rsi,
            rdi: self.rdi,
            rdx: self.rdx,
            rcx: self.rcx,
            rbx: self.rbx,
            rax: self.rax,
        }
    }
}

/// Saving a context frame and popping it again restores every
/// general-purpose register and every word of the exception frame exactly:
/// a tick on which the scheduler keeps the current thread resumes it with
/// the state it had on entry, and a switch resumes the chosen thread at the
/// instruction pointer and stack pointer its frame contains.
pub proof fn lemma_trampoline_round_trip(
    regs: RegisterFile,
    rip: u64,
    cs: u64,
    rflags: u64,
    rsp: u64,
    ss: u64,
)
    ensures
        ({
            let c = Context {
                r15: regs.r15,
                r14: regs.r14,
                r13: regs.r13,
                r12: regs.r12,
                r11: regs.r11,
                r10: regs.r10,
                r9: regs.r9,
                r8: regs.r8,
                rbp: regs.rbp,
                rsi: regs.rsi,
                rdi: regs.rdi,
                rdx: regs.rdx,
                rcx: regs.rcx,
                rbx: regs.rbx,
                rax: regs.rax,
                rip,
                cs,
                rflags,
                rsp,
                ss,
            };
            c.to_registers() == regs && c.rip == rip && c.rsp == rsp && c.rflags == rflags
        }),
{
}

} // verus!
