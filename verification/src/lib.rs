//! Core of a small preemptive x86-64 kernel, stated and proved over plain
//! values: segment and task-state layout, the timer trampoline's saved
//! context, a bootloader-map frame allocator, a fixed-size-block kernel
//! heap over a first-fit fallback, page-table cloning for per-thread
//! address spaces, user-stack slots with guard pages, a round-robin
//! scheduler, and a loader for flat user program images.

pub mod crypt;
pub mod error;
pub mod file;
pub mod gdt;
pub mod interrupts;
pub mod memory;
pub mod process;
pub mod time;
pub mod vga;
