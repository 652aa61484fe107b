//! Constants of the kernel's memory layout and scheduling.
use vstd::prelude::*;

verus! {

/// Size of a page and of a physical frame, in bytes.
pub const PAGE_SIZE: u64 = 0x1000;

/// Number of address bits that select a byte inside a page.
pub const PAGE_SIZE_BITS: u64 = 0xc;

/// Ticks of the machine timer per second.
pub const CLOCK_FREQ: u64 = 12500000;

/// Start of the memory-mapped device window.
pub const MMIO_BASE: u64 = 0x10001000;

/// Length of the memory-mapped device window.
pub const MMIO_SIZE: u64 = 0x1000;

/// Pages in one kernel stack.
pub const KERNEL_STACK_PAGE_NUM: u64 = 15;

/// Bytes in one kernel stack.
pub const KERNEL_STACK_SIZE: u64 = 0xf000;

/// Bytes of kernel heap.
pub const KERNEL_HEAP_SIZE: u64 = 0x1000000;

/// First physical address past usable memory.
pub const MEMORY_END: u64 = 0x88000000;

/// Number of system call slots that are counted per process.
pub const MAX_SYSCALL_NUM: usize = 500;

/// The stride that a process of priority 1 would advance by.
pub const BIG_STRIDE: usize = 500000;

/// Pages in a user stack.
pub const USER_STACK_PAGE_NUM: u64 = 20;

/// Bytes in a user stack.
pub const USER_STACK_SIZE: u64 = 0x14000;

/// Virtual address of the trampoline page, the last page of every address space.
pub const TRAMPOLINE: u64 = 0xffff_ffff_ffff_f000;

/// Virtual address of the trap context page, just below the trampoline.
pub const TRAP_CONTEXT: u64 = 0xffff_ffff_ffff_e000;

/// Largest page number: every page number times the page size fits in a word.
pub const MAX_PAGE_NUM: u64 = 0xf_ffff_ffff_ffff;

/// Largest frame number that a page table entry can hold (44 bits).
pub const PPN_MASK: u64 = 0xfff_ffff_ffff;

/// Bytes from one kernel stack to the next: a stack and its guard page.
pub const KERNEL_STACK_SLOT: u64 = 0x10000;

/// Largest process id that has a kernel stack slot below the trampoline.
pub const MAX_KERNEL_STACK_ID: usize = 0xffff_ffff;

/// Number of the trampoline page.
pub const TRAMPOLINE_VPN: u64 = 0xf_ffff_ffff_ffff;

/// Number of the trap context page.
pub const TRAP_CONTEXT_VPN: u64 = 0xf_ffff_ffff_fffe;

} // verus!
