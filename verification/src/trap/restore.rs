//! The return to user mode: what the low-level code must load to resume a process.
use vstd::prelude::*;
use crate::config::{PAGE_SIZE, PPN_MASK, TRAMPOLINE, TRAP_CONTEXT};
use crate::kernel::Kernel;
use crate::mm::address::{PhysPageNum, VirtAddr};
use crate::mm::memory_set::MemorySet;
use crate::mm::page_table::lemma_entry_round_trip;
use crate::trap::context::TrapContext;

verus! {

/// What the low-level code loads to resume a process in user mode.
#[derive(Clone, Copy, Debug, PartialEq, Eq, Structural)]
pub struct UserEntry {
    /// The process that resumes.
    pub pid: usize,
    /// The address of the process's trap context in its own address space.
    pub trap_cx_ptr: u64,
    /// The page table token of the process's address space.
    pub user_token: u64,
    /// The address to jump to: the restore routine inside the trampoline page.
    pub restore_va: u64,
    /// The address that the next trap enters at: the trampoline page.
    pub stvec: u64,
}

/// The trampoline page is mapped valid, readable and executable.
pub proof fn lemma_trampoline_entry(ppn: PhysPageNum)
    requires
        ppn.0 <= PPN_MASK,
    ensures
        MemorySet::trampoline_entry(ppn).spec_is_valid(),
        MemorySet::trampoline_entry(ppn).spec_readable(),
        MemorySet::trampoline_entry(ppn).spec_executable(),
        MemorySet::trampoline_entry(ppn).spec_ppn() == ppn,
{
    lemma_entry_round_trip(ppn.0, (2u8 | 8u8) | 1u8);
    assert((((2u8 | 8u8) | 1u8) & 1u8) == 1u8) by (bit_vector);
    assert((((2u8 | 8u8) | 1u8) & 2u8) == 2u8) by (bit_vector);
    assert((((2u8 | 8u8) | 1u8) & 8u8) == 8u8) by (bit_vector);
}

impl Kernel {
    /// What is loaded to resume the live process `pid`.
    pub open spec fn user_entry(&self, pid: usize) -> UserEntry {
        UserEntry {
            pid,
            trap_cx_ptr: TRAP_CONTEXT,
            user_token: self.task(pid).inner.addr_space.page_table.spec_token(),
            restore_va: (TRAMPOLINE + self.restore_entry % PAGE_SIZE) as u64,
            stvec: TRAMPOLINE,
        }
    }
}

/// What the low-level code must load to resume process `task_ctx` in user
/// mode, after a check that the trampoline page is mapped for execution in
/// the kernel's address space and in the process's. `None` where the process
/// is not live.
pub fn restore(kernel: &Kernel, task_ctx: usize) -> (res: Option<UserEntry>)
    requires
        kernel.wf(),
    ensures
        res is Some <==> kernel.live(task_ctx),
        res matches Some(entry) ==> entry == kernel.user_entry(task_ctx),
{
    let idx = match kernel.find(task_ctx) {
        None => {
            return None;
        },
        Some(idx) => idx,
    };
    let task = &kernel.tasks[idx];
    assert(kernel.task_ok(task));
    let ptr = task.inner.trap_ctx_ppn.0 * PAGE_SIZE;
    let user_trapctx = TrapContext::get_user_ptr(ptr);
    let user_pt_token = task.inner.addr_space.token();
    let restore_va: u64 = TRAMPOLINE + kernel.restore_entry % PAGE_SIZE;
    let vpn = VirtAddr(restore_va).floor();
    proof {
        lemma_trampoline_entry(kernel.trampoline);
        assert(kernel.kernel_space.page_table@.contains_key(vpn.0));
        assert(task.inner.addr_space.page_table@.contains_key(vpn.0));
    }
    match kernel.kernel_space.translate(vpn) {
        None => {
            return None;
        },
        Some(trampoline) => {
            if !(trampoline.is_valid() && trampoline.executable() && trampoline.readable()) {
                return None;
            }
        },
    }
    match task.inner.addr_space.translate(vpn) {
        None => {
            return None;
        },
        Some(trampoline) => {
            if !(trampoline.is_valid() && trampoline.executable() && trampoline.readable()) {
                return None;
            }
        },
    }
    Some(
        UserEntry {
            pid: task_ctx,
            trap_cx_ptr: user_trapctx,
            user_token: user_pt_token,
            restore_va,
            stvec: TRAMPOLINE,
        },
    )
}

} // verus!
