//! The registers of a process as saved on every entry into the kernel.
use vstd::prelude::*;
use crate::config::{PAGE_SIZE, TRAP_CONTEXT};

verus! {

/// The status bits that a process may carry into user mode: the writable
/// bits of the supervisor status register without the previous-privilege bit.
pub const USER_SSTATUS_MASK: u64 = 0x8000_0003_000d_e662;

/// The status word `bits` with the previous privilege set to user mode.
pub open spec fn user_sstatus(bits: u64) -> u64 {
    bits & USER_SSTATUS_MASK
}

/// Calls `riscv::register::sstatus::Sstatus`: `from_bits`, `set_spp(SPP::User)`
/// and `bits`, for the register of 64 bits. The first keeps the register's
/// writable bits, the second clears bit 8, the previous privilege, and the
/// third hands the word back.
#[verifier::external_body]
fn sstatus_with_user_spp(bits: u64) -> (out: u64)
    ensures
        out == user_sstatus(bits),
{
    let mut status = riscv::register::sstatus::Sstatus::from_bits(bits as usize);
    status.set_spp(riscv::register::sstatus::SPP::User);
    status.bits() as u64
}

/// The saved state of a process at the boundary between user and kernel mode:
/// the 32 general registers, the status word, the address to resume at, and
/// what the trap entry needs to get into the kernel.
#[derive(Clone, Copy)]
pub struct TrapContext {
    pub x: [u64; 32],
    pub sstatus: u64,
    pub sepc: u64,
    pub kernel_satp: u64,
    pub kernel_sp: u64,
    pub trap_handler: u64,
}

impl TrapContext {
    /// A context with every word zero.
    pub fn zeroed() -> (cx: TrapContext)
        ensures
            forall|i: int| 0 <= i < 32 ==> cx.x@[i] == 0,
            cx.sstatus == 0,
            cx.sepc == 0,
            cx.kernel_satp == 0,
            cx.kernel_sp == 0,
            cx.trap_handler == 0,
    {
        TrapContext { x: [0u64; 32], sstatus: 0, sepc: 0, kernel_satp: 0, kernel_sp: 0, trap_handler: 0 }
    }

    /// Prepares the first entry into user mode: resume at `entry_point` with the
    /// stack pointer at `user_stack`, in user mode with the other bits of
    /// `sstatus`; and for the next trap the kernel's page table token, the top
    /// of the kernel stack and the address of the trap dispatch.
    pub fn init(
        &mut self,
        user_stack: u64,
        entry_point: u64,
        kernel_stack: u64,
        kernel_satp: u64,
        trap_handler: u64,
        sstatus: u64,
    )
        ensures
            final(self).sepc == entry_point,
            final(self).sstatus == user_sstatus(sstatus),
            final(self).kernel_satp == kernel_satp,
            final(self).kernel_sp == kernel_stack,
            final(self).trap_handler == trap_handler,
            final(self).x@ == old(self).x@.update(2, user_stack),
    {
        self.sepc = entry_point;
        self.sstatus = sstatus_with_user_spp(sstatus);
        self.kernel_satp = kernel_satp;
        self.kernel_sp = kernel_stack;
        self.trap_handler = trap_handler;
        self.x[2] = user_stack;
        assert(self.x@ =~= old(self).x@.update(2, user_stack));
    }

    /// Argument register `n`: general register `10 + n`.
    pub open spec fn spec_reg_a(&self, n: usize) -> u64 {
        self.x@[10 + n]
    }

    #[verifier::when_used_as_spec(spec_reg_a)]
    pub fn reg_a(&self, n: usize) -> (v: u64)
        requires
            n < 22,
        ensures
            v == self.spec_reg_a(n),
    {
        self.x[10 + n]
    }

    /// Sets argument register `n` to `v` and leaves everything else.
    pub fn set_reg_a(&mut self, n: usize, v: u64)
        requires
            n < 22,
        ensures
            *final(self) == (TrapContext { x: final(self).x, ..*old(self) }),
            final(self).x@ == old(self).x@.update(10 + n, v),
    {
        self.x[10 + n] = v;
        assert(self.x@ =~= old(self).x@.update(10 + n, v));
    }

    /// The address of a trap context in user address spaces, given its
    /// physical address: the same offset in the trap context page.
    pub fn get_user_ptr(ptr: u64) -> (va: u64)
        ensures
            va == TRAP_CONTEXT + ptr % PAGE_SIZE,
    {
        TRAP_CONTEXT + ptr % PAGE_SIZE
    }
}

} // verus!
