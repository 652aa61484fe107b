//! The kernel stack of each process: a slot of the kernel's address space
//! that follows from the process id.
use vstd::prelude::*;
use crate::config::{
    KERNEL_STACK_SIZE, KERNEL_STACK_SLOT, MAX_KERNEL_STACK_ID, PAGE_SIZE, TRAMPOLINE,
};
use crate::mm::address::VirtAddr;
use crate::mm::frame_allocator::StackFrameAllocator;
use crate::mm::memory_set::{MapPermission, MapType, MemorySet};
use crate::task::pid::PidHandle;

verus! {

/// The kernel stack of process `pid`, mapped in the kernel's address space.
pub struct KernelStack {
    pub pid: usize,
}

/// The highest address of the slot of process `app_id`, exclusive.
pub open spec fn kernel_stack_top(app_id: usize) -> int {
    TRAMPOLINE - app_id * KERNEL_STACK_SLOT
}

/// The lowest address of the slot of process `app_id`.
pub open spec fn kernel_stack_bottom(app_id: usize) -> int {
    kernel_stack_top(app_id) - KERNEL_STACK_SIZE
}

/// The slot of process `app_id`: its lowest address and the address after its
/// highest. Slots go down from the trampoline, one stack and one guard page each.
pub fn kernel_stack_position(app_id: usize) -> (pos: (u64, u64))
    requires
        app_id <= MAX_KERNEL_STACK_ID,
    ensures
        pos.0 == kernel_stack_bottom(app_id),
        pos.1 == kernel_stack_top(app_id),
        pos.0 % PAGE_SIZE == 0,
        pos.1 % PAGE_SIZE == 0,
{
    let top: u64 = TRAMPOLINE - (app_id as u64) * KERNEL_STACK_SLOT;
    let bottom: u64 = top - KERNEL_STACK_SIZE;
    (bottom, top)
}

/// The slots of two processes share no address, and at least one unmapped
/// guard page lies between them.
pub proof fn lemma_kernel_stacks_apart(p: usize, q: usize)
    requires
        p < q,
    ensures
        kernel_stack_top(q) + PAGE_SIZE <= kernel_stack_bottom(p),
{
}

impl KernelStack {
    /// Whether the process id has a slot.
    pub open spec fn wf(&self) -> bool {
        self.pid <= MAX_KERNEL_STACK_ID
    }

    /// The lowest address of the stack and the address after its highest.
    pub fn position(&self) -> (pos: (u64, u64))
        requires
            self.wf(),
        ensures
            pos.0 == kernel_stack_bottom(self.pid),
            pos.1 == kernel_stack_top(self.pid),
    {
        kernel_stack_position(self.pid)
    }

    /// The first page of the stack.
    pub open spec fn start_vpn(&self) -> u64 {
        (kernel_stack_bottom(self.pid) / PAGE_SIZE as int) as u64
    }

    /// Unmaps the stack from the kernel's address space and gives its frames
    /// back. Where the stack is not mapped nothing changes.
    pub fn release(self, kernel_space: &mut MemorySet, allocator: &mut StackFrameAllocator) -> (res:
        Result<(), ()>)
        requires
            self.wf(),
            old(kernel_space).wf(),
            old(allocator).wf(),
        ensures
            final(kernel_space).wf(),
            final(allocator).wf(),
            res is Ok <==> old(kernel_space).has_match(self.start_vpn(), None),
            res is Err ==> *final(kernel_space) == *old(kernel_space) && *final(allocator) == *old(
                allocator,
            ),
            res is Ok ==> {
                let idx = old(kernel_space).first_match(self.start_vpn(), None);
                &&& 0 <= idx < old(kernel_space).areas@.len()
                &&& final(kernel_space).after_remove(
                    old(kernel_space),
                    final(allocator),
                    old(allocator),
                    idx,
                )
                &&& final(kernel_space).areas@ == old(kernel_space).areas@.remove(idx)
                &&& final(kernel_space).trampoline == old(kernel_space).trampoline
                &&& final(kernel_space).page_table.root_ppn == old(kernel_space).page_table.root_ppn
                &&& final(allocator)@ == old(allocator)@.difference(
                    old(kernel_space).areas@[idx].ppns().to_set(),
                )
                &&& final(allocator).start == old(allocator).start
                &&& final(allocator).end == old(allocator).end
            },
    {
        let (bottom, _) = self.position();
        kernel_space.remove_area_with_start_vpn(allocator, VirtAddr(bottom).floor())
    }
}

/// Maps the kernel stack of process `pid` into the kernel's address space,
/// readable and writable, over fresh frames. `None`, with nothing changed,
/// where the process id has no slot or the area cannot be added.
pub fn alloc_kernel_stack(
    kernel_space: &mut MemorySet,
    allocator: &mut StackFrameAllocator,
    pid: PidHandle,
) -> (res: Option<KernelStack>)
    requires
        old(kernel_space).wf(),
        old(allocator).wf(),
    ensures
        final(kernel_space).wf(),
        final(allocator).wf(),
        res is Some <==> pid.0 <= MAX_KERNEL_STACK_ID && old(kernel_space).can_insert(
            old(allocator),
            VirtAddr(kernel_stack_bottom(pid.0) as u64),
            VirtAddr(kernel_stack_top(pid.0) as u64),
        ),
        res is None ==> *final(kernel_space) == *old(kernel_space) && *final(allocator) == *old(
            allocator,
        ),
        res matches Some(stack) ==> {
            let area = final(kernel_space).areas@.last();
            &&& stack.pid == pid.0
            &&& stack.wf()
            &&& final(kernel_space).after_insert(
                old(kernel_space),
                final(allocator),
                old(allocator),
                VirtAddr(kernel_stack_bottom(pid.0) as u64),
                VirtAddr(kernel_stack_top(pid.0) as u64),
                MapPermission { bits: 6 },
            )
            &&& final(kernel_space).areas@.len() == old(kernel_space).areas@.len() + 1
            &&& final(kernel_space).areas@.drop_last() == old(kernel_space).areas@
            &&& final(kernel_space).trampoline == old(kernel_space).trampoline
            &&& final(kernel_space).page_table.root_ppn == old(kernel_space).page_table.root_ppn
            &&& area.start_vpn == stack.start_vpn()
            &&& area.end_vpn * PAGE_SIZE == kernel_stack_top(pid.0)
            &&& area.map_type == MapType::Framed
            &&& area.map_perm == (MapPermission { bits: 6 })
            &&& final(allocator)@ == old(allocator)@.union(area.ppns().to_set())
            &&& forall|k: int|
                0 <= k < area.frames@.len() ==> !old(allocator)@.contains(
                    (#[trigger] area.frames@[k]).ppn.0,
                )
            &&& final(allocator).free_count() == old(allocator).free_count() - 15
            &&& final(allocator).start == old(allocator).start
            &&& final(allocator).end == old(allocator).end
        },
{
    if pid.0 > MAX_KERNEL_STACK_ID {
        return None;
    }
    let (bottom, top) = kernel_stack_position(pid.0);
    match kernel_space.insert_framed_area(
        allocator,
        VirtAddr(bottom),
        VirtAddr(top),
        MapPermission { bits: 6 },
    ) {
        Err(_) => None,
        Ok(_) => Some(KernelStack { pid: pid.0 }),
    }
}

} // verus!
