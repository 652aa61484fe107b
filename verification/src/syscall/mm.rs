//! The system calls that map and unmap memory.
use vstd::prelude::*;
use crate::config::PAGE_SIZE;
use crate::kernel::{lemma_update_keeps, Kernel};
use crate::mm::address::VirtAddr;
use crate::mm::frame_allocator::StackFrameAllocator;
use crate::mm::memory_set::{MapPermission, MemorySet};
use crate::syscall::SyscallResult;
use crate::task::task::{Task, TaskInner};

verus! {

/// The permission bits that the protection number `prot` asks for, always
/// with access for user mode: 1 reads, 2 writes, 3 reads and writes, 4 reads
/// and executes, 7 reads, writes and executes. No other number is accepted.
pub open spec fn mmap_perm(prot: u64) -> Option<u8> {
    if prot == 7 {
        Some(30u8)
    } else if prot == 4 {
        Some(26u8)
    } else if prot == 3 {
        Some(22u8)
    } else if prot == 2 {
        Some(20u8)
    } else if prot == 1 {
        Some(18u8)
    } else {
        None
    }
}

/// Process `t` with the address space `space`.
pub open spec fn with_space(t: Task, space: MemorySet) -> Task {
    Task { inner: TaskInner { addr_space: space, ..t.inner }, ..t }
}

/// Whether `res` and `k_new` are what [`sys_mmap`] gives for these arguments
/// and makes of `k_old`.
pub open spec fn sys_mmap_post(
    k_old: &Kernel,
    k_new: &Kernel,
    task: usize,
    start: u64,
    len: u64,
    prot: u64,
    res: SyscallResult,
) -> bool {
    &&& res is Ok <==> {
        &&& k_old.live(task)
        &&& mmap_perm(prot) is Some
        &&& start + len <= u64::MAX
        &&& k_old.task(task).inner.addr_space.can_insert(
            &k_old.frames,
            VirtAddr(start),
            VirtAddr((start + len) as u64),
        )
    }
    &&& res is Err ==> k_new.unchanged(k_old)
    &&& res matches Ok(v) ==> {
        let space = k_new.task(task).inner.addr_space;
        &&& v == 0
        &&& k_new.only_inner_changed(k_old, task)
        &&& k_new.task(task) == with_space(k_old.task(task), space)
        &&& space.after_insert(
            &k_old.task(task).inner.addr_space,
            &k_new.frames,
            &k_old.frames,
            VirtAddr(start),
            VirtAddr((start + len) as u64),
            MapPermission { bits: mmap_perm(prot).unwrap() },
        )
    }
}

/// Maps `len` bytes from `start` on into the address space of process `task`,
/// over fresh zeroed frames, with the permission that `prot` asks for. The
/// call is refused, with nothing changed, where the process is not live,
/// `prot` is none of 1, 2, 3, 4 and 7, `start` is not the first address of a
/// page, the range runs past the last address, shares a page with a mapped
/// area or reaches the trampoline page, or the allocator has too few frames.
pub fn sys_mmap(kernel: &mut Kernel, task: usize, start: u64, len: u64, prot: u64) -> (res:
    SyscallResult)
    requires
        old(kernel).wf(),
    ensures
        final(kernel).wf(),
        sys_mmap_post(old(kernel), final(kernel), task, start, len, prot, res),
{
    let idx = match kernel.find(task) {
        None => {
            return Err(());
        },
        Some(idx) => idx,
    };
    if prot > 7 {
        return Err(());
    }
    let bits: u8 = if prot == 7 {
        30
    } else if prot == 4 {
        26
    } else if prot == 3 {
        22
    } else if prot == 2 {
        20
    } else if prot == 1 {
        18
    } else {
        return Err(());
    };
    if start > u64::MAX - len {
        return Err(());
    }
    let end = VirtAddr(start + len);
    let start = VirtAddr(start);
    if start.page_offset() != 0 {
        return Err(());
    }
    proof {
        assert(old(kernel).task_ok(&old(kernel).tasks@[idx as int]));
    }
    match kernel.tasks[idx].inner.addr_space.insert_framed_area(
        &mut kernel.frames,
        start,
        end,
        MapPermission { bits },
    ) {
        Err(_) => {
            proof {
                assert(kernel.tasks@ =~= old(kernel).tasks@);
            }
            Err(())
        },
        Ok(_) => {
            proof {
                assert(kernel.tasks@ =~= old(kernel).tasks@.update(idx as int, kernel.tasks@[idx as int]));
                let was = old(kernel).tasks@[idx as int].inner.addr_space;
                let now = kernel.tasks@[idx as int].inner.addr_space;
                crate::mm::ownership::lemma_held_insert(
                    &was,
                    &now,
                    &kernel.frames,
                    &old(kernel).frames,
                    start,
                    end,
                    MapPermission { bits },
                );
                crate::frames::lemma_frames_ok_task_changed(
                    old(kernel),
                    kernel,
                    idx as int,
                    Set::empty(),
                    now.areas@.last().ppns().to_set(),
                );
                lemma_update_keeps(old(kernel), kernel, idx as int);
                assert(kernel.all_live(kernel.manager.task_list@) == old(kernel).all_live(
                    kernel.manager.task_list@,
                ));
                assert(kernel.all_live(kernel.batch@) == old(kernel).all_live(kernel.batch@));
            }
            Ok(0)
        },
    }
}

/// Whether `res` and `k_new` are what [`sys_unmmap`] gives for these arguments
/// and makes of `k_old`.
pub open spec fn sys_unmmap_post(
    k_old: &Kernel,
    k_new: &Kernel,
    task: usize,
    start: u64,
    len: u64,
    res: SyscallResult,
) -> bool {
    &&& res is Ok <==> {
        &&& k_old.live(task)
        &&& start % PAGE_SIZE == 0
        &&& start + len <= u64::MAX
        &&& k_old.task(task).inner.addr_space.has_match(
            VirtAddr(start).spec_floor().0,
            Some(VirtAddr((start + len) as u64).spec_ceil().0),
        )
    }
    &&& res is Err ==> k_new.unchanged(k_old)
    &&& res matches Ok(v) ==> {
        let before = k_old.task(task).inner.addr_space;
        let space = k_new.task(task).inner.addr_space;
        &&& v == 0
        &&& k_new.only_inner_changed(k_old, task)
        &&& k_new.task(task) == with_space(k_old.task(task), space)
        &&& space.after_remove(
            &before,
            &k_new.frames,
            &k_old.frames,
            before.first_match(
                VirtAddr(start).spec_floor().0,
                Some(VirtAddr((start + len) as u64).spec_ceil().0),
            ),
        )
    }
}

/// Unmaps the `len` bytes from `start` on from the address space of process
/// `task` and gives the frames back. The call is refused, with nothing
/// changed, where the process is not live, `start` is not the first address
/// of a page, the range runs past the last address, or the range is not
/// exactly one that was mapped.
pub fn sys_unmmap(kernel: &mut Kernel, task: usize, start: u64, len: u64) -> (res: SyscallResult)
    requires
        old(kernel).wf(),
    ensures
        final(kernel).wf(),
        sys_unmmap_post(old(kernel), final(kernel), task, start, len, res),
{
    let idx = match kernel.find(task) {
        None => {
            return Err(());
        },
        Some(idx) => idx,
    };
    if start > u64::MAX - len {
        return Err(());
    }
    let end = VirtAddr(start + len);
    let start = VirtAddr(start);
    if start.page_offset() != 0 {
        return Err(());
    }
    proof {
        assert(old(kernel).task_ok(&old(kernel).tasks@[idx as int]));
    }
    match kernel.tasks[idx].inner.addr_space.unmap_area(&mut kernel.frames, start, end) {
        Err(_) => {
            proof {
                assert(kernel.tasks@ =~= old(kernel).tasks@);
            }
            Err(())
        },
        Ok(_) => {
            proof {
                assert(kernel.tasks@ =~= old(kernel).tasks@.update(idx as int, kernel.tasks@[idx as int]));
                let was = old(kernel).tasks@[idx as int].inner.addr_space;
                let now = kernel.tasks@[idx as int].inner.addr_space;
                let area = was.first_match(start.spec_floor().0, Some(end.spec_ceil().0));
                crate::mm::ownership::lemma_held_remove(
                    &was,
                    &now,
                    &kernel.frames,
                    &old(kernel).frames,
                    area,
                );
                crate::frames::lemma_frames_ok_task_changed(
                    old(kernel),
                    kernel,
                    idx as int,
                    was.areas@[area].ppns().to_set(),
                    Set::empty(),
                );
                lemma_update_keeps(old(kernel), kernel, idx as int);
                assert(kernel.all_live(kernel.manager.task_list@) == old(kernel).all_live(
                    kernel.manager.task_list@,
                ));
                assert(kernel.all_live(kernel.batch@) == old(kernel).all_live(kernel.batch@));
            }
            Ok(0)
        },
    }
}

/// After a range was mapped, every byte of it can be read and written, and
/// reads zero until it is written.
pub proof fn lemma_mapped_range_usable(
    before: &MemorySet,
    after: &MemorySet,
    allocator: &StackFrameAllocator,
    before_alloc: &StackFrameAllocator,
    start: u64,
    len: u64,
    perm: MapPermission,
)
    requires
        after.wf(),
        start % PAGE_SIZE == 0,
        start + len <= u64::MAX,
        after.after_insert(
            before,
            allocator,
            before_alloc,
            VirtAddr(start),
            VirtAddr((start + len) as u64),
            perm,
        ),
    ensures
        after.range_mapped(start, len as nat),
        forall|a: u64| start <= a < start + len ==> #[trigger] after.byte_at(a) == Some(0u8),
{
    let n = after.areas@.len() - 1;
    let area = after.areas@[n];
    assert(area.wf());
    assert forall|a: u64| start <= a < start + len implies #[trigger] after.byte_at(a) == Some(
        0u8,
    ) by {
        let vpn = a / PAGE_SIZE;
        assert(area.contains(vpn));
        after.lemma_area_unique(n, vpn);
        let k = vpn - area.start_vpn;
        assert(area.frames@[k].bytes@ == Seq::new(PAGE_SIZE as nat, |i: int| 0u8));
    }
}

} // verus!
