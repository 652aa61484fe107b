//! The state of the whole kernel, as one value that every entry point receives.
use vstd::prelude::*;
use crate::config::{MEMORY_END, PAGE_SIZE, PPN_MASK};
use crate::loader::Loader;
use crate::mm::address::{PhysPageNum, VirtAddr};
use crate::mm::builder::placeable;
use crate::mm::frame_allocator::StackFrameAllocator;
use crate::mm::memory_set::MemorySet;
use crate::mm::spaces::KernelLayout;
use crate::task::manager::TaskManager;
use crate::task::pid::PidAllocator;
use crate::task::processor::Processor;
use crate::task::task::{find_task, has_task, lemma_task_index, task_index, Task};

verus! {

/// What the kernel does when a process is to be picked and none is ready.
#[derive(Clone, Copy, Debug, PartialEq, Eq, Structural)]
pub enum IdlePolicy {
    /// There is no more work: the batch list is let go and the kernel stops.
    Halt,
    /// Nothing changes, and the kernel waits for new work.
    Wait,
}

/// What the hardware says at the moment of a kernel entry.
#[derive(Clone, Copy, Debug)]
pub struct Machine {
    /// The trap cause register.
    pub scause: u64,
    /// The trap value register.
    pub stval: u64,
    /// The status register.
    pub sstatus: u64,
    /// The time since boot in milliseconds.
    pub time_ms: usize,
    /// The time since boot in microseconds.
    pub time_us: u64,
}

/// The kernel: the frame allocator, the kernel's own address space, the
/// process identifiers, every live process, the ready queue, the core, the
/// batch list, the loader, and what the boot code found out about the image of
/// the kernel.
pub struct Kernel {
    pub frames: StackFrameAllocator,
    pub kernel_space: MemorySet,
    pub pids: PidAllocator,
    pub tasks: Vec<Task>,
    pub manager: TaskManager,
    pub processor: Processor,
    pub batch: Vec<usize>,
    pub loader: Loader,
    /// The frame of the trampoline code.
    pub trampoline: PhysPageNum,
    /// The address of the trap dispatch routine.
    pub trap_entry: u64,
    /// The address of the routine that returns to user mode, as linked.
    pub restore_entry: u64,
    pub idle_policy: IdlePolicy,
}

impl Kernel {
    /// Whether every process id of `pids` is that of a live process.
    pub open spec fn all_live(&self, pids: Seq<usize>) -> bool {
        forall|k: int| 0 <= k < pids.len() ==> has_task(self.tasks@, #[trigger] pids[k])
    }

    /// The allocator, the kernel's address space and the loader are sound, and
    /// the kernel's address space has the trampoline page.
    pub open spec fn parts_wf(&self) -> bool {
        &&& self.frames.wf()
        &&& self.kernel_space.wf()
        &&& self.kernel_space.trampoline == Some(self.trampoline)
        &&& self.loader.wf()
        &&& self.trampoline.0 <= PPN_MASK
    }

    /// Whether process `t` is sound in this kernel: sound in itself, with an
    /// id that the allocator handed out, with the trampoline page, and with
    /// live children only, each with a greater id than its own.
    pub open spec fn task_ok(&self, t: &Task) -> bool {
        &&& t.wf()
        &&& t.pid.0 <= self.pids.current
        &&& t.inner.addr_space.trampoline == Some(self.trampoline)
        &&& self.all_live(t.inner.children@)
        &&& forall|k: int| 0 <= k < t.inner.children@.len() ==> #[trigger] t.inner.children@[k] > t.pid.0
    }

    /// Every live process is sound, and no two share an id.
    pub open spec fn tasks_wf(&self) -> bool {
        &&& forall|i: int| 0 <= i < self.tasks@.len() ==> self.task_ok(&#[trigger] self.tasks@[i])
        &&& unique_pids(self.tasks@)
    }

    /// The ready queue, the batch list and the core hold live processes only.
    pub open spec fn holders_wf(&self) -> bool {
        &&& self.all_live(self.manager.task_list@)
        &&& self.all_live(self.batch@)
        &&& self.processor.cur_task matches Some(p) ==> has_task(self.tasks@, p)
    }

    /// Every part is sound; no two live processes share an id, and every id
    /// was handed out by the allocator; every address space has the trampoline
    /// page; whoever holds a process holds a live one: the ready queue, the
    /// core, the batch list and the child lists; and every address space
    /// holds frames that the allocator handed out, none of them in two places.
    pub open spec fn wf(&self) -> bool {
        self.parts_wf() && self.tasks_wf() && self.holders_wf() && self.frames_ok()
    }

    /// Whether `other` differs from this kernel in its processes, ready queue,
    /// core and batch list at most.
    pub open spec fn same_parts(&self, other: &Kernel) -> bool {
        &&& self.frames == other.frames
        &&& self.kernel_space == other.kernel_space
        &&& self.pids == other.pids
        &&& self.loader == other.loader
        &&& self.trampoline == other.trampoline
        &&& self.trap_entry == other.trap_entry
        &&& self.restore_entry == other.restore_entry
        &&& self.idle_policy == other.idle_policy
    }

    /// Whether `other` has the same ready queue, core and batch list.
    pub open spec fn same_holders(&self, other: &Kernel) -> bool {
        &&& self.manager == other.manager
        &&& self.processor == other.processor
        &&& self.batch == other.batch
    }

    /// Whether this kernel differs from `before` at most in the changing part
    /// of the live process `pid` and in the frame allocator.
    pub open spec fn only_inner_changed(&self, before: &Kernel, pid: usize) -> bool {
        let idx = task_index(before.tasks@, pid);
        &&& self.tasks@ == before.tasks@.update(idx, self.tasks@[idx])
        &&& self.tasks@[idx].pid == before.tasks@[idx].pid
        &&& self.tasks@[idx].start_time_ms == before.tasks@[idx].start_time_ms
        &&& self.tasks@[idx].kernel_stack == before.tasks@[idx].kernel_stack
        &&& self.same_holders(before)
        &&& self.kernel_space == before.kernel_space
        &&& self.pids == before.pids
        &&& self.loader == before.loader
        &&& self.trampoline == before.trampoline
        &&& self.trap_entry == before.trap_entry
        &&& self.restore_entry == before.restore_entry
        &&& self.idle_policy == before.idle_policy
    }

    /// Whether this kernel is in the same state as `before`: the same
    /// processes and every other part the same.
    pub open spec fn unchanged(&self, before: &Kernel) -> bool {
        &&& self.tasks@ == before.tasks@
        &&& self.frames == before.frames
        &&& self.same_holders(before)
        &&& self.kernel_space == before.kernel_space
        &&& self.pids == before.pids
        &&& self.loader == before.loader
        &&& self.trampoline == before.trampoline
        &&& self.trap_entry == before.trap_entry
        &&& self.restore_entry == before.restore_entry
        &&& self.idle_policy == before.idle_policy
    }

    /// The index of the live process with id `pid`, or `None` where none is live.
    pub fn find(&self, pid: usize) -> (res: Option<usize>)
        requires
            self.tasks_wf(),
        ensures
            res is Some <==> self.live(pid),
            res matches Some(i) ==> i == task_index(self.tasks@, pid) && i < self.tasks@.len()
                && self.tasks@[i as int].pid.0 == pid && self.tasks@[i as int] == self.task(pid),
    {
        find_task(&self.tasks, pid)
    }

    /// Whether a process with id `pid` is live.
    pub open spec fn live(&self, pid: usize) -> bool {
        has_task(self.tasks@, pid)
    }

    /// The live process with id `pid`.
    pub open spec fn task(&self, pid: usize) -> Task {
        self.tasks@[task_index(self.tasks@, pid)]
    }

    /// Whether the ready queue, the core, the batch list or a child list holds
    /// process `pid`.
    pub open spec fn referenced(&self, pid: usize) -> bool {
        ||| self.manager.task_list@.contains(pid)
        ||| self.batch@.contains(pid)
        ||| self.processor.cur_task == Some(pid)
        ||| exists|i: int|
            0 <= i < self.tasks@.len() && (#[trigger] self.tasks@[i]).inner.children@.contains(pid)
    }

    /// The kernel after boot: the frames from the end of the kernel image to
    /// the end of memory, the kernel's address space over `layout`, and no
    /// process. `None` where the address space cannot be built.
    pub fn new(
        layout: &KernelLayout,
        trap_entry: u64,
        restore_entry: u64,
        idle_policy: IdlePolicy,
    ) -> (res: Option<Kernel>)
        ensures
            res matches Some(kernel) ==> {
                &&& kernel.wf()
                &&& kernel.tasks@.len() == 0
                &&& kernel.manager.task_list@.len() == 0
                &&& kernel.batch@.len() == 0
                &&& kernel.processor.cur_task is None
                &&& kernel.pids.current == 0
                &&& kernel.loader.names@.len() == 0
                &&& kernel.trampoline == layout.trampoline_ppn()
                &&& kernel.trap_entry == trap_entry
                &&& kernel.restore_entry == restore_entry
                &&& kernel.idle_policy == idle_policy
                &&& kernel.kernel_space.realizes(layout.spec_requests())
                &&& kernel.frames.start == VirtAddr(layout.ekernel).spec_ceil().0
                &&& kernel.frames.end == if MEMORY_END / PAGE_SIZE < kernel.frames.start {
                    kernel.frames.start
                } else {
                    (MEMORY_END / PAGE_SIZE) as u64
                }
                &&& kernel.frames@ == set![kernel.kernel_space.page_table.root_ppn.0]
            },
            res is Some <==> {
                &&& VirtAddr(layout.ekernel).spec_ceil().0 < MEMORY_END / PAGE_SIZE
                &&& placeable(layout.spec_requests())
                &&& layout.trampoline_ppn().0 <= PPN_MASK
            },
    {
        let start = VirtAddr(layout.ekernel).ceil();
        if start.0 > PPN_MASK {
            return None;
        }
        let mut frames = StackFrameAllocator::new(
            PhysPageNum(start.0),
            PhysPageNum(MEMORY_END / PAGE_SIZE),
        );
        let kernel_space = match MemorySet::new_kernel(layout, &mut frames) {
            None => {
                return None;
            },
            Some(ms) => ms,
        };
        let kernel = Kernel {
            frames,
            kernel_space,
            pids: PidAllocator::new(),
            tasks: Vec::new(),
            manager: TaskManager::new(),
            processor: Processor::new(),
            batch: Vec::new(),
            loader: Loader::new(),
            trampoline: PhysPageNum(layout.strampoline / PAGE_SIZE),
            trap_entry,
            restore_entry,
            idle_policy,
        };
        assert(kernel.frames@ =~= set![kernel.kernel_space.page_table.root_ppn.0]);
        Some(kernel)
    }
}

/// Changing one live process, with its id kept and the process still sound,
/// keeps the processes sound and keeps which ids are live.
pub proof fn lemma_update_keeps(before: &Kernel, after: &Kernel, i: int)
    requires
        before.tasks_wf(),
        0 <= i < before.tasks@.len(),
        after.tasks@ == before.tasks@.update(i, after.tasks@[i]),
        after.tasks@[i].pid == before.tasks@[i].pid,
        after.pids.current >= before.pids.current,
        after.trampoline == before.trampoline,
        after.tasks@[i].wf(),
        after.tasks@[i].inner.addr_space.trampoline == Some(after.trampoline),
        before.all_live(after.tasks@[i].inner.children@),
        forall|k: int|
            0 <= k < after.tasks@[i].inner.children@.len()
                ==> #[trigger] after.tasks@[i].inner.children@[k] > after.tasks@[i].pid.0,
    ensures
        after.tasks_wf(),
        forall|p: usize| #[trigger] has_task(after.tasks@, p) == has_task(before.tasks@, p),
        forall|p: usize|
            has_task(before.tasks@, p) ==> #[trigger] task_index(after.tasks@, p) == task_index(
                before.tasks@,
                p,
            ),
        forall|s: Seq<usize>| #[trigger] after.all_live(s) == before.all_live(s),
{
    lemma_live_update(before.tasks@, i, after.tasks@[i]);
    assert forall|s: Seq<usize>| #[trigger] after.all_live(s) == before.all_live(s) by {
        if before.all_live(s) {
            assert forall|k: int| 0 <= k < s.len() implies has_task(after.tasks@, #[trigger] s[k]) by {
                assert(has_task(before.tasks@, s[k]));
            }
        }
        if after.all_live(s) {
            assert forall|k: int| 0 <= k < s.len() implies has_task(before.tasks@, #[trigger] s[k]) by {
                assert(has_task(after.tasks@, s[k]));
            }
        }
    }
    assert forall|j: int| 0 <= j < after.tasks@.len() implies after.task_ok(
        &#[trigger] after.tasks@[j],
    ) by {
        if j != i {
            assert(before.task_ok(&before.tasks@[j]));
            assert(after.all_live(after.tasks@[j].inner.children@) == before.all_live(
                after.tasks@[j].inner.children@,
            ));
        } else {
            assert(before.task_ok(&before.tasks@[i]));
            assert(after.all_live(after.tasks@[i].inner.children@) == before.all_live(
                after.tasks@[i].inner.children@,
            ));
        }
    }
}

/// Process ids are not used twice: the id that is handed out next is greater
/// than the id of every live process, so no live process has it.
pub proof fn lemma_next_pid_is_new(k: &Kernel, i: int)
    requires
        k.tasks_wf(),
        0 <= i < k.tasks@.len(),
    ensures
        k.tasks@[i].pid.0 < k.pids.current + 1,
        !k.live((k.pids.current + 1) as usize) || k.pids.current == usize::MAX,
{
    assert(k.task_ok(&k.tasks@[i]));
    if k.pids.current < usize::MAX && k.live((k.pids.current + 1) as usize) {
        lemma_task_index(k.tasks@, (k.pids.current + 1) as usize);
        let j = task_index(k.tasks@, (k.pids.current + 1) as usize);
        assert(k.task_ok(&k.tasks@[j]));
    }
}

/// Whether `x` occurs in `v`.
pub fn contains_pid(v: &Vec<usize>, x: usize) -> (found: bool)
    ensures
        found == v@.contains(x),
{
    let mut i: usize = 0;
    while i < v.len()
        invariant
            i <= v.len(),
            forall|j: int| 0 <= j < i ==> v@[j] != x,
        decreases v.len() - i,
    {
        if v[i] == x {
            return true;
        }
        i += 1;
    }
    false
}

impl Kernel {
    /// Takes in the new process `task`, which has no children yet and a
    /// greater id than every live process.
    pub(crate) fn take_in(&mut self, task: Task)
        requires
            old(self).wf(),
            task.wf(),
            task.pid.0 <= old(self).pids.current,
            forall|i: int|
                0 <= i < old(self).tasks@.len() ==> (#[trigger] old(self).tasks@[i]).pid.0
                    < task.pid.0,
            task.inner.addr_space.trampoline == Some(old(self).trampoline),
            task.inner.children@.len() == 0,
            old(self).detached(&task.inner.addr_space),
        ensures
            final(self).wf(),
            final(self).tasks@ == old(self).tasks@.push(task),
            final(self).frames == old(self).frames,
            final(self).kernel_space == old(self).kernel_space,
            final(self).pids == old(self).pids,
            final(self).same_holders(old(self)),
            final(self).loader == old(self).loader,
            final(self).trampoline == old(self).trampoline,
            final(self).trap_entry == old(self).trap_entry,
            final(self).restore_entry == old(self).restore_entry,
            final(self).idle_policy == old(self).idle_policy,
            forall|p: usize| #[trigger]
                has_task(final(self).tasks@, p) == (has_task(old(self).tasks@, p) || p
                    == task.pid.0),
            forall|p: usize|
                has_task(old(self).tasks@, p) ==> #[trigger] task_index(final(self).tasks@, p)
                    == task_index(old(self).tasks@, p),
            !has_task(old(self).tasks@, task.pid.0),
            task_index(final(self).tasks@, task.pid.0) == old(self).tasks@.len(),
    {
        proof {
            if has_task(self.tasks@, task.pid.0) {
                lemma_task_index(self.tasks@, task.pid.0);
            }
            lemma_live_push(self.tasks@, task);
        }
        self.tasks.push(task);
        proof {
            assert forall|s: Seq<usize>| old(self).all_live(s) implies #[trigger] self.all_live(s) by {
                assert forall|k: int| 0 <= k < s.len() implies has_task(self.tasks@, #[trigger] s[k]) by {
                    assert(has_task(old(self).tasks@, s[k]));
                }
            }
            assert forall|j: int| 0 <= j < self.tasks@.len() implies self.task_ok(
                &#[trigger] self.tasks@[j],
            ) by {
                if j < old(self).tasks@.len() {
                    assert(old(self).task_ok(&old(self).tasks@[j]));
                    assert(old(self).all_live(self.tasks@[j].inner.children@));
                }
            }
            assert(self.all_live(self.manager.task_list@));
            assert(self.all_live(self.batch@));
            assert(self.tasks@.drop_last() =~= old(self).tasks@);
            crate::frames::lemma_frames_ok_push(old(self), self);
        }
    }

    /// Whether the ready queue, the core, the batch list or a child list holds
    /// process `pid`.
    pub fn is_referenced(&self, pid: usize) -> (b: bool)
        ensures
            b == self.referenced(pid),
    {
        if contains_pid(&self.manager.task_list, pid) || contains_pid(&self.batch, pid) {
            return true;
        }
        match self.processor.cur_task {
            Some(p) => {
                if p == pid {
                    return true;
                }
            },
            None => {},
        }
        let mut i: usize = 0;
        while i < self.tasks.len()
            invariant
                i <= self.tasks@.len(),
                forall|j: int| 0 <= j < i ==> !(#[trigger] self.tasks@[j]).inner.children@.contains(pid),
            decreases self.tasks.len() - i,
        {
            if contains_pid(&self.tasks[i].inner.children, pid) {
                return true;
            }
            i += 1;
        }
        false
    }

    /// Whether this kernel is what `before` becomes when the process at
    /// position `idx` ends its life: it leaves the live processes, the frames
    /// of its address space go back to the allocator, and its kernel stack,
    /// where it is mapped, is unmapped and its frames go back too.
    pub open spec fn destroyed_from(&self, before: &Kernel, idx: int) -> bool {
        let task = before.tasks@[idx];
        &&& self.same_holders(before)
        &&& self.tasks@ == before.tasks@.remove(idx)
        &&& self.pids == before.pids
        &&& self.loader == before.loader
        &&& self.trampoline == before.trampoline
        &&& self.trap_entry == before.trap_entry
        &&& self.restore_entry == before.restore_entry
        &&& self.idle_policy == before.idle_policy
        &&& self.released(&before.frames, &before.kernel_space, &task)
    }

    /// Whether the allocator and the kernel's address space are what `frames`
    /// and `space` become when process `task` gives up what it holds: the
    /// frames of its address space go back to the allocator, and its kernel
    /// stack, where it is mapped, is unmapped and its frames go back too.
    pub open spec fn released(
        &self,
        frames: &StackFrameAllocator,
        space: &MemorySet,
        task: &Task,
    ) -> bool {
        let start = task.kernel_stack.start_vpn();
        &&& self.kernel_space.trampoline == space.trampoline
        &&& self.kernel_space.page_table.root_ppn == space.page_table.root_ppn
        &&& self.frames.start == frames.start
        &&& self.frames.end == frames.end
        &&& if space.has_match(start, None) {
            let area = space.first_match(start, None);
            &&& self.kernel_space.areas@ == space.areas@.remove(area)
            &&& self.frames@ == frames@.difference(task.inner.addr_space.owned()).difference(
                space.areas@[area].ppns().to_set(),
            )
        } else {
            &&& self.kernel_space == *space
            &&& self.frames@ == frames@.difference(task.inner.addr_space.owned())
        }
    }

    /// Ends the life of the process at position `idx`, which nobody holds: it
    /// leaves the live processes, the frames of its address space go back to
    /// the allocator, and its kernel stack is unmapped.
    pub(crate) fn destroy(&mut self, idx: usize)
        requires
            old(self).wf(),
            idx < old(self).tasks@.len(),
            !old(self).referenced(old(self).tasks@[idx as int].pid.0),
        ensures
            final(self).wf(),
            final(self).destroyed_from(old(self), idx as int),
    {
        proof {
            assert(self.task_ok(&self.tasks@[idx as int]));
        }
        let task = self.tasks.remove(idx);
        let ghost taken = *self;
        task.inner.addr_space.recycle(&mut self.frames);
        let ghost dropped = *self;
        let released = task.kernel_stack.release(&mut self.kernel_space, &mut self.frames);
        proof {
            lemma_remove_keeps(old(self), self, idx as int);
            {
                crate::frames::lemma_frames_ok_remove(old(self), &taken, idx as int);
                crate::frames::lemma_frames_ok_dropped(&taken, &dropped, &task.inner.addr_space);
                if released is Ok {
                    let area = dropped.kernel_space.first_match(task.kernel_stack.start_vpn(), None);
                    crate::mm::ownership::lemma_held_remove(
                        &dropped.kernel_space,
                        &self.kernel_space,
                        &self.frames,
                        &dropped.frames,
                        area,
                    );
                    crate::frames::lemma_frames_ok_kernel_changed(
                        &dropped,
                        self,
                        dropped.kernel_space.areas@[area].ppns().to_set(),
                        Set::empty(),
                    );
                }
            }
        }
    }
}

/// Taking out a process that nobody holds keeps the processes sound and keeps
/// every holder's processes live.
pub proof fn lemma_remove_keeps(before: &Kernel, after: &Kernel, idx: int)
    requires
        before.tasks_wf(),
        before.holders_wf(),
        0 <= idx < before.tasks@.len(),
        !before.referenced(before.tasks@[idx].pid.0),
        after.tasks@ == before.tasks@.remove(idx),
        after.same_holders(before),
        after.pids == before.pids,
        after.trampoline == before.trampoline,
    ensures
        after.tasks_wf(),
        after.holders_wf(),
        forall|p: usize| #[trigger]
            has_task(after.tasks@, p) == (has_task(before.tasks@, p) && p
                != before.tasks@[idx].pid.0),
        forall|p: usize|
            has_task(before.tasks@, p) && p != before.tasks@[idx].pid.0 ==> #[trigger] after.task(p)
                == before.task(p),
{
    let gone = before.tasks@[idx].pid.0;
    lemma_live_remove(before.tasks@, idx);
    assert forall|p: usize|
        has_task(before.tasks@, p) && p != gone implies #[trigger] after.task(p) == before.task(
        p,
    ) by {
        assert(before.tasks@.remove(idx)[task_index(before.tasks@.remove(idx), p)]
            == before.tasks@[task_index(before.tasks@, p)]);
    }
    assert forall|s: Seq<usize>| before.all_live(s) && !s.contains(gone) implies after.all_live(
        s,
    ) by {
        assert forall|k: int| 0 <= k < s.len() implies has_task(after.tasks@, #[trigger] s[k]) by {
            assert(has_task(before.tasks@, s[k]));
            assert(s.contains(s[k]));
        }
    }
    assert forall|j: int| 0 <= j < after.tasks@.len() implies after.task_ok(
        &#[trigger] after.tasks@[j],
    ) by {
        let b = if j < idx { j } else { j + 1 };
        assert(before.task_ok(&before.tasks@[b]));
        assert(!before.tasks@[b].inner.children@.contains(gone));
    }
    assert(after.all_live(after.manager.task_list@));
    assert(after.all_live(after.batch@));
}

/// Whether no two processes of `tasks` share an id.
pub open spec fn unique_pids(tasks: Seq<Task>) -> bool {
    forall|i: int, j: int|
        0 <= i < j < tasks.len() ==> (#[trigger] tasks[i]).pid != (#[trigger] tasks[j]).pid
}

/// Among processes with distinct ids, the process at position `i` is the one
/// that its id names.
pub proof fn lemma_task_at(tasks: Seq<Task>, i: int)
    requires
        unique_pids(tasks),
        0 <= i < tasks.len(),
    ensures
        has_task(tasks, tasks[i].pid.0),
        task_index(tasks, tasks[i].pid.0) == i,
{
    lemma_task_index(tasks, tasks[i].pid.0);
    let w = task_index(tasks, tasks[i].pid.0);
    if w < i {
        assert(tasks[w].pid != tasks[i].pid);
    } else if i < w {
        assert(tasks[i].pid != tasks[w].pid);
    }
}

/// Replacing a process by one with the same id keeps which ids are live and where.
pub proof fn lemma_live_update(tasks: Seq<Task>, i: int, t: Task)
    requires
        0 <= i < tasks.len(),
        t.pid == tasks[i].pid,
    ensures
        forall|p: usize| #[trigger] has_task(tasks.update(i, t), p) == has_task(tasks, p),
        forall|p: usize|
            has_task(tasks, p) ==> #[trigger] task_index(tasks.update(i, t), p) == task_index(
                tasks,
                p,
            ),
        unique_pids(tasks) ==> unique_pids(tasks.update(i, t)),
{
    let after = tasks.update(i, t);
    assert forall|p: usize| #[trigger] has_task(after, p) == has_task(tasks, p) by {
        if has_task(tasks, p) {
            let w = choose|w: int| 0 <= w < tasks.len() && (#[trigger] tasks[w]).pid.0 == p;
            assert(after[w].pid.0 == p);
        }
        if has_task(after, p) {
            let w = choose|w: int| 0 <= w < after.len() && (#[trigger] after[w]).pid.0 == p;
            assert(tasks[w].pid.0 == p);
        }
    }
    assert forall|p: usize| has_task(tasks, p) implies #[trigger] task_index(after, p) == task_index(
        tasks,
        p,
    ) by {
        lemma_task_index(tasks, p);
        lemma_task_index(after, p);
        let a = task_index(tasks, p);
        let b = task_index(after, p);
        if a < b {
            assert(after[a].pid.0 != p);
            assert(tasks[a].pid.0 == p);
        } else if b < a {
            assert(tasks[b].pid.0 != p);
            assert(after[b].pid.0 == p);
        }
    }
    if unique_pids(tasks) {
        assert forall|a: int, b: int| 0 <= a < b < after.len() implies (#[trigger] after[a]).pid != (
        #[trigger] after[b]).pid by {
            assert(tasks[a].pid != tasks[b].pid);
        }
    }
}

/// Adding a process makes its id live and keeps the others as they were.
pub proof fn lemma_live_push(tasks: Seq<Task>, t: Task)
    ensures
        forall|p: usize| #[trigger]
            has_task(tasks.push(t), p) == (has_task(tasks, p) || p == t.pid.0),
        forall|p: usize|
            has_task(tasks, p) ==> #[trigger] task_index(tasks.push(t), p) == task_index(tasks, p),
        !has_task(tasks, t.pid.0) ==> task_index(tasks.push(t), t.pid.0) == tasks.len(),
        unique_pids(tasks) && !has_task(tasks, t.pid.0) ==> unique_pids(tasks.push(t)),
{
    let after = tasks.push(t);
    assert forall|p: usize| #[trigger] has_task(after, p) == (has_task(tasks, p) || p == t.pid.0) by {
        if has_task(tasks, p) {
            let w = choose|w: int| 0 <= w < tasks.len() && (#[trigger] tasks[w]).pid.0 == p;
            assert(after[w].pid.0 == p);
        }
        if p == t.pid.0 {
            assert(after[tasks.len() as int].pid.0 == p);
        }
        if has_task(after, p) {
            let w = choose|w: int| 0 <= w < after.len() && (#[trigger] after[w]).pid.0 == p;
            if w < tasks.len() {
                assert(tasks[w].pid.0 == p);
            }
        }
    }
    assert forall|p: usize| has_task(tasks, p) implies #[trigger] task_index(after, p) == task_index(
        tasks,
        p,
    ) by {
        lemma_task_index(tasks, p);
        lemma_task_index(after, p);
        let a = task_index(tasks, p);
        let b = task_index(after, p);
        if a < b {
            assert(after[a].pid.0 != p);
            assert(tasks[a].pid.0 == p);
        } else if b < a {
            assert(tasks[b].pid.0 != p);
            assert(after[b].pid.0 == p);
        }
    }
    if !has_task(tasks, t.pid.0) {
        lemma_task_index(after, t.pid.0);
        let b = task_index(after, t.pid.0);
        if b < tasks.len() {
            assert(tasks[b].pid.0 == t.pid.0);
        }
        if unique_pids(tasks) {
            assert forall|a: int, c: int| 0 <= a < c < after.len() implies (#[trigger] after[a]).pid != (
            #[trigger] after[c]).pid by {
                if c < tasks.len() {
                    assert(tasks[a].pid != tasks[c].pid);
                } else {
                    assert(tasks[a].pid.0 != t.pid.0);
                }
            }
        }
    }
}

/// Taking a process out of processes with distinct ids ends the life of its
/// id and keeps the others as they were.
pub proof fn lemma_live_remove(tasks: Seq<Task>, i: int)
    requires
        unique_pids(tasks),
        0 <= i < tasks.len(),
    ensures
        forall|p: usize| #[trigger]
            has_task(tasks.remove(i), p) == (has_task(tasks, p) && p != tasks[i].pid.0),
        forall|p: usize|
            has_task(tasks, p) && p != tasks[i].pid.0 ==> #[trigger] tasks.remove(i)[task_index(
                tasks.remove(i),
                p,
            )] == tasks[task_index(tasks, p)],
        unique_pids(tasks.remove(i)),
{
    let after = tasks.remove(i);
    assert forall|a: int, c: int| 0 <= a < c < after.len() implies (#[trigger] after[a]).pid != (
    #[trigger] after[c]).pid by {
        let ba = if a < i { a } else { a + 1 };
        let bc = if c < i { c } else { c + 1 };
        assert(tasks[ba].pid != tasks[bc].pid);
    }
    assert forall|p: usize| #[trigger] has_task(after, p) == (has_task(tasks, p) && p
        != tasks[i].pid.0) by {
        if has_task(tasks, p) && p != tasks[i].pid.0 {
            let w = choose|w: int| 0 <= w < tasks.len() && (#[trigger] tasks[w]).pid.0 == p;
            let aw = if w < i { w } else { w - 1 };
            assert(after[aw].pid.0 == p);
        }
        if has_task(after, p) {
            let w = choose|w: int| 0 <= w < after.len() && (#[trigger] after[w]).pid.0 == p;
            let bw = if w < i { w } else { w + 1 };
            assert(tasks[bw].pid.0 == p);
            if p == tasks[i].pid.0 {
                if bw < i {
                    assert(tasks[bw].pid != tasks[i].pid);
                } else {
                    assert(tasks[i].pid != tasks[bw].pid);
                }
            }
        }
    }
    assert forall|p: usize| has_task(tasks, p) && p != tasks[i].pid.0 implies #[trigger] after[task_index(
        after,
        p,
    )] == tasks[task_index(tasks, p)] by {
        lemma_task_index(tasks, p);
        lemma_task_index(after, p);
        let b = task_index(after, p);
        let bb = if b < i { b } else { b + 1 };
        assert(tasks[bb].pid.0 == p);
        lemma_task_at(tasks, bb);
    }
}

} // verus!
