//! Making processes: from a program image, in place of another image, and as
//! a copy of a running process.
use vstd::prelude::*;
use crate::config::{
    KERNEL_STACK_PAGE_NUM, MAX_KERNEL_STACK_ID, MAX_SYSCALL_NUM, PAGE_SIZE, TRAP_CONTEXT_VPN,
};
use crate::kernel::{lemma_update_keeps, Kernel, Machine};
use crate::loader::efs_get_app_elf;
use crate::mm::address::{VirtAddr, VirtPageNum};
use crate::mm::builder::{frames_total, placeable, AreaSpec};
use crate::mm::elf::{elf_entry, elf_ok, elf_phnum, elf_segments, parse_elf};
use crate::mm::memory_set::MemorySet;
use crate::mm::spaces::{image_representable, image_requests, image_stack_top, SegmentSpec};
use crate::task::kernel_stack::{
    alloc_kernel_stack, kernel_stack_bottom, kernel_stack_top, KernelStack,
};
use crate::task::pid::{alloc_pid, PidHandle};
use crate::task::task::{
    has_task, initial_fd_table, spec_stdin, spec_stdout, task_index, OpenFile, Task, TaskInner,
    TaskState, DEFAULT_PRIORITY,
};
use crate::trap::context::{user_sstatus, TrapContext};

verus! {

impl Kernel {
    /// The image of the program named `name`.
    pub open spec fn program(&self, name: Seq<char>) -> Seq<u8> {
        self.loader.images@[self.loader.index_of(name)]@
    }

    /// The segments of the program named `name`.
    pub open spec fn program_segs(&self, name: Seq<char>) -> Seq<SegmentSpec> {
        elf_segments(self.program(name), elf_phnum(self.program(name)))
    }

    /// The areas of the address space of the program named `name`.
    pub open spec fn program_requests(&self, name: Seq<char>) -> Seq<AreaSpec> {
        image_requests(self.program_segs(name))
    }

    /// Whether the program named `name` is known, is a sound image, and can be
    /// laid out in an address space.
    pub open spec fn program_ok(&self, name: Seq<char>) -> bool {
        &&& self.loader.knows(name)
        &&& elf_ok(self.program(name))
        &&& image_representable(self.program_segs(name))
        &&& placeable(self.program_requests(name))
    }

    /// Whether an address space for the program named `name` can be built now.
    pub open spec fn can_load(&self, name: Seq<char>) -> bool {
        self.program_ok(name) && self.frames.free_count() >= 1 + frames_total(
            self.program_requests(name),
        )
    }

    /// Whether no area of the kernel's address space shares a page with the
    /// kernel stack slot of process `pid`.
    pub open spec fn stack_slot_clear(&self, pid: usize) -> bool {
        self.kernel_space.clear_of(
            (kernel_stack_bottom(pid) / PAGE_SIZE as int) as u64,
            (kernel_stack_top(pid) / PAGE_SIZE as int) as u64,
        )
    }

    /// Whether a process can be made from the program named `name` now: the
    /// next process id has a kernel stack slot, which is clear; the program
    /// can be laid out; and the allocator has the frames for the address space
    /// and the kernel stack.
    pub open spec fn can_create(&self, name: Seq<char>) -> bool {
        &&& self.pids.current < MAX_KERNEL_STACK_ID
        &&& self.program_ok(name)
        &&& self.stack_slot_clear((self.pids.current + 1) as usize)
        &&& self.frames.free_count() >= 1 + frames_total(self.program_requests(name))
            + KERNEL_STACK_PAGE_NUM
    }

    /// Whether `inner` is the changing part of a process that was just loaded
    /// from the program named `name` for process `pid`: the address space of
    /// the image, and registers set to enter the program in user mode.
    pub open spec fn loaded(&self, inner: &TaskInner, name: Seq<char>, machine: &Machine, pid: usize) -> bool {
        &&& inner.name@ == name
        &&& inner.state == TaskState::Ready
        &&& inner.addr_space.wf()
        &&& inner.addr_space.trampoline == Some(self.trampoline)
        &&& inner.addr_space.realizes(self.program_requests(name))
        &&& inner.addr_space.page_table@.contains_key(TRAP_CONTEXT_VPN)
        &&& inner.trap_ctx_ppn == inner.addr_space.page_table@[TRAP_CONTEXT_VPN].spec_ppn()
        &&& inner.trap_cx.sepc == elf_entry(self.program(name))
        &&& inner.trap_cx.sstatus == user_sstatus(machine.sstatus)
        &&& inner.trap_cx.kernel_satp == self.kernel_space.page_table.spec_token()
        &&& inner.trap_cx.kernel_sp == kernel_stack_top(pid)
        &&& inner.trap_cx.trap_handler == self.trap_entry
        &&& forall|r: int|
            0 <= r < 32 ==> #[trigger] inner.trap_cx.x@[r] == if r == 2 {
                image_stack_top(self.program_segs(name)) as u64
            } else {
                0
            }
    }

    /// Whether this kernel is what `before` becomes when the live process
    /// `pid` takes on the program named `name`: a new address space over
    /// fresh frames and registers set to enter the program, with the process
    /// id, the kernel stack, the children, the open files and the scheduling
    /// state kept, and the frames of the old address space given back.
    pub open spec fn execed(&self, before: &Kernel, pid: usize, name: Seq<char>, machine: &Machine) -> bool {
        let idx = task_index(before.tasks@, pid);
        let was = before.tasks@[idx];
        let now = self.tasks@[idx];
        &&& self.tasks@ == before.tasks@.update(idx, now)
        &&& now.pid == was.pid
        &&& now.start_time_ms == was.start_time_ms
        &&& now.kernel_stack == was.kernel_stack
        &&& before.loaded(&now.inner, name, machine, pid)
        &&& now.inner.children == was.inner.children
        &&& now.inner.fd_table == was.inner.fd_table
        &&& now.inner.syscall_times == was.inner.syscall_times
        &&& now.inner.exit_code == was.inner.exit_code
        &&& now.inner.priority == was.inner.priority
        &&& now.inner.pass == was.inner.pass
        &&& now.inner.addr_space.fresh_for(before.frames@)
        &&& self.frames@ == before.frames@.union(now.inner.addr_space.owned()).difference(
            was.inner.addr_space.owned(),
        )
    }

    /// Whether `res` and this kernel are what making a process from the
    /// program named `name` gives and makes of `before`: where it can be
    /// made, the new process with the next id, over a new address space and
    /// a new kernel stack; else nothing but a refusal.
    pub open spec fn created(
        &self,
        before: &Kernel,
        name: Seq<char>,
        machine: &Machine,
        res: Option<usize>,
    ) -> bool {
        &&& self.same_holders(before)
        &&& self.loader == before.loader
        &&& self.trampoline == before.trampoline
        &&& self.trap_entry == before.trap_entry
        &&& self.restore_entry == before.restore_entry
        &&& self.idle_policy == before.idle_policy
        &&& res is Some <==> before.can_create(name)
        &&& res is None ==> {
            &&& self.tasks == before.tasks
            &&& self.kernel_space == before.kernel_space
            &&& self.pids == before.pids
            &&& self.frames@ == before.frames@
        }
        &&& res matches Some(pid) ==> {
            let task = self.tasks@.last();
            let stack = self.kernel_space.areas@.last();
            &&& pid == before.pids.current + 1
            &&& self.pids.current == pid
            &&& self.tasks@.len() == before.tasks@.len() + 1
            &&& self.tasks@.drop_last() == before.tasks@
            &&& task.pid.0 == pid
            &&& task.start_time_ms == machine.time_ms
            &&& task.kernel_stack.pid == pid
            &&& before.loaded(&task.inner, name, machine, pid)
            &&& Kernel::pristine(&task.inner)
            &&& task.inner.addr_space.fresh_for(before.frames@)
            &&& self.kernel_space.areas@.drop_last() == before.kernel_space.areas@
            &&& self.kernel_space.page_table.root_ppn == before.kernel_space.page_table.root_ppn
            &&& stack.start_vpn * PAGE_SIZE == kernel_stack_bottom(pid)
            &&& stack.end_vpn * PAGE_SIZE == kernel_stack_top(pid)
            &&& self.frames@ == before.frames@.union(
                task.inner.addr_space.owned(),
            ).union(stack.ppns().to_set())
        }
    }

    /// Whether `inner` is the changing part of a process that never ran: no
    /// children, no exit code, the default priority, pass 0, no system call
    /// counted, and the console open for reading and writing.
    pub open spec fn pristine(inner: &TaskInner) -> bool {
        &&& inner.children@.len() == 0
        &&& inner.exit_code == 0
        &&& inner.priority == DEFAULT_PRIORITY
        &&& inner.pass == 0
        &&& inner.fd_table@ == seq![Some(spec_stdin()), Some(spec_stdout())]
        &&& forall|n: int| 0 <= n < MAX_SYSCALL_NUM ==> #[trigger] inner.syscall_times@[n] == 0
    }
}

/// Builds the address space of the program named `name`. Gives the address
/// space, the initial stack pointer and the entry address; `None`, with no
/// frame taken, where the program is not known, is no sound image, cannot be
/// laid out, or the allocator has too few frames.
pub fn load_program(kernel: &mut Kernel, name: &str) -> (res: Option<(MemorySet, u64, u64)>)
    requires
        old(kernel).wf(),
    ensures
        final(kernel).wf(),
        res matches Some(made) ==> final(kernel).detached(&made.0),
        final(kernel).tasks == old(kernel).tasks,
        final(kernel).same_holders(old(kernel)),
        final(kernel).kernel_space == old(kernel).kernel_space,
        final(kernel).pids == old(kernel).pids,
        final(kernel).loader == old(kernel).loader,
        final(kernel).trampoline == old(kernel).trampoline,
        final(kernel).trap_entry == old(kernel).trap_entry,
        final(kernel).restore_entry == old(kernel).restore_entry,
        final(kernel).idle_policy == old(kernel).idle_policy,
        final(kernel).frames.start == old(kernel).frames.start,
        final(kernel).frames.end == old(kernel).frames.end,
        res is Some <==> old(kernel).can_load(name@),
        res is None ==> final(kernel).frames@ == old(kernel).frames@,
        res matches Some((ms, user_sp, entry)) ==> {
            &&& ms.wf()
            &&& ms.trampoline == Some(old(kernel).trampoline)
            &&& ms.realizes(old(kernel).program_requests(name@))
            &&& ms.fresh_for(old(kernel).frames@)
            &&& final(kernel).frames@ == old(kernel).frames@.union(ms.owned())
            &&& old(kernel).frames.free_count() == final(kernel).frames.free_count() + 1
                + frames_total(old(kernel).program_requests(name@))
            &&& user_sp == image_stack_top(old(kernel).program_segs(name@))
            &&& entry == elf_entry(old(kernel).program(name@))
        },
{
    let elf = match efs_get_app_elf(&kernel.loader, name) {
        Err(_) => {
            return None;
        },
        Ok(elf) => elf,
    };
    let image = match parse_elf(&elf) {
        None => {
            return None;
        },
        Some(image) => image,
    };
    let trampoline = kernel.trampoline;
    let res = MemorySet::from_elf(&image, &mut kernel.frames, trampoline);
    proof {
        if res is Some {
            let made = res.unwrap();
            let ms = made.0;
            crate::frames::lemma_detached_fresh(old(kernel), kernel, &ms);
        }
    }
    res
}

/// Maps the kernel stack of the process that is made next. `None`, with
/// nothing changed, where its slot is not clear or the allocator has too few
/// frames.
fn place_stack(kernel: &mut Kernel) -> (res: Option<KernelStack>)
    requires
        old(kernel).wf(),
        old(kernel).pids.current < MAX_KERNEL_STACK_ID,
    ensures
        final(kernel).wf(),
        forall|ms: MemorySet| #[trigger] old(kernel).detached(&ms) ==> final(kernel).detached(&ms),
        final(kernel).tasks == old(kernel).tasks,
        final(kernel).same_holders(old(kernel)),
        final(kernel).pids == old(kernel).pids,
        final(kernel).loader == old(kernel).loader,
        final(kernel).trampoline == old(kernel).trampoline,
        final(kernel).trap_entry == old(kernel).trap_entry,
        final(kernel).restore_entry == old(kernel).restore_entry,
        final(kernel).idle_policy == old(kernel).idle_policy,
        res is Some <==> old(kernel).stack_slot_clear((old(kernel).pids.current + 1) as usize)
            && old(kernel).frames.free_count() >= KERNEL_STACK_PAGE_NUM,
        res is None ==> final(kernel).frames == old(kernel).frames && final(kernel).kernel_space
            == old(kernel).kernel_space,
        res matches Some(stack) ==> {
            let area = final(kernel).kernel_space.areas@.last();
            &&& stack.pid == old(kernel).pids.current + 1
            &&& stack.wf()
            &&& final(kernel).kernel_space.areas@.drop_last() == old(kernel).kernel_space.areas@
            &&& final(kernel).kernel_space.page_table.root_ppn == old(
                kernel,
            ).kernel_space.page_table.root_ppn
            &&& area.start_vpn * PAGE_SIZE == kernel_stack_bottom(stack.pid)
            &&& area.end_vpn * PAGE_SIZE == kernel_stack_top(stack.pid)
            &&& final(kernel).frames@ == old(kernel).frames@.union(area.ppns().to_set())
            &&& final(kernel).frames.free_count() == old(kernel).frames.free_count()
                - KERNEL_STACK_PAGE_NUM
        },
{
    let next = PidHandle(kernel.pids.current + 1);
    let res = alloc_kernel_stack(&mut kernel.kernel_space, &mut kernel.frames, next);
    proof {
        if res is Some {
            crate::frames::lemma_frames_ok_kernel_insert(
                old(kernel),
                kernel,
                VirtAddr(kernel_stack_bottom(next.0) as u64),
                VirtAddr(kernel_stack_top(next.0) as u64),
                crate::mm::memory_set::MapPermission { bits: 6 },
            );
        }
    }
    res
}

/// Gives the frames of the address space `ms`, which no process has, back
/// to the allocator.
fn drop_space(kernel: &mut Kernel, ms: MemorySet)
    requires
        old(kernel).wf(),
        ms.wf(),
        old(kernel).detached(&ms),
    ensures
        final(kernel).wf(),
        final(kernel).tasks == old(kernel).tasks,
        final(kernel).same_holders(old(kernel)),
        final(kernel).kernel_space == old(kernel).kernel_space,
        final(kernel).pids == old(kernel).pids,
        final(kernel).loader == old(kernel).loader,
        final(kernel).trampoline == old(kernel).trampoline,
        final(kernel).trap_entry == old(kernel).trap_entry,
        final(kernel).restore_entry == old(kernel).restore_entry,
        final(kernel).idle_policy == old(kernel).idle_policy,
        final(kernel).frames@ == old(kernel).frames@.difference(ms.owned()),
{
    ms.recycle(&mut kernel.frames);
    proof {
        crate::frames::lemma_frames_ok_dropped(old(kernel), kernel, &ms);
    }
}

/// Hands out the next process id for the new process `inner` with the kernel
/// stack `stack`, and takes the process in.
fn enroll(kernel: &mut Kernel, stack: KernelStack, inner: TaskInner, machine: &Machine) -> (pid: usize)
    requires
        old(kernel).wf(),
        old(kernel).pids.current < MAX_KERNEL_STACK_ID,
        stack.pid == old(kernel).pids.current + 1,
        stack.wf(),
        inner.wf(),
        inner.addr_space.trampoline == Some(old(kernel).trampoline),
        inner.children@.len() == 0,
        old(kernel).detached(&inner.addr_space),
    ensures
        final(kernel).wf(),
        pid == old(kernel).pids.current + 1,
        final(kernel).pids.current == pid,
        final(kernel).tasks@ == old(kernel).tasks@.push(
            Task { pid: PidHandle(pid), start_time_ms: machine.time_ms, kernel_stack: stack, inner },
        ),
        final(kernel).frames == old(kernel).frames,
        final(kernel).kernel_space == old(kernel).kernel_space,
        final(kernel).same_holders(old(kernel)),
        final(kernel).loader == old(kernel).loader,
        final(kernel).trampoline == old(kernel).trampoline,
        final(kernel).trap_entry == old(kernel).trap_entry,
        final(kernel).restore_entry == old(kernel).restore_entry,
        final(kernel).idle_policy == old(kernel).idle_policy,
        has_task(final(kernel).tasks@, pid),
{
    let pid = alloc_pid(&mut kernel.pids);
    let task = Task { pid, start_time_ms: machine.time_ms, kernel_stack: stack, inner };
    proof {
        assert forall|i: int| 0 <= i < kernel.tasks@.len() implies (#[trigger] kernel.tasks@[i]).pid.0
            < pid.0 by {
            assert(old(kernel).task_ok(&old(kernel).tasks@[i]));
        }
        assert(kernel.tasks_wf()) by {
            assert forall|i: int| 0 <= i < kernel.tasks@.len() implies kernel.task_ok(
                &#[trigger] kernel.tasks@[i],
            ) by {
                assert(old(kernel).task_ok(&old(kernel).tasks@[i]));
            }
        }
    }
    let ghost numbered = *kernel;
    proof {
        assert(numbered.frames_ok());
        assert(numbered.detached(&inner.addr_space));
    }
    kernel.take_in(task);
    pid.0
}

/// The changing part of a new process over the address space `ms` of the
/// program named `name`, to be entered at `entry` with the stack pointer at
/// `user_sp`.
fn loaded_inner(
    kernel: &Kernel,
    ms: MemorySet,
    user_sp: u64,
    entry: u64,
    name: &str,
    machine: &Machine,
    pid: usize,
) -> (inner: TaskInner)
    requires
        kernel.parts_wf(),
        1 <= pid <= MAX_KERNEL_STACK_ID,
        ms.wf(),
        ms.trampoline == Some(kernel.trampoline),
        ms.realizes(kernel.program_requests(name@)),
        user_sp == image_stack_top(kernel.program_segs(name@)),
        entry == elf_entry(kernel.program(name@)),
    ensures
        inner.wf(),
        inner.addr_space == ms,
        kernel.loaded(&inner, name@, machine, pid),
        Kernel::pristine(&inner),
{
    let ghost reqs = kernel.program_requests(name@);
    proof {
        let n = reqs.len() - 1;
        assert(MemorySet::area_realizes(&ms.areas@[n], &reqs[n]));
        assert(ms.areas@[n].contains(TRAP_CONTEXT_VPN));
        ms.lemma_area_unique(n, TRAP_CONTEXT_VPN);
    }
    let trap_ctx_ppn = ms.translate(VirtPageNum(TRAP_CONTEXT_VPN)).unwrap().ppn();
    let (_, kernel_stack_top) = crate::task::kernel_stack::kernel_stack_position(pid);
    let mut trap_cx = TrapContext::zeroed();
    trap_cx.init(
        user_sp,
        entry,
        kernel_stack_top,
        kernel.kernel_space.token(),
        kernel.trap_entry,
        machine.sstatus,
    );
    TaskInner {
        trap_ctx_ppn,
        trap_cx,
        state: TaskState::Ready,
        syscall_times: [0u32; MAX_SYSCALL_NUM],
        addr_space: ms,
        children: Vec::new(),
        exit_code: 0,
        name: name.to_owned(),
        priority: DEFAULT_PRIORITY,
        pass: 0,
        fd_table: initial_fd_table(),
    }
}

impl Task {
    /// Makes a process from the program named `name`: the next process id, a
    /// kernel stack, the address space of the image, and registers set to
    /// enter the program. The process is live and ready but in no queue.
    /// `None` where it cannot be made; then no frame is taken and nothing else
    /// changes.
    pub fn new(kernel: &mut Kernel, name: &str, machine: &Machine) -> (res: Option<usize>)
        requires
            old(kernel).wf(),
        ensures
            final(kernel).wf(),
            final(kernel).created(old(kernel), name@, machine, res),
    {
        if kernel.pids.current >= MAX_KERNEL_STACK_ID {
            return None;
        }
        let (ms, user_sp, entry) = match load_program(kernel, name) {
            None => {
                return None;
            },
            Some(loaded) => loaded,
        };
        let kernel_stack = match place_stack(kernel) {
            None => {
                drop_space(kernel, ms);
                proof {
                    assert(kernel.frames@ =~= old(kernel).frames@);
                }
                return None;
            },
            Some(stack) => stack,
        };
        let inner = loaded_inner(kernel, ms, user_sp, entry, name, machine, kernel.pids.current + 1);
        let pid = enroll(kernel, kernel_stack, inner, machine);
        proof {
            assert(kernel.tasks@.drop_last() =~= old(kernel).tasks@);
            assert(old(kernel).loaded(&kernel.tasks@.last().inner, name@, machine, pid));
        }
        Some(pid)
    }

    /// Replaces the program of the live process `pid` by the program named
    /// `name`: a new address space and registers set to enter the program,
    /// with the process id, the kernel stack, the children, the open files and
    /// the scheduling state kept. The frames of the old address space go back
    /// to the allocator. `Err`, with nothing changed, where the process is not
    /// live or the program cannot be loaded.
    pub fn exec(kernel: &mut Kernel, pid: usize, name: &str, machine: &Machine) -> (res: Result<
        (),
        (),
    >)
        requires
            old(kernel).wf(),
        ensures
            final(kernel).wf(),
            final(kernel).same_holders(old(kernel)),
            final(kernel).kernel_space == old(kernel).kernel_space,
            final(kernel).pids == old(kernel).pids,
            final(kernel).loader == old(kernel).loader,
            final(kernel).trampoline == old(kernel).trampoline,
            final(kernel).trap_entry == old(kernel).trap_entry,
            final(kernel).restore_entry == old(kernel).restore_entry,
            final(kernel).idle_policy == old(kernel).idle_policy,
            res is Ok <==> old(kernel).live(pid) && old(kernel).can_load(name@),
            res is Err ==> final(kernel).tasks == old(kernel).tasks && final(kernel).frames@ == old(
                kernel,
            ).frames@,
            res is Ok ==> final(kernel).execed(old(kernel), pid, name@, machine),
    {
        let idx = match kernel.find(pid) {
            None => {
                return Err(());
            },
            Some(idx) => idx,
        };
        let (ms, user_sp, entry) = match load_program(kernel, name) {
            None => {
                return Err(());
            },
            Some(loaded) => loaded,
        };
        proof {
            assert(old(kernel).task_ok(&old(kernel).tasks@[idx as int]));
        }
        let fresh = loaded_inner(kernel, ms, user_sp, entry, name, machine, pid);
        let previous = kernel.tasks.remove(idx);
        let task = Task {
            pid: previous.pid,
            start_time_ms: previous.start_time_ms,
            kernel_stack: previous.kernel_stack,
            inner: TaskInner {
                trap_ctx_ppn: fresh.trap_ctx_ppn,
                trap_cx: fresh.trap_cx,
                state: fresh.state,
                syscall_times: previous.inner.syscall_times,
                addr_space: fresh.addr_space,
                children: previous.inner.children,
                exit_code: previous.inner.exit_code,
                name: fresh.name,
                priority: previous.inner.priority,
                pass: previous.inner.pass,
                fd_table: previous.inner.fd_table,
            },
        };
        kernel.tasks.insert(idx, task);
        previous.inner.addr_space.recycle(&mut kernel.frames);
        proof {
            assert(kernel.tasks@ =~= old(kernel).tasks@.update(idx as int, kernel.tasks@[idx as int]));
            lemma_update_keeps(old(kernel), kernel, idx as int);
            crate::frames::lemma_frames_ok_task_changed(
                old(kernel),
                kernel,
                idx as int,
                old(kernel).tasks@[idx as int].inner.addr_space.owned(),
                kernel.tasks@[idx as int].inner.addr_space.owned(),
            );
            assert(kernel.all_live(kernel.manager.task_list@) == old(kernel).all_live(
                kernel.manager.task_list@,
            ));
            assert(kernel.all_live(kernel.batch@) == old(kernel).all_live(kernel.batch@));
            assert(old(kernel).loaded(&kernel.tasks@[idx as int].inner, name@, machine, pid));
        }
        Ok(())
    }

    /// Makes a process from the program named `name`, as [`Task::new`] does.
    pub fn spawn(kernel: &mut Kernel, name: &str, machine: &Machine) -> (res: Result<usize, ()>)
        requires
            old(kernel).wf(),
        ensures
            final(kernel).wf(),
            final(kernel).created(
                old(kernel),
                name@,
                machine,
                match res {
                    Ok(pid) => Some(pid),
                    Err(_) => None,
                },
            ),
    {
        match Task::new(kernel, name, machine) {
            None => Err(()),
            Some(pid) => Ok(pid),
        }
    }
}

/// A copy of the file table `table`.
pub fn copy_fd_table(table: &Vec<Option<OpenFile>>) -> (out: Vec<Option<OpenFile>>)
    ensures
        out@ == table@,
{
    let mut out: Vec<Option<OpenFile>> = Vec::new();
    let mut i: usize = 0;
    while i < table.len()
        invariant
            i <= table@.len(),
            out@ == table@.take(i as int),
        decreases table.len() - i,
    {
        out.push(table[i]);
        proof {
            assert(out@ =~= table@.take(i + 1));
        }
        i += 1;
    }
    proof {
        assert(table@.take(table@.len() as int) =~= table@);
    }
    out
}

impl Kernel {
    /// Whether the live process `parent` can be copied now: the next process
    /// id has a kernel stack slot, which is clear; the parent has its trap
    /// context page; and the allocator has the frames for the copy of the
    /// address space and for the kernel stack.
    pub open spec fn can_fork(&self, parent: usize) -> bool {
        &&& self.live(parent)
        &&& self.pids.current < MAX_KERNEL_STACK_ID
        &&& self.task(parent).inner.addr_space.covered(TRAP_CONTEXT_VPN)
        &&& self.stack_slot_clear((self.pids.current + 1) as usize)
        &&& self.frames.free_count() >= 1 + self.task(parent).inner.addr_space.framed_pages()
            + KERNEL_STACK_PAGE_NUM
    }

    /// Whether `child` is a fresh copy of `parent` with process id `pid`: the
    /// same name, the same bytes at every address, the same open files, and
    /// the same registers but for the return value, which is 0, and the kernel
    /// stack pointer, which is the top of the child's own kernel stack.
    pub open spec fn forked(parent: &Task, child: &Task, machine: &Machine, pid: usize) -> bool {
        &&& child.pid.0 == pid
        &&& child.kernel_stack.pid == pid
        &&& child.start_time_ms == machine.time_ms
        &&& child.inner.name@ == parent.inner.name@
        &&& child.inner.state == TaskState::Ready
        &&& child.inner.fd_table@ == parent.inner.fd_table@
        &&& child.inner.children@.len() == 0
        &&& child.inner.exit_code == 0
        &&& child.inner.priority == DEFAULT_PRIORITY
        &&& child.inner.pass == 0
        &&& forall|n: int| 0 <= n < MAX_SYSCALL_NUM ==> #[trigger] child.inner.syscall_times@[n] == 0
        &&& child.inner.trap_cx == (TrapContext {
            x: child.inner.trap_cx.x,
            kernel_sp: kernel_stack_top(pid) as u64,
            ..parent.inner.trap_cx
        })
        &&& child.inner.trap_cx.x@ == parent.inner.trap_cx.x@.update(10, 0)
        &&& child.inner.addr_space.wf()
        &&& child.inner.addr_space.trampoline == parent.inner.addr_space.trampoline
        &&& child.inner.addr_space.realizes(parent.inner.addr_space.copy_specs())
        &&& forall|va: u64| #[trigger]
            child.inner.addr_space.byte_at(va) == parent.inner.addr_space.byte_at(va)
        &&& child.inner.addr_space.page_table@.contains_key(TRAP_CONTEXT_VPN)
        &&& child.inner.trap_ctx_ppn == child.inner.addr_space.page_table@[TRAP_CONTEXT_VPN].spec_ppn()
    }
}

/// The copy of `parent` with process id `pid` over the copied address space
/// `ms` and the kernel stack `kernel_stack`.
fn forked_task(
    parent: &Task,
    ms: MemorySet,
    kernel_stack: crate::task::kernel_stack::KernelStack,
    pid: PidHandle,
    machine: &Machine,
) -> (child: Task)
    requires
        parent.wf(),
        ms.wf(),
        ms.trampoline == parent.inner.addr_space.trampoline,
        ms.realizes(parent.inner.addr_space.copy_specs()),
        forall|va: u64| #[trigger] ms.byte_at(va) == parent.inner.addr_space.byte_at(va),
        ms.covered(TRAP_CONTEXT_VPN),
        kernel_stack.pid == pid.0,
        kernel_stack.wf(),
        pid.0 >= 1,
    ensures
        child.wf(),
        child.inner.addr_space == ms,
        child.kernel_stack == kernel_stack,
        Kernel::forked(parent, &child, machine, pid.0),
{
    let trap_ctx_ppn = ms.translate(VirtPageNum(TRAP_CONTEXT_VPN)).unwrap().ppn();
    let (_, kernel_stack_top) = crate::task::kernel_stack::kernel_stack_position(pid.0);
    let mut trap_cx = parent.inner.trap_cx;
    trap_cx.set_reg_a(0, 0);
    trap_cx.kernel_sp = kernel_stack_top;
    Task {
        pid,
        start_time_ms: machine.time_ms,
        kernel_stack,
        inner: TaskInner {
            trap_ctx_ppn,
            trap_cx,
            state: TaskState::Ready,
            syscall_times: [0u32; MAX_SYSCALL_NUM],
            addr_space: ms,
            children: Vec::new(),
            exit_code: 0,
            name: parent.inner.name.clone(),
            priority: DEFAULT_PRIORITY,
            pass: 0,
            fd_table: copy_fd_table(&parent.inner.fd_table),
        },
    }
}

/// Makes a copy of the live process `parent`: a new process id and kernel
/// stack, a deep copy of the address space, the parent's registers with
/// return value 0, and the parent's open files. The child is live, ready, and
/// at the back of the ready queue. `None` where the copy cannot be made; then
/// no frame is taken and nothing else changes.
pub fn fork_task(kernel: &mut Kernel, parent: usize, machine: &Machine) -> (res: Option<usize>)
    requires
        old(kernel).wf(),
    ensures
        final(kernel).wf(),
        final(kernel).processor == old(kernel).processor,
        final(kernel).batch == old(kernel).batch,
        final(kernel).manager.next_task == old(kernel).manager.next_task,
        final(kernel).loader == old(kernel).loader,
        final(kernel).trampoline == old(kernel).trampoline,
        final(kernel).trap_entry == old(kernel).trap_entry,
        final(kernel).restore_entry == old(kernel).restore_entry,
        final(kernel).idle_policy == old(kernel).idle_policy,
        res is Some <==> old(kernel).can_fork(parent),
        res is None ==> {
            &&& final(kernel).tasks == old(kernel).tasks
            &&& final(kernel).manager == old(kernel).manager
            &&& final(kernel).kernel_space == old(kernel).kernel_space
            &&& final(kernel).pids == old(kernel).pids
            &&& final(kernel).frames@ == old(kernel).frames@
        },
        res matches Some(pid) ==> {
            let child = final(kernel).tasks@.last();
            let stack = final(kernel).kernel_space.areas@.last();
            &&& pid == old(kernel).pids.current + 1
            &&& final(kernel).pids.current == pid
            &&& final(kernel).tasks@.len() == old(kernel).tasks@.len() + 1
            &&& final(kernel).tasks@.drop_last() == old(kernel).tasks@
            &&& Kernel::forked(&old(kernel).task(parent), &child, machine, pid)
            &&& child.inner.addr_space.fresh_for(old(kernel).frames@)
            &&& final(kernel).manager.task_list@ == old(kernel).manager.task_list@.push(pid)
            &&& final(kernel).kernel_space.areas@.drop_last() == old(kernel).kernel_space.areas@
            &&& final(kernel).kernel_space.page_table.root_ppn == old(
                kernel,
            ).kernel_space.page_table.root_ppn
            &&& stack.start_vpn * PAGE_SIZE == kernel_stack_bottom(pid)
            &&& stack.end_vpn * PAGE_SIZE == kernel_stack_top(pid)
            &&& final(kernel).frames@ == old(kernel).frames@.union(
                child.inner.addr_space.owned(),
            ).union(stack.ppns().to_set())
        },
{
    let idx = match kernel.find(parent) {
        None => {
            return None;
        },
        Some(idx) => idx,
    };
    if kernel.pids.current >= MAX_KERNEL_STACK_ID {
        return None;
    }
    proof {
        assert(kernel.task_ok(&kernel.tasks@[idx as int]));
    }
    if kernel.tasks[idx].inner.addr_space.find_area(VirtPageNum(TRAP_CONTEXT_VPN)).is_none() {
        return None;
    }
    let ms = match MemorySet::from_existed_user(&kernel.tasks[idx].inner.addr_space, &mut kernel.frames) {
        None => {
            return None;
        },
        Some(ms) => ms,
    };
    let ghost copied = *kernel;
    proof {
        assert(kernel.tasks@ =~= old(kernel).tasks@);
        crate::frames::lemma_detached_fresh(old(kernel), kernel, &ms);
    }
    let kernel_stack = match place_stack(kernel) {
        None => {
            drop_space(kernel, ms);
            proof {
                assert(kernel.frames@ =~= old(kernel).frames@);
            }
            return None;
        },
        Some(stack) => stack,
    };
    proof {
        assert(copied.detached(&ms));
        assert(kernel.detached(&ms));
    }
    let child = forked_task(
        &kernel.tasks[idx],
        ms,
        kernel_stack,
        PidHandle(kernel.pids.current + 1),
        machine,
    );
    let pid0 = enroll(kernel, child.kernel_stack, child.inner, machine);
    let pid = PidHandle(pid0);
    proof {
        assert(kernel.tasks@.drop_last() =~= old(kernel).tasks@);
    }
    let ghost enrolled = *kernel;
    kernel.manager.add_task(pid.0);
    proof {
        assert(enrolled.frames_ok());
        assert forall|k: int| 0 <= k < kernel.manager.task_list@.len() implies has_task(
            kernel.tasks@,
            #[trigger] kernel.manager.task_list@[k],
        ) by {
            if k < old(kernel).manager.task_list@.len() {
                assert(has_task(old(kernel).tasks@, old(kernel).manager.task_list@[k]));
            }
        }
    }
    Some(pid.0)
}

} // verus!
