//! The process control block.
use vstd::prelude::*;
use crate::config::MAX_SYSCALL_NUM;
use crate::mm::address::PhysPageNum;
use crate::mm::memory_set::MemorySet;
use crate::task::kernel_stack::KernelStack;
use crate::task::pid::PidHandle;
use crate::trap::context::TrapContext;

verus! {

/// Where a process is in its life.
#[derive(Clone, Copy, Debug, PartialEq, Eq, Structural)]
pub enum TaskState {
    UnInit,
    Ready,
    Running,
    Exited,
}

impl Default for TaskState {
    fn default() -> (s: TaskState)
        ensures
            s == TaskState::UnInit,
    {
        TaskState::UnInit
    }
}

/// The priority that a process starts with.
pub const DEFAULT_PRIORITY: u64 = 16;

/// One open file of a process: which file of the file layer it is, and
/// whether it may be read and written.
#[derive(Clone, Copy, Debug, PartialEq, Eq, Structural)]
pub struct OpenFile {
    pub file: usize,
    pub readable: bool,
    pub writable: bool,
}

/// The console input, open in slot 0 of every process.
pub open spec fn spec_stdin() -> OpenFile {
    OpenFile { file: 0, readable: true, writable: false }
}

/// The console output, open in slot 1 of every process.
pub open spec fn spec_stdout() -> OpenFile {
    OpenFile { file: 1, readable: false, writable: true }
}

/// The file table that a process starts with: console input, then console output.
pub fn initial_fd_table() -> (table: Vec<Option<OpenFile>>)
    ensures
        table@ == seq![Some(spec_stdin()), Some(spec_stdout())],
{
    let mut v: Vec<Option<OpenFile>> = Vec::new();
    v.push(Some(OpenFile { file: 0, readable: true, writable: false }));
    v.push(Some(OpenFile { file: 1, readable: false, writable: true }));
    assert(v@ =~= seq![Some(spec_stdin()), Some(spec_stdout())]);
    v
}

/// The part of a process that changes while it lives.
pub struct TaskInner {
    pub trap_ctx_ppn: PhysPageNum,
    pub trap_cx: TrapContext,
    pub state: TaskState,
    pub syscall_times: [u32; MAX_SYSCALL_NUM],
    pub addr_space: MemorySet,
    pub children: Vec<usize>,
    pub exit_code: i32,
    pub name: String,
    pub priority: u64,
    pub pass: u64,
    pub fd_table: Vec<Option<OpenFile>>,
}

impl TaskInner {
    /// The address space is sound, the priority is at least 2, and the frame
    /// of the trap context is a frame number.
    pub open spec fn wf(&self) -> bool {
        self.addr_space.wf() && self.priority >= 2 && self.trap_ctx_ppn.0 <= crate::config::PPN_MASK
    }

    /// Sets the state.
    pub fn set_state(&mut self, state: TaskState)
        ensures
            *final(self) == (TaskInner { state, ..*old(self) }),
    {
        self.state = state
    }

    /// The physical address behind virtual address `va`, where `va` is mapped.
    pub open spec fn spec_translate(&self, va: u64) -> Option<u64> {
        if self.addr_space.page_table@.contains_key(va / crate::config::PAGE_SIZE) {
            Some(
                (self.addr_space.page_table@[va / crate::config::PAGE_SIZE].spec_ppn().0
                    * crate::config::PAGE_SIZE + va % crate::config::PAGE_SIZE) as u64,
            )
        } else {
            None
        }
    }

    /// The physical address behind virtual address `va`, or `None` where `va`
    /// is not mapped.
    pub fn translate(&self, va: u64) -> (res: Option<u64>)
        requires
            self.wf(),
        ensures
            res == self.spec_translate(va),
    {
        let va = crate::mm::address::VirtAddr(va);
        match self.addr_space.translate(va.floor()) {
            None => None,
            Some(entry) => {
                let ppn = entry.ppn();
                Some(ppn.0 * crate::config::PAGE_SIZE + va.page_offset())
            },
        }
    }

    /// The saved registers of the process.
    pub fn trap_context(&mut self) -> (cx: &mut TrapContext)
        ensures
            *cx == old(self).trap_cx,
            *final(self) == (TaskInner { trap_cx: *final(cx), ..*old(self) }),
    {
        &mut self.trap_cx
    }
}

/// One process: its identity and kernel stack, which never change, and the rest.
pub struct Task {
    pub pid: PidHandle,
    pub start_time_ms: usize,
    pub kernel_stack: KernelStack,
    pub inner: TaskInner,
}

impl Task {
    /// The kernel stack is that of the process id, and the inner part is sound.
    pub open spec fn wf(&self) -> bool {
        &&& self.pid.0 >= 1
        &&& self.kernel_stack.pid == self.pid.0
        &&& self.kernel_stack.wf()
        &&& self.inner.wf()
    }
}

/// Whether a process with id `pid` is in `tasks`.
pub open spec fn has_task(tasks: Seq<Task>, pid: usize) -> bool {
    exists|i: int| 0 <= i < tasks.len() && (#[trigger] tasks[i]).pid.0 == pid
}

/// The index of the first process with id `pid` in `tasks`, where there is one.
#[verifier::opaque]
pub open spec fn task_index(tasks: Seq<Task>, pid: usize) -> int {
    choose|i: int|
        0 <= i < tasks.len() && (#[trigger] tasks[i]).pid.0 == pid && forall|j: int|
            0 <= j < i ==> (#[trigger] tasks[j]).pid.0 != pid
}

/// The first process with id `pid` is in `tasks` at `task_index`.
pub proof fn lemma_task_index(tasks: Seq<Task>, pid: usize)
    requires
        has_task(tasks, pid),
    ensures
        0 <= task_index(tasks, pid) < tasks.len(),
        tasks[task_index(tasks, pid)].pid.0 == pid,
        forall|j: int| 0 <= j < task_index(tasks, pid) ==> (#[trigger] tasks[j]).pid.0 != pid,
{
    reveal(task_index);
    let w = choose|i: int| 0 <= i < tasks.len() && (#[trigger] tasks[i]).pid.0 == pid;
    lemma_first_task(tasks, pid, w);
}

/// Below any process with id `pid` there is a first one.
proof fn lemma_first_task(tasks: Seq<Task>, pid: usize, w: int)
    requires
        0 <= w < tasks.len(),
        tasks[w].pid.0 == pid,
    ensures
        exists|i: int|
            0 <= i <= w && (#[trigger] tasks[i]).pid.0 == pid && forall|j: int|
                0 <= j < i ==> (#[trigger] tasks[j]).pid.0 != pid,
    decreases w,
{
    if exists|k: int| 0 <= k < w && (#[trigger] tasks[k]).pid.0 == pid {
        let k = choose|k: int| 0 <= k < w && (#[trigger] tasks[k]).pid.0 == pid;
        lemma_first_task(tasks, pid, k);
    }
}

/// The index of the first process with id `pid`, or `None` where there is none.
pub fn find_task(tasks: &Vec<Task>, pid: usize) -> (res: Option<usize>)
    ensures
        res is Some <==> has_task(tasks@, pid),
        res matches Some(i) ==> i == task_index(tasks@, pid) && i < tasks@.len()
            && tasks@[i as int].pid.0 == pid,
{
    let mut i: usize = 0;
    while i < tasks.len()
        invariant
            i <= tasks@.len(),
            forall|j: int| 0 <= j < i ==> (#[trigger] tasks@[j]).pid.0 != pid,
        decreases tasks.len() - i,
    {
        if tasks[i].pid.0 == pid {
            proof {
                lemma_task_index(tasks@, pid);
            }
            return Some(i);
        }
        i += 1;
    }
    None
}

} // verus!
