//! The system calls that control processes.
use vstd::prelude::*;
use crate::config::MAX_SYSCALL_NUM;
use crate::kernel::{lemma_task_at, lemma_update_keeps, IdlePolicy, Kernel, Machine};
use crate::syscall::pointer::{
    copy_out, cstring_at, le_seq, lemma_le_seq_len, push_le, user_cstring,
};
use crate::syscall::SyscallResult;
use crate::task::create::fork_task;
use crate::task::manager::{is_selected, selected_index};
use crate::task::schedule::{advanced, run_next_task, switch_task, with_state, Dispatch};
use crate::task::task::{has_task, lemma_task_index, task_index, Task, TaskInner, TaskState};

verus! {

/// Process `t` after it exited with `exit_code`.
pub open spec fn exited(t: Task, exit_code: i32) -> Task {
    Task { inner: TaskInner { state: TaskState::Exited, exit_code, ..t.inner }, ..t }
}

/// Process `t` with priority `priority`.
pub open spec fn with_priority(t: Task, priority: u64) -> Task {
    Task { inner: TaskInner { priority, ..t.inner }, ..t }
}

/// Process `t` with `child` added to its children.
pub open spec fn with_child(t: Task, after: Task, child: usize) -> bool {
    &&& after.pid == t.pid
    &&& after.start_time_ms == t.start_time_ms
    &&& after.kernel_stack == t.kernel_stack
    &&& after.inner.children@ == t.inner.children@.push(child)
    &&& after.inner == (TaskInner { children: after.inner.children, ..t.inner })
}

/// Whether `res` and `k_new` are what [`sys_yield`] gives for these arguments
/// and makes of `k_old`.
pub open spec fn sys_yield_post(
    k_old: &Kernel,
    k_new: &Kernel,
    task: usize,
    res: Dispatch,
) -> bool {
    &&& k_new.same_parts(k_old)
    &&& !k_old.live(task) ==> res == Dispatch::NoSuchTask && *k_new == *k_old
    &&& k_old.live(task) ==> {
        let tasks = k_old.tasks@.update(
            task_index(k_old.tasks@, task),
            advanced(with_state(k_old.task(task), TaskState::Ready)),
        );
        let queue = k_old.manager.task_list@.push(task);
        let m = selected_index(queue, tasks);
        let next = queue[m];
        &&& is_selected(queue, tasks, m)
        &&& has_task(tasks, next)
        &&& res matches Dispatch::Run(entry)
        &&& entry == k_new.user_entry(next)
        &&& k_new.manager.task_list@ == queue.remove(m)
        &&& k_new.batch == k_old.batch
        &&& k_new.processor.cur_task == Some(next)
        &&& k_new.tasks@ == tasks.update(
            task_index(tasks, next),
            with_state(tasks[task_index(tasks, next)], TaskState::Running),
        )
    }
}

/// The running process `task` gives up the core of its own accord: it is
/// ready, its pass advances, it goes to the back of the ready queue, and the
/// next process is picked and handed the core.
pub fn sys_yield(kernel: &mut Kernel, task: usize) -> (res: Dispatch)
    requires
        old(kernel).wf(),
    ensures
        final(kernel).wf(),
        sys_yield_post(old(kernel), final(kernel), task, res),
{
    let idx = match kernel.find(task) {
        None => {
            return Dispatch::NoSuchTask;
        },
        Some(idx) => idx,
    };
    kernel.tasks[idx].inner.set_state(TaskState::Ready);
    proof {
        assert(old(kernel).task_ok(&old(kernel).tasks@[idx as int]));
        assert(kernel.tasks@ =~= old(kernel).tasks@.update(
            idx as int,
            with_state(old(kernel).task(task), TaskState::Ready),
        ));
        lemma_update_keeps(old(kernel), kernel, idx as int);
        crate::frames::lemma_frames_ok_update(old(kernel), kernel, idx as int);
        assert(kernel.all_live(kernel.manager.task_list@) == old(kernel).all_live(
            kernel.manager.task_list@,
        ));
        assert(kernel.all_live(kernel.batch@) == old(kernel).all_live(kernel.batch@));
        lemma_task_at(kernel.tasks@, idx as int);
    }
    let ghost mid = *kernel;
    let res = switch_task(kernel, task);
    proof {
        assert(mid.tasks@.update(idx as int, advanced(mid.task(task))) =~= old(kernel).tasks@.update(
            idx as int,
            advanced(with_state(old(kernel).task(task), TaskState::Ready)),
        ));
    }
    res
}

/// Whether `res` and `k_new` are what [`sys_exit`] gives for these arguments
/// and makes of `k_old`.
pub open spec fn sys_exit_post(
    k_old: &Kernel,
    k_new: &Kernel,
    task: usize,
    exit_code: i32,
    res: Dispatch,
) -> bool {
    &&& k_new.same_parts(k_old)
    &&& k_new.manager.next_task == k_old.manager.next_task
    &&& !k_old.live(task) ==> res == Dispatch::NoSuchTask && *k_new == *k_old
    &&& k_old.live(task) ==> {
        let tasks = k_old.tasks@.update(
            task_index(k_old.tasks@, task),
            exited(k_old.task(task), exit_code),
        );
        let queue = k_old.manager.task_list@;
        if queue.len() == 0 {
            &&& res == if k_old.idle_policy == IdlePolicy::Halt {
                Dispatch::Halt
            } else {
                Dispatch::Idle
            }
            &&& k_new.tasks@ == tasks
            &&& k_new.processor == k_old.processor
            &&& k_new.manager.task_list@ == queue
            &&& k_new.batch@ == if k_old.idle_policy == IdlePolicy::Halt {
                Seq::<usize>::empty()
            } else {
                k_old.batch@
            }
        } else {
            let m = selected_index(queue, tasks);
            let next = queue[m];
            &&& is_selected(queue, tasks, m)
            &&& has_task(tasks, next)
            &&& res matches Dispatch::Run(entry)
            &&& entry == k_new.user_entry(next)
            &&& k_new.manager.task_list@ == queue.remove(m)
            &&& k_new.batch == k_old.batch
            &&& k_new.processor.cur_task == Some(next)
            &&& k_new.tasks@ == tasks.update(
                task_index(tasks, next),
                with_state(tasks[task_index(tasks, next)], TaskState::Running),
            )
        }
    }
}

/// The process `task`, which was taken off the core, exits with `exit_code`:
/// its state is exited and the code is kept for its parent. Its memory stays
/// until it is reaped. The next process is picked and handed the core.
pub fn sys_exit(kernel: &mut Kernel, task: usize, exit_code: i32) -> (res: Dispatch)
    requires
        old(kernel).wf(),
    ensures
        final(kernel).wf(),
        sys_exit_post(old(kernel), final(kernel), task, exit_code, res),
{
    let idx = match kernel.find(task) {
        None => {
            return Dispatch::NoSuchTask;
        },
        Some(idx) => idx,
    };
    kernel.tasks[idx].inner.set_state(TaskState::Exited);
    kernel.tasks[idx].inner.exit_code = exit_code;
    proof {
        assert(old(kernel).task_ok(&old(kernel).tasks@[idx as int]));
        assert(kernel.tasks@ =~= old(kernel).tasks@.update(
            idx as int,
            exited(old(kernel).task(task), exit_code),
        ));
        lemma_update_keeps(old(kernel), kernel, idx as int);
        crate::frames::lemma_frames_ok_update(old(kernel), kernel, idx as int);
        assert(kernel.all_live(kernel.manager.task_list@) == old(kernel).all_live(
            kernel.manager.task_list@,
        ));
        assert(kernel.all_live(kernel.batch@) == old(kernel).all_live(kernel.batch@));
    }
    let ghost mid = *kernel;
    let res = run_next_task(kernel);
    proof {
        if mid.manager.task_list@.len() > 0 {
            let m = selected_index(mid.manager.task_list@, mid.tasks@);
            let next = mid.manager.task_list@[m];
            assert(has_task(mid.tasks@, next));
            lemma_task_index(mid.tasks@, next);
            let j = task_index(mid.tasks@, next);
            assert(kernel.tasks@[j].pid.0 == next);
            lemma_task_at(kernel.tasks@, j);
            assert(kernel.task(next).inner.addr_space == mid.task(next).inner.addr_space);
        }
    }
    res
}

/// Whether `res` is what [`sys_getpid`] gives for these arguments in `k_old`.
pub open spec fn sys_getpid_post(
    k_old: &Kernel,
    task: usize,
    res: SyscallResult,
) -> bool {
    &&& res is Ok <==> k_old.live(task)
    &&& res matches Ok(v) ==> v == task
}

/// The id of process `task`; `Err` where it is not live.
pub fn sys_getpid(kernel: &Kernel, task: usize) -> (res: SyscallResult)
    requires
        kernel.wf(),
    ensures
        sys_getpid_post(kernel, task, res),
{
    match kernel.find(task) {
        None => Err(()),
        Some(idx) => {
            assert(kernel.task_ok(&kernel.tasks@[idx as int]));
            Ok(kernel.tasks[idx].pid.0 as i64)
        },
    }
}

/// Whether `res` and `k_new` are what [`sys_set_priority`] gives for these arguments
/// and makes of `k_old`.
pub open spec fn sys_set_priority_post(
    k_old: &Kernel,
    k_new: &Kernel,
    task: usize,
    priority: i64,
    res: SyscallResult,
) -> bool {
    &&& res is Ok <==> k_old.live(task) && priority > 1
    &&& res is Err ==> *k_new == *k_old
    &&& res matches Ok(v) ==> {
        &&& v == priority
        &&& k_new.only_inner_changed(k_old, task)
        &&& k_new.frames == k_old.frames
        &&& k_new.task(task) == with_priority(k_old.task(task), priority as u64)
    }
}

/// Sets the priority of process `task` to `priority`, which must be more
/// than 1, and gives it back. Otherwise the call is refused and nothing changes.
pub fn sys_set_priority(kernel: &mut Kernel, task: usize, priority: i64) -> (res: SyscallResult)
    requires
        old(kernel).wf(),
    ensures
        final(kernel).wf(),
        sys_set_priority_post(old(kernel), final(kernel), task, priority, res),
{
    let idx = match kernel.find(task) {
        None => {
            return Err(());
        },
        Some(idx) => idx,
    };
    if priority > 1 {
        kernel.tasks[idx].inner.priority = priority as u64;
        proof {
            assert(old(kernel).task_ok(&old(kernel).tasks@[idx as int]));
            assert(kernel.tasks@ =~= old(kernel).tasks@.update(
                idx as int,
                with_priority(old(kernel).task(task), priority as u64),
            ));
            lemma_update_keeps(old(kernel), kernel, idx as int);
            crate::frames::lemma_frames_ok_update(old(kernel), kernel, idx as int);
            assert(kernel.all_live(kernel.manager.task_list@) == old(kernel).all_live(
                kernel.manager.task_list@,
            ));
            assert(kernel.all_live(kernel.batch@) == old(kernel).all_live(kernel.batch@));
            lemma_task_at(kernel.tasks@, idx as int);
        }
        Ok(priority)
    } else {
        Err(())
    }
}

/// Whether `res` and `k_new` are what [`sys_fork`] gives for these arguments
/// and makes of `k_old`.
pub open spec fn sys_fork_post(
    k_old: &Kernel,
    k_new: &Kernel,
    task: usize,
    machine: &Machine,
    res: SyscallResult,
) -> bool {
    &&& k_new.processor == k_old.processor
    &&& k_new.batch == k_old.batch
    &&& k_new.loader == k_old.loader
    &&& k_new.trampoline == k_old.trampoline
    &&& k_new.trap_entry == k_old.trap_entry
    &&& k_new.restore_entry == k_old.restore_entry
    &&& k_new.idle_policy == k_old.idle_policy
    &&& res is Ok <==> k_old.can_fork(task)
    &&& res is Err ==> {
        &&& k_new.tasks == k_old.tasks
        &&& k_new.manager == k_old.manager
        &&& k_new.kernel_space == k_old.kernel_space
        &&& k_new.pids == k_old.pids
        &&& k_new.frames@ == k_old.frames@
    }
    &&& res matches Ok(v) ==> {
        let idx = task_index(k_old.tasks@, task);
        let child = k_new.tasks@.last();
        &&& v == k_old.pids.current + 1
        &&& v > task
        &&& k_new.pids.current == v
        &&& k_new.tasks@.len() == k_old.tasks@.len() + 1
        &&& k_new.tasks@.drop_last() == k_old.tasks@.update(
            idx,
            k_new.tasks@[idx],
        )
        &&& with_child(k_old.task(task), k_new.tasks@[idx], v as usize)
        &&& Kernel::forked(&k_old.task(task), &child, machine, v as usize)
        &&& child.inner.addr_space.fresh_for(k_old.frames@)
        &&& k_new.manager.task_list@ == k_old.manager.task_list@.push(v as usize)
        &&& k_new.kernel_space.areas@.drop_last() == k_old.kernel_space.areas@
    }
}

/// Copies the process `task`. The copy is a child of `task`, live, ready and
/// queued; in it the call gives 0. In `task` the call gives the id of the
/// child, which is greater than every id so far. The call is refused, with no
/// process made and no frame taken, where the copy cannot be made.
pub fn sys_fork(kernel: &mut Kernel, task: usize, machine: &Machine) -> (res: SyscallResult)
    requires
        old(kernel).wf(),
    ensures
        final(kernel).wf(),
        sys_fork_post(old(kernel), final(kernel), task, machine, res),
{
    let child = match fork_task(kernel, task, machine) {
        None => {
            return Err(());
        },
        Some(child) => child,
    };
    let ghost mid = *kernel;
    proof {
        lemma_task_index(old(kernel).tasks@, task);
        let i = task_index(old(kernel).tasks@, task);
        assert(mid.tasks@.drop_last()[i] == mid.tasks@[i]);
        assert(mid.tasks@[i].pid.0 == task);
    }
    let idx = kernel.find(task).unwrap();
    proof {
        lemma_task_index(old(kernel).tasks@, task);
        let i = task_index(old(kernel).tasks@, task);
        assert(mid.tasks@.drop_last()[i] == mid.tasks@[i]);
        lemma_task_at(mid.tasks@, i);
        assert(idx == i);
        assert(old(kernel).task_ok(&old(kernel).tasks@[i]));
        assert(mid.task_ok(&mid.tasks@[idx as int]));
    }
    kernel.tasks[idx].inner.children.push(child);
    proof {
        assert(kernel.tasks@ =~= mid.tasks@.update(idx as int, kernel.tasks@[idx as int]));
        assert(mid.tasks@.last().pid.0 == child);
        assert(has_task(mid.tasks@, child));
        assert forall|k: int|
            0 <= k < kernel.tasks@[idx as int].inner.children@.len() implies has_task(
            mid.tasks@,
            #[trigger] kernel.tasks@[idx as int].inner.children@[k],
        ) by {
            if k < mid.tasks@[idx as int].inner.children@.len() {
                assert(has_task(mid.tasks@, mid.tasks@[idx as int].inner.children@[k]));
            }
        }
        lemma_update_keeps(&mid, kernel, idx as int);
        crate::frames::lemma_frames_ok_update(&mid, kernel, idx as int);
        assert(kernel.all_live(kernel.manager.task_list@) == mid.all_live(kernel.manager.task_list@));
        assert(kernel.all_live(kernel.batch@) == mid.all_live(kernel.batch@));
        assert(kernel.tasks@.drop_last() =~= old(kernel).tasks@.update(
            idx as int,
            kernel.tasks@[idx as int],
        ));
    }
    Ok(child as i64)
}

/// Whether `child` is a child that a wait for `target` asks about: any child
/// where `target` is -1, else the child with id `target`.
pub open spec fn child_matches(child: usize, target: i64) -> bool {
    target == -1 || child as int == target as int
}

/// Whether the live process `child` has exited.
pub open spec fn child_exited(tasks: Seq<Task>, child: usize) -> bool {
    tasks[task_index(tasks, child)].inner.state == TaskState::Exited
}

/// Whether position `i` of `children` holds a child that a wait for `target`
/// can collect: one that is asked about and has exited.
pub open spec fn waitable(tasks: Seq<Task>, children: Seq<usize>, target: i64, i: int) -> bool {
    0 <= i < children.len() && child_matches(children[i], target) && child_exited(
        tasks,
        children[i],
    )
}

/// Whether position `i` is the first in `children` that a wait for `target`
/// can collect.
pub open spec fn is_first_waitable(
    tasks: Seq<Task>,
    children: Seq<usize>,
    target: i64,
    i: int,
) -> bool {
    waitable(tasks, children, target, i) && forall|j: int|
        0 <= j < i ==> !#[trigger] waitable(tasks, children, target, j)
}

/// The first position in `children` that a wait for `target` can collect.
#[verifier::opaque]
pub open spec fn first_waitable(tasks: Seq<Task>, children: Seq<usize>, target: i64) -> int {
    choose|i: int| is_first_waitable(tasks, children, target, i)
}

/// Whether a wait for `target` asks about some child in `children`.
pub open spec fn any_match(children: Seq<usize>, target: i64) -> bool {
    exists|i: int| 0 <= i < children.len() && child_matches(#[trigger] children[i], target)
}

/// Whether a wait for `target` can collect some child in `children`.
pub open spec fn any_waitable(tasks: Seq<Task>, children: Seq<usize>, target: i64) -> bool {
    exists|i: int| #[trigger] waitable(tasks, children, target, i)
}

/// Only one position is the first that a wait can collect.
pub proof fn lemma_first_waitable(tasks: Seq<Task>, children: Seq<usize>, target: i64, i: int)
    requires
        is_first_waitable(tasks, children, target, i),
    ensures
        first_waitable(tasks, children, target) == i,
        any_waitable(tasks, children, target),
{
    reveal(first_waitable);
    let w = first_waitable(tasks, children, target);
    assert(is_first_waitable(tasks, children, target, w));
    if w < i {
        assert(!waitable(tasks, children, target, w));
    } else if i < w {
        assert(!waitable(tasks, children, target, i));
    }
}

impl Kernel {
    /// Whether someone holds process `pid` when position `pos` of the child
    /// list of the process at `holder` is left out: the ready queue, the
    /// core, the batch list, or a child list.
    pub open spec fn held_besides(&self, pid: usize, holder: int, pos: int) -> bool {
        ||| self.manager.task_list@.contains(pid)
        ||| self.batch@.contains(pid)
        ||| self.processor.cur_task == Some(pid)
        ||| exists|j: int|
            0 <= j < self.tasks@.len() && j != holder && (
            #[trigger] self.tasks@[j]).inner.children@.contains(pid)
        ||| self.tasks@[holder].inner.children@.remove(pos).contains(pid)
    }
}

/// Looks through the children of the process at `idx` for a wait for
/// `target`: whether the wait asks about any child, and the first position
/// that it can collect.
fn scan_children(kernel: &Kernel, idx: usize, target: i64) -> (res: (bool, Option<usize>))
    requires
        kernel.wf(),
        idx < kernel.tasks@.len(),
    ensures
        res.0 == any_match(kernel.tasks@[idx as int].inner.children@, target),
        res.1 is Some <==> any_waitable(
            kernel.tasks@,
            kernel.tasks@[idx as int].inner.children@,
            target,
        ),
        res.1 matches Some(i) ==> i < kernel.tasks@[idx as int].inner.children@.len()
            && is_first_waitable(
            kernel.tasks@,
            kernel.tasks@[idx as int].inner.children@,
            target,
            i as int,
        ) && i == first_waitable(kernel.tasks@, kernel.tasks@[idx as int].inner.children@, target),
{
    let children = &kernel.tasks[idx].inner.children;
    let mut any = false;
    let mut i: usize = 0;
    proof {
        assert(kernel.task_ok(&kernel.tasks@[idx as int]));
    }
    while i < children.len()
        invariant
            kernel.wf(),
            idx < kernel.tasks@.len(),
            children@ == kernel.tasks@[idx as int].inner.children@,
            kernel.all_live(children@),
            i <= children@.len(),
            any == exists|j: int| 0 <= j < i && child_matches(#[trigger] children@[j], target),
            forall|j: int| 0 <= j < i ==> !#[trigger] waitable(kernel.tasks@, children@, target, j),
        decreases children.len() - i,
    {
        let child = children[i];
        let matches = target == -1 || (target >= 0 && child as u64 == target as u64);
        if matches {
            any = true;
            assert(has_task(kernel.tasks@, children@[i as int]));
            let ci = kernel.find(child).unwrap();
            if kernel.tasks[ci].inner.state == TaskState::Exited {
                proof {
                    lemma_first_waitable(kernel.tasks@, children@, target, i as int);
                    assert(child_matches(children@[i as int], target));
                }
                return (true, Some(i));
            }
        }
        i += 1;
    }
    (any, None)
}

/// Whether `res` and `k_new` are what [`sys_waitpid`] gives for these arguments
/// and makes of `k_old`.
pub open spec fn sys_waitpid_post(
    k_old: &Kernel,
    k_new: &Kernel,
    task: usize,
    target: i64,
    exit_code: u64,
    res: SyscallResult,
) -> bool {
    &&& !k_old.live(task) ==> res is Err && k_new.unchanged(k_old)
    &&& k_old.live(task) ==> {
        let pidx = task_index(k_old.tasks@, task);
        let parent = k_old.tasks@[pidx];
        let children = parent.inner.children@;
        if !any_match(children, target) {
            res == Ok::<i64, ()>(-1i64) && k_new.unchanged(k_old)
        } else if !any_waitable(k_old.tasks@, children, target) {
            res == Ok::<i64, ()>(-2i64) && k_new.unchanged(k_old)
        } else {
            let i = first_waitable(k_old.tasks@, children, target);
            let child = children[i];
            let cidx = task_index(k_old.tasks@, child);
            let code = k_old.tasks@[cidx].inner.exit_code;
            if !parent.inner.addr_space.range_mapped(exit_code, 4) {
                res is Err && k_new.unchanged(k_old)
            } else {
                let after = k_new.task(task);
                let tasks = k_old.tasks@.update(pidx, after);
                &&& res == Ok::<i64, ()>(child as i64)
                &&& is_first_waitable(k_old.tasks@, children, target, i)
                &&& k_new.live(task)
                &&& after.pid == parent.pid
                &&& after.start_time_ms == parent.start_time_ms
                &&& after.kernel_stack == parent.kernel_stack
                &&& after.inner == (TaskInner {
                    children: after.inner.children,
                    addr_space: after.inner.addr_space,
                    ..parent.inner
                })
                &&& after.inner.children@ == children.remove(i)
                &&& after.inner.addr_space.same_mappings(&parent.inner.addr_space)
                &&& forall|a: u64|
                    #[trigger] after.inner.addr_space.byte_at(a) == if exit_code <= a
                        < exit_code + 4 {
                        Some(crate::syscall::pointer::le_seq(
                            crate::syscall::pointer::i32_bits(code),
                            4,
                        )[a - exit_code])
                    } else {
                        parent.inner.addr_space.byte_at(a)
                    }
                &&& k_new.same_holders(k_old)
                &&& k_new.pids == k_old.pids
                &&& k_new.loader == k_old.loader
                &&& k_new.trampoline == k_old.trampoline
                &&& k_new.trap_entry == k_old.trap_entry
                &&& k_new.restore_entry == k_old.restore_entry
                &&& k_new.idle_policy == k_old.idle_policy
                &&& if k_old.held_besides(child, pidx, i) {
                    &&& k_new.tasks@ == tasks
                    &&& k_new.frames == k_old.frames
                    &&& k_new.kernel_space == k_old.kernel_space
                } else {
                    &&& k_new.tasks@ == tasks.remove(cidx)
                    &&& k_new.released(
                        &k_old.frames,
                        &k_old.kernel_space,
                        &k_old.tasks@[cidx],
                    )
                }
            }
        }
    }
}

/// Waits, without blocking, for a child of process `task` to have exited:
/// for any child where `target` is -1, else for the child with id `target`.
///
/// Where no child is asked about the answer is -1, and where none that is
/// asked about has exited it is -2; nothing changes. Else the first such
/// child in the child list leaves the list, its exit code is stored at
/// `exit_code` in the memory of `task` as four bytes, lowest first, and the
/// answer is its id. The child, if nobody else holds it, ends its life and
/// gives up its memory and its kernel stack. The call is refused, with
/// nothing changed, where `task` is not live or the four bytes at
/// `exit_code` are not mapped.
pub fn sys_waitpid(kernel: &mut Kernel, task: usize, target: i64, exit_code: u64) -> (res:
    SyscallResult)
    requires
        old(kernel).wf(),
    ensures
        final(kernel).wf(),
        sys_waitpid_post(old(kernel), final(kernel), task, target, exit_code, res),
{
    let pidx = match kernel.find(task) {
        None => {
            return Err(());
        },
        Some(idx) => idx,
    };
    let (any, first) = scan_children(kernel, pidx, target);
    if !any {
        return Ok(-1);
    }
    let i = match first {
        None => {
            return Ok(-2);
        },
        Some(i) => i,
    };
    proof {
        assert(kernel.task_ok(&kernel.tasks@[pidx as int]));
    }
    let child = kernel.tasks[pidx].inner.children[i];
    assert(has_task(kernel.tasks@, child));
    let cidx = kernel.find(child).unwrap();
    let code = kernel.tasks[cidx].inner.exit_code;
    if !kernel.tasks[pidx].inner.addr_space.check_range(crate::mm::address::VirtAddr(exit_code), 4) {
        return Err(());
    }
    proof {
        assert(kernel.task_ok(&kernel.tasks@[cidx as int]));
        assert(child > task);
    }
    kernel.tasks[pidx].inner.children.remove(i);
    let bytes = crate::syscall::pointer::i32_le_bytes(code);
    proof {
        crate::syscall::pointer::lemma_le_seq_len(crate::syscall::pointer::i32_bits(code), 4);
    }
    let _ = crate::syscall::pointer::write_user(&mut kernel.tasks[pidx].inner.addr_space, exit_code, &bytes);
    proof {
        let parent = old(kernel).tasks@[pidx as int];
        let after = kernel.tasks@[pidx as int];
        assert(kernel.tasks@ =~= old(kernel).tasks@.update(pidx as int, after));
        assert forall|k: int| 0 <= k < after.inner.children@.len() implies has_task(
            old(kernel).tasks@,
            #[trigger] after.inner.children@[k],
        ) && after.inner.children@[k] > after.pid.0 by {
            let b = if k < i { k } else { k + 1 };
            assert(has_task(old(kernel).tasks@, parent.inner.children@[b]));
            assert(parent.inner.children@[b] > parent.pid.0);
        }
        lemma_update_keeps(old(kernel), kernel, pidx as int);
        crate::frames::lemma_frames_ok_update(old(kernel), kernel, pidx as int);
        assert(kernel.all_live(kernel.manager.task_list@) == old(kernel).all_live(
            kernel.manager.task_list@,
        ));
        assert(kernel.all_live(kernel.batch@) == old(kernel).all_live(kernel.batch@));
        lemma_task_at(kernel.tasks@, pidx as int);
        lemma_task_at(kernel.tasks@, cidx as int);
    }
    let ghost mid = *kernel;
    proof {
        assert(mid.referenced(child) == old(kernel).held_besides(child, pidx as int, i as int)) by {
            if exists|j: int|
                0 <= j < mid.tasks@.len() && (#[trigger] mid.tasks@[j]).inner.children@.contains(
                    child,
                ) {
                let j = choose|j: int|
                    0 <= j < mid.tasks@.len() && (#[trigger] mid.tasks@[j]).inner.children@.contains(
                        child,
                    );
                if j != pidx {
                    assert(old(kernel).tasks@[j].inner.children@.contains(child));
                }
            }
            if exists|j: int|
                0 <= j < old(kernel).tasks@.len() && j != pidx && (
                #[trigger] old(kernel).tasks@[j]).inner.children@.contains(child) {
                let j = choose|j: int|
                    0 <= j < old(kernel).tasks@.len() && j != pidx && (
                    #[trigger] old(kernel).tasks@[j]).inner.children@.contains(child);
                assert(mid.tasks@[j].inner.children@.contains(child));
            }
            if old(kernel).tasks@[pidx as int].inner.children@.remove(i as int).contains(child) {
                assert(mid.tasks@[pidx as int].inner.children@.contains(child));
            }
        }
    }
    if !kernel.is_referenced(child) {
        kernel.destroy(cidx);
        proof {
            crate::kernel::lemma_remove_keeps(&mid, kernel, cidx as int);
            assert(has_task(kernel.tasks@, task));
            assert(kernel.task(task) == mid.task(task));
        }
    }
    Ok(child as i64)
}

/// What a process is told about itself: its state, how often it made each
/// system call, and for how long it has existed, in milliseconds.
pub struct TaskInfo {
    pub state: TaskState,
    pub syscall_times: [u32; MAX_SYSCALL_NUM],
    pub exec_time: usize,
}

/// The number that stands for a state in the memory of a process.
pub open spec fn state_code(state: TaskState) -> int {
    match state {
        TaskState::UnInit => 0,
        TaskState::Ready => 1,
        TaskState::Running => 2,
        TaskState::Exited => 3,
    }
}

/// The first `n` counters of `times`, four bytes each, lowest first.
pub open spec fn times_bytes(times: Seq<u32>, n: nat) -> Seq<u8>
    decreases n,
{
    if n == 0 {
        Seq::empty()
    } else {
        times_bytes(times, (n - 1) as nat) + le_seq(times[n - 1] as int, 4)
    }
}

/// The size of a [`TaskInfo`] in the memory of a process.
pub const TASK_INFO_SIZE: usize = 2016;

/// The size of a [`TimeVal`] in the memory of a process.
pub const TIME_VAL_SIZE: usize = 16;

impl TaskInfo {
    /// The record as it stands in the memory of a process: the state in four
    /// bytes, the 500 counters in four bytes each, four bytes of padding, and
    /// the time in eight bytes; every number lowest byte first.
    pub open spec fn spec_bytes(&self) -> Seq<u8> {
        le_seq(state_code(self.state), 4) + times_bytes(self.syscall_times@, MAX_SYSCALL_NUM as nat)
            + le_seq(0, 4) + le_seq(self.exec_time as int, 8)
    }

    /// The record as it stands in the memory of a process.
    pub fn to_bytes(&self) -> (out: Vec<u8>)
        ensures
            out@ == self.spec_bytes(),
            out@.len() == TASK_INFO_SIZE,
    {
        let code: u64 = match self.state {
            TaskState::UnInit => 0,
            TaskState::Ready => 1,
            TaskState::Running => 2,
            TaskState::Exited => 3,
        };
        let mut out: Vec<u8> = Vec::new();
        push_le(&mut out, code, 4);
        let ghost head = out@;
        proof {
            lemma_le_seq_len(code as int, 4);
            assert(head =~= le_seq(state_code(self.state), 4));
            assert(head + times_bytes(self.syscall_times@, 0) =~= head);
        }
        let mut i: usize = 0;
        while i < MAX_SYSCALL_NUM
            invariant
                i <= MAX_SYSCALL_NUM,
                head.len() == 4,
                out@ == head + times_bytes(self.syscall_times@, i as nat),
                out@.len() == 4 + 4 * i,
            decreases MAX_SYSCALL_NUM - i,
        {
            push_le(&mut out, self.syscall_times[i] as u64, 4);
            proof {
                lemma_le_seq_len(self.syscall_times@[i as int] as int, 4);
                assert(out@ =~= head + times_bytes(self.syscall_times@, (i + 1) as nat));
            }
            i += 1;
        }
        push_le(&mut out, 0, 4);
        push_le(&mut out, self.exec_time as u64, 8);
        proof {
            lemma_le_seq_len(0, 4);
            lemma_le_seq_len(self.exec_time as int, 8);
            assert(out@ =~= self.spec_bytes());
        }
        out
    }
}

/// A time of day: whole seconds and the microseconds after them.
#[derive(Clone, Copy, Debug, PartialEq, Eq, Structural)]
pub struct TimeVal {
    pub sec: u64,
    pub usec: u64,
}

impl TimeVal {
    /// The time `us` microseconds after the start.
    pub fn from_micros(us: u64) -> (t: TimeVal)
        ensures
            t.sec == us / 1_000_000,
            t.usec == us % 1_000_000,
    {
        TimeVal { sec: us / 1_000_000, usec: us % 1_000_000 }
    }

    /// The record as it stands in the memory of a process: the seconds, then
    /// the microseconds, eight bytes each, lowest first.
    pub open spec fn spec_bytes(&self) -> Seq<u8> {
        le_seq(self.sec as int, 8) + le_seq(self.usec as int, 8)
    }

    /// The record as it stands in the memory of a process.
    pub fn to_bytes(&self) -> (out: Vec<u8>)
        ensures
            out@ == self.spec_bytes(),
            out@.len() == TIME_VAL_SIZE,
    {
        let mut out: Vec<u8> = Vec::new();
        push_le(&mut out, self.sec, 8);
        push_le(&mut out, self.usec, 8);
        proof {
            lemma_le_seq_len(self.sec as int, 8);
            lemma_le_seq_len(self.usec as int, 8);
            assert(out@ =~= self.spec_bytes());
        }
        out
    }
}

/// The time for which a process that started at `start` has existed at `now`.
pub open spec fn elapsed(now: usize, start: usize) -> usize {
    if now >= start {
        (now - start) as usize
    } else {
        0
    }
}

/// Whether `res` and `k_new` are what [`sys_taskinfo`] gives for these arguments
/// and makes of `k_old`.
pub open spec fn sys_taskinfo_post(
    k_old: &Kernel,
    k_new: &Kernel,
    task: usize,
    user_info: u64,
    machine: &Machine,
    res: SyscallResult,
) -> bool {
    &&& res is Ok <==> k_old.live(task) && k_old.task(task).inner.addr_space.range_mapped(
        user_info,
        TASK_INFO_SIZE as nat,
    )
    &&& res is Err ==> k_new.unchanged(k_old)
    &&& res matches Ok(v) ==> v == 0 && k_new.wrote(
        k_old,
        task,
        user_info,
        (TaskInfo {
            state: TaskState::Running,
            syscall_times: k_old.task(task).inner.syscall_times,
            exec_time: elapsed(machine.time_ms, k_old.task(task).start_time_ms),
        }).spec_bytes(),
    )
}

/// Tells process `task` about itself: stores at `user_info` in its memory
/// that it is running, how often it made each system call, and for how long
/// it has existed. The call is refused, with nothing changed, where the
/// process is not live or the range at `user_info` is not mapped.
pub fn sys_taskinfo(kernel: &mut Kernel, task: usize, user_info: u64, machine: &Machine) -> (res:
    SyscallResult)
    requires
        old(kernel).wf(),
    ensures
        final(kernel).wf(),
        sys_taskinfo_post(old(kernel), final(kernel), task, user_info, machine, res),
{
    let idx = match kernel.find(task) {
        None => {
            return Err(());
        },
        Some(idx) => idx,
    };
    let start = kernel.tasks[idx].start_time_ms;
    let info = TaskInfo {
        state: TaskState::Running,
        syscall_times: kernel.tasks[idx].inner.syscall_times,
        exec_time: if machine.time_ms >= start {
            machine.time_ms - start
        } else {
            0
        },
    };
    let bytes = info.to_bytes();
    match copy_out(kernel, task, user_info, &bytes) {
        Err(_) => Err(()),
        Ok(_) => Ok(0),
    }
}

/// Whether `res` and `k_new` are what [`sys_gettimeofday`] gives for these arguments
/// and makes of `k_old`.
pub open spec fn sys_gettimeofday_post(
    k_old: &Kernel,
    k_new: &Kernel,
    task: usize,
    timeval_ptr: u64,
    machine: &Machine,
    res: SyscallResult,
) -> bool {
    &&& res is Ok <==> k_old.live(task) && k_old.task(task).inner.addr_space.range_mapped(
        timeval_ptr,
        TIME_VAL_SIZE as nat,
    )
    &&& res is Err ==> k_new.unchanged(k_old)
    &&& res matches Ok(v) ==> v == 0 && k_new.wrote(
        k_old,
        task,
        timeval_ptr,
        (TimeVal {
            sec: machine.time_us / 1_000_000,
            usec: machine.time_us % 1_000_000,
        }).spec_bytes(),
    )
}

/// Tells process `task` the time: stores at `timeval_ptr` in its memory the
/// seconds and microseconds since the start. The call is refused, with
/// nothing changed, where the process is not live or the range is not mapped.
pub fn sys_gettimeofday(
    kernel: &mut Kernel,
    task: usize,
    timeval_ptr: u64,
    _tz: u64,
    machine: &Machine,
) -> (res: SyscallResult)
    requires
        old(kernel).wf(),
    ensures
        final(kernel).wf(),
        sys_gettimeofday_post(old(kernel), final(kernel), task, timeval_ptr, machine, res),
{
    let bytes = TimeVal::from_micros(machine.time_us).to_bytes();
    match copy_out(kernel, task, timeval_ptr, &bytes) {
        Err(_) => Err(()),
        Ok(_) => Ok(0),
    }
}

/// Whether `res` and `k_new` are what [`sys_exec`] gives for these arguments
/// and makes of `k_old`.
pub open spec fn sys_exec_post(
    k_old: &Kernel,
    k_new: &Kernel,
    task: usize,
    path: u64,
    machine: &Machine,
    res: SyscallResult,
) -> bool {
    &&& k_new.same_holders(k_old)
    &&& k_new.kernel_space == k_old.kernel_space
    &&& k_new.pids == k_old.pids
    &&& k_new.loader == k_old.loader
    &&& k_new.trampoline == k_old.trampoline
    &&& k_new.trap_entry == k_old.trap_entry
    &&& k_new.restore_entry == k_old.restore_entry
    &&& k_new.idle_policy == k_old.idle_policy
    &&& res is Ok <==> {
        &&& k_old.live(task)
        &&& cstring_at(&k_old.task(task).inner.addr_space, path) matches Some(name)
        &&& k_old.can_load(name)
    }
    &&& res is Err ==> k_new.tasks == k_old.tasks && k_new.frames@ == k_old.frames@
    &&& res matches Ok(v) ==> v == 0 && k_new.execed(
        k_old,
        task,
        cstring_at(&k_old.task(task).inner.addr_space, path).unwrap(),
        machine,
    )
}

/// Replaces the program of process `task` by the program whose name stands
/// at `path` in its memory. The call is refused, with nothing changed, where
/// the process is not live, the name cannot be read, or the program cannot
/// be loaded.
pub fn sys_exec(kernel: &mut Kernel, task: usize, path: u64, machine: &Machine) -> (res:
    SyscallResult)
    requires
        old(kernel).wf(),
    ensures
        final(kernel).wf(),
        sys_exec_post(old(kernel), final(kernel), task, path, machine, res),
{
    let path = match user_cstring(kernel, task, path) {
        None => {
            return Err(());
        },
        Some(path) => path,
    };
    match Task::exec(kernel, task, path.as_str(), machine) {
        Err(_) => Err(()),
        Ok(_) => Ok(0),
    }
}

/// Whether `res` and `k_new` are what [`sys_spawn`] gives for these arguments
/// and makes of `k_old`.
pub open spec fn sys_spawn_post(
    k_old: &Kernel,
    k_new: &Kernel,
    task: usize,
    path: u64,
    machine: &Machine,
    res: SyscallResult,
) -> bool {
    &&& k_new.processor == k_old.processor
    &&& k_new.batch == k_old.batch
    &&& k_new.loader == k_old.loader
    &&& k_new.trampoline == k_old.trampoline
    &&& k_new.trap_entry == k_old.trap_entry
    &&& k_new.restore_entry == k_old.restore_entry
    &&& k_new.idle_policy == k_old.idle_policy
    &&& res is Ok <==> {
        &&& k_old.live(task)
        &&& cstring_at(&k_old.task(task).inner.addr_space, path) matches Some(name)
        &&& k_old.can_create(name)
    }
    &&& res is Err ==> {
        &&& k_new.tasks == k_old.tasks
        &&& k_new.manager == k_old.manager
        &&& k_new.kernel_space == k_old.kernel_space
        &&& k_new.pids == k_old.pids
        &&& k_new.frames@ == k_old.frames@
    }
    &&& res matches Ok(v) ==> {
        let idx = task_index(k_old.tasks@, task);
        let name = cstring_at(&k_old.task(task).inner.addr_space, path).unwrap();
        let child = k_new.tasks@.last();
        &&& v == k_old.pids.current + 1
        &&& k_new.pids.current == v
        &&& k_new.tasks@.len() == k_old.tasks@.len() + 1
        &&& k_new.tasks@.drop_last() == k_old.tasks@.update(
            idx,
            k_new.tasks@[idx],
        )
        &&& with_child(k_old.task(task), k_new.tasks@[idx], v as usize)
        &&& child.pid.0 == v
        &&& child.start_time_ms == machine.time_ms
        &&& k_old.loaded(&child.inner, name, machine, v as usize)
        &&& Kernel::pristine(&child.inner)
        &&& child.inner.addr_space.fresh_for(k_old.frames@)
        &&& k_new.manager.task_list@ == k_old.manager.task_list@.push(v as usize)
        &&& k_new.manager.next_task == k_old.manager.next_task
        &&& k_new.kernel_space.areas@.drop_last() == k_old.kernel_space.areas@
    }
}

/// Makes a process from the program whose name stands at `path` in the
/// memory of process `task`. The new process is a child of `task`, live,
/// ready and queued, and the answer is its id. The call is refused, with no
/// process made and no frame taken, where `task` is not live, the name
/// cannot be read, or the process cannot be made.
pub fn sys_spawn(kernel: &mut Kernel, task: usize, path: u64, machine: &Machine) -> (res:
    SyscallResult)
    requires
        old(kernel).wf(),
    ensures
        final(kernel).wf(),
        sys_spawn_post(old(kernel), final(kernel), task, path, machine, res),
{
    let idx = match kernel.find(task) {
        None => {
            return Err(());
        },
        Some(idx) => idx,
    };
    let path = match user_cstring(kernel, task, path) {
        None => {
            return Err(());
        },
        Some(path) => path,
    };
    let child = match Task::spawn(kernel, path.as_str(), machine) {
        Err(_) => {
            return Err(());
        },
        Ok(child) => child,
    };
    let ghost mid = *kernel;
    proof {
        assert(mid.tasks@.drop_last()[idx as int] == mid.tasks@[idx as int]);
        assert(old(kernel).task_ok(&old(kernel).tasks@[idx as int]));
        assert(mid.task_ok(&mid.tasks@[idx as int]));
    }
    kernel.tasks[idx].inner.children.push(child);
    proof {
        assert(kernel.tasks@ =~= mid.tasks@.update(idx as int, kernel.tasks@[idx as int]));
        assert(mid.tasks@.last().pid.0 == child);
        assert(has_task(mid.tasks@, child));
        assert forall|k: int|
            0 <= k < kernel.tasks@[idx as int].inner.children@.len() implies has_task(
            mid.tasks@,
            #[trigger] kernel.tasks@[idx as int].inner.children@[k],
        ) by {
            if k < mid.tasks@[idx as int].inner.children@.len() {
                assert(has_task(mid.tasks@, mid.tasks@[idx as int].inner.children@[k]));
            }
        }
        lemma_update_keeps(&mid, kernel, idx as int);
        crate::frames::lemma_frames_ok_update(&mid, kernel, idx as int);
        assert(kernel.all_live(kernel.manager.task_list@) == mid.all_live(kernel.manager.task_list@));
        assert(kernel.all_live(kernel.batch@) == mid.all_live(kernel.batch@));
        assert(kernel.tasks@.drop_last() =~= old(kernel).tasks@.update(
            idx as int,
            kernel.tasks@[idx as int],
        ));
        assert(has_task(kernel.tasks@, child));
    }
    crate::task::schedule::add_task(kernel, child);
    Ok(child as i64)
}

} // verus!
