//! Handing the core from one process to the next.
use vstd::prelude::*;
use crate::config::BIG_STRIDE;
use crate::kernel::{lemma_update_keeps, IdlePolicy, Kernel, Machine};
use crate::task::manager::{is_selected, selected_index};
use crate::task::task::{has_task, lemma_task_index, task_index, Task, TaskInner, TaskState};
use crate::trap::restore::{restore, UserEntry};

verus! {

/// What the kernel does next after it gave up or lost the running process.
#[derive(Clone, Copy, Debug, PartialEq, Eq, Structural)]
pub enum Dispatch {
    /// Resume this process in user mode.
    Run(UserEntry),
    /// No process is ready and the policy is to stop.
    Halt,
    /// No process is ready and the policy is to wait for work.
    Idle,
    /// The process that was named is not live.
    NoSuchTask,
}

/// Process `t` in state `state`.
pub open spec fn with_state(t: Task, state: TaskState) -> Task {
    Task { inner: TaskInner { state, ..t.inner }, ..t }
}

/// The pass of a process after it gave up the core: advanced by the big
/// stride divided by its priority, and held at the largest number.
pub open spec fn next_pass(pass: u64, priority: u64) -> u64 {
    if pass + BIG_STRIDE as u64 / priority > u64::MAX {
        u64::MAX
    } else {
        (pass + BIG_STRIDE as u64 / priority) as u64
    }
}

/// Process `t` after it gave up the core.
pub open spec fn advanced(t: Task) -> Task {
    Task { inner: TaskInner { pass: next_pass(t.inner.pass, t.inner.priority), ..t.inner }, ..t }
}

/// A higher priority makes a smaller stride, so the pass rises more slowly
/// and the process is run more often.
pub proof fn lemma_stride_falls_with_priority(p: u64, q: u64)
    requires
        1 <= p <= q,
    ensures
        BIG_STRIDE as u64 / q <= BIG_STRIDE as u64 / p,
{
    let b = BIG_STRIDE as int;
    let x = b / (q as int);
    let y = b / (p as int);
    assert(x <= y) by (nonlinear_arith)
        requires
            1 <= p <= q,
            b >= 0,
            x == b / (q as int),
            y == b / (p as int),
    {
        assert(x * q <= b);
        assert(x * p <= x * q);
        assert(b < (y + 1) * p);
    }
}

/// The pass only rises when a process gives up the core.
pub proof fn lemma_pass_rises(pass: u64, priority: u64)
    requires
        priority >= 1,
    ensures
        next_pass(pass, priority) >= pass,
        pass + BIG_STRIDE as u64 / priority <= u64::MAX ==> next_pass(pass, priority) == pass
            + BIG_STRIDE as u64 / priority,
{
}

/// The largest stride: that of priority 2, the lowest priority.
pub open spec fn max_stride() -> int {
    BIG_STRIDE as int / 2
}

/// Whether no two of the passes `passes` are further apart than the largest stride.
pub open spec fn passes_close(passes: Seq<u64>) -> bool {
    forall|j: int, k: int|
        0 <= j < passes.len() && 0 <= k < passes.len() ==> #[trigger] passes[j] - #[trigger] passes[k]
            <= max_stride()
}

/// Stride scheduling keeps the passes together, which is what makes the share
/// of each process follow its priority: where no two passes are further apart
/// than the largest stride, and the process with the smallest pass runs and
/// gives up the core, no two passes are further apart than the largest stride
/// afterwards. So over any stretch of time the passes of all processes rise by
/// the same amount, to within the largest stride, and the number of turns of
/// a process, which is that amount divided by its stride, is proportional to
/// its priority.
pub proof fn lemma_passes_stay_close(passes: Seq<u64>, i: int, priority: u64)
    requires
        passes_close(passes),
        0 <= i < passes.len(),
        forall|j: int| 0 <= j < passes.len() ==> passes[i] <= #[trigger] passes[j],
        priority >= 2,
    ensures
        passes_close(passes.update(i, next_pass(passes[i], priority))),
{
    let after = passes.update(i, next_pass(passes[i], priority));
    let stride = BIG_STRIDE as u64 / priority;
    lemma_stride_falls_with_priority(2, priority);
    assert(stride <= max_stride());
    assert forall|j: int, k: int| 0 <= j < after.len() && 0 <= k < after.len() implies #[trigger] after[j]
        - #[trigger] after[k] <= max_stride() by {
        assert(passes[j] - passes[k] <= max_stride());
        assert(passes[i] <= passes[k]);
        assert(passes[i] <= passes[j]);
    }
}

/// Puts the live process `task` at the back of the ready queue. A process
/// that is not live is not queued, and the answer is `false`.
pub fn add_task(kernel: &mut Kernel, task: usize) -> (done: bool)
    requires
        old(kernel).wf(),
    ensures
        final(kernel).wf(),
        done == old(kernel).live(task),
        !done ==> *final(kernel) == *old(kernel),
        done ==> {
            &&& final(kernel).same_parts(old(kernel))
            &&& final(kernel).tasks == old(kernel).tasks
            &&& final(kernel).processor == old(kernel).processor
            &&& final(kernel).batch == old(kernel).batch
            &&& final(kernel).manager.task_list@ == old(kernel).manager.task_list@.push(task)
            &&& final(kernel).manager.next_task == old(kernel).manager.next_task
        },
{
    if kernel.find(task).is_none() {
        return false;
    }
    kernel.manager.add_task(task);
    true
}

/// Takes the process to run next out of the ready queue: the one with the
/// smallest pass, the first in the queue among equals. With an empty queue the
/// answer is `None`, and under the halt policy the batch list is let go.
pub fn fetch_ready_task(kernel: &mut Kernel) -> (res: Option<usize>)
    requires
        old(kernel).wf(),
    ensures
        final(kernel).wf(),
        final(kernel).same_parts(old(kernel)),
        final(kernel).tasks == old(kernel).tasks,
        final(kernel).processor == old(kernel).processor,
        final(kernel).manager.next_task == old(kernel).manager.next_task,
        old(kernel).manager.task_list@.len() == 0 ==> {
            &&& res is None
            &&& final(kernel).manager.task_list@ == old(kernel).manager.task_list@
            &&& final(kernel).batch@ == if old(kernel).idle_policy == IdlePolicy::Halt {
                Seq::<usize>::empty()
            } else {
                old(kernel).batch@
            }
        },
        old(kernel).manager.task_list@.len() > 0 ==> {
            let m = selected_index(old(kernel).manager.task_list@, old(kernel).tasks@);
            &&& is_selected(old(kernel).manager.task_list@, old(kernel).tasks@, m)
            &&& res == Some(old(kernel).manager.task_list@[m])
            &&& old(kernel).live(old(kernel).manager.task_list@[m])
            &&& final(kernel).manager.task_list@ == old(kernel).manager.task_list@.remove(m)
            &&& final(kernel).batch == old(kernel).batch
        },
{
    match kernel.manager.find_next_ready_task(&kernel.tasks) {
        None => {
            match kernel.idle_policy {
                IdlePolicy::Halt => {
                    kernel.batch.clear();
                },
                IdlePolicy::Wait => {},
            }
            None
        },
        Some(task) => {
            proof {
                let m = selected_index(old(kernel).manager.task_list@, old(kernel).tasks@);
                assert(has_task(old(kernel).tasks@, old(kernel).manager.task_list@[m]));
                assert forall|k: int|
                    0 <= k < kernel.manager.task_list@.len() implies has_task(
                    kernel.tasks@,
                    #[trigger] kernel.manager.task_list@[k],
                ) by {
                    let b = if k < m { k } else { k + 1 };
                    assert(has_task(old(kernel).tasks@, old(kernel).manager.task_list@[b]));
                }
            }
            Some(task)
        },
    }
}

/// Hands the core to the live process `task`: it becomes the running process,
/// and the answer says what to load to resume it.
pub fn run_task(kernel: &mut Kernel, task: usize) -> (res: Dispatch)
    requires
        old(kernel).wf(),
    ensures
        final(kernel).wf(),
        !old(kernel).live(task) ==> res == Dispatch::NoSuchTask && *final(kernel) == *old(kernel),
        old(kernel).live(task) ==> {
            &&& res == Dispatch::Run(old(kernel).user_entry(task))
            &&& final(kernel).same_parts(old(kernel))
            &&& final(kernel).manager == old(kernel).manager
            &&& final(kernel).batch == old(kernel).batch
            &&& final(kernel).processor.cur_task == Some(task)
            &&& final(kernel).tasks@ == old(kernel).tasks@.update(
                task_index(old(kernel).tasks@, task),
                with_state(old(kernel).task(task), TaskState::Running),
            )
        },
{
    let idx = match kernel.find(task) {
        None => {
            return Dispatch::NoSuchTask;
        },
        Some(idx) => idx,
    };
    let entry = match restore(kernel, task) {
        None => {
            return Dispatch::NoSuchTask;
        },
        Some(entry) => entry,
    };
    kernel.processor.cur_task = Some(task);
    kernel.tasks[idx].inner.state = TaskState::Running;
    proof {
        assert(old(kernel).task_ok(&old(kernel).tasks@[idx as int]));
        assert(kernel.tasks@ =~= old(kernel).tasks@.update(
            idx as int,
            with_state(old(kernel).task(task), TaskState::Running),
        ));
        lemma_update_keeps(old(kernel), kernel, idx as int);
        crate::frames::lemma_frames_ok_update(old(kernel), kernel, idx as int);
    }
    Dispatch::Run(entry)
}

/// Picks the next process and hands it the core. With no process ready the
/// answer is to halt or to wait, as the policy says.
pub fn run_next_task(kernel: &mut Kernel) -> (res: Dispatch)
    requires
        old(kernel).wf(),
    ensures
        final(kernel).wf(),
        final(kernel).same_parts(old(kernel)),
        final(kernel).manager.next_task == old(kernel).manager.next_task,
        old(kernel).manager.task_list@.len() == 0 ==> {
            &&& res == if old(kernel).idle_policy == IdlePolicy::Halt {
                Dispatch::Halt
            } else {
                Dispatch::Idle
            }
            &&& final(kernel).tasks == old(kernel).tasks
            &&& final(kernel).processor == old(kernel).processor
            &&& final(kernel).manager.task_list@ == old(kernel).manager.task_list@
            &&& final(kernel).batch@ == if old(kernel).idle_policy == IdlePolicy::Halt {
                Seq::<usize>::empty()
            } else {
                old(kernel).batch@
            }
        },
        old(kernel).manager.task_list@.len() > 0 ==> {
            let m = selected_index(old(kernel).manager.task_list@, old(kernel).tasks@);
            let next = old(kernel).manager.task_list@[m];
            &&& is_selected(old(kernel).manager.task_list@, old(kernel).tasks@, m)
            &&& res == Dispatch::Run(old(kernel).user_entry(next))
            &&& final(kernel).manager.task_list@ == old(kernel).manager.task_list@.remove(m)
            &&& final(kernel).batch == old(kernel).batch
            &&& final(kernel).processor.cur_task == Some(next)
            &&& final(kernel).tasks@ == old(kernel).tasks@.update(
                task_index(old(kernel).tasks@, next),
                with_state(old(kernel).task(next), TaskState::Running),
            )
        },
{
    match fetch_ready_task(kernel) {
        None => {
            match kernel.idle_policy {
                IdlePolicy::Halt => Dispatch::Halt,
                IdlePolicy::Wait => Dispatch::Idle,
            }
        },
        Some(task) => run_task(kernel, task),
    }
}

/// The live process `previous_task` gives up the core: its pass advances by
/// the big stride divided by its priority, it goes to the back of the ready
/// queue, and the next process is picked and handed the core.
pub fn switch_task(kernel: &mut Kernel, previous_task: usize) -> (res: Dispatch)
    requires
        old(kernel).wf(),
    ensures
        final(kernel).wf(),
        final(kernel).same_parts(old(kernel)),
        !old(kernel).live(previous_task) ==> res == Dispatch::NoSuchTask && *final(kernel) == *old(
            kernel,
        ),
        old(kernel).live(previous_task) ==> {
            let tasks = old(kernel).tasks@.update(
                task_index(old(kernel).tasks@, previous_task),
                advanced(old(kernel).task(previous_task)),
            );
            let queue = old(kernel).manager.task_list@.push(previous_task);
            let m = selected_index(queue, tasks);
            let next = queue[m];
            &&& is_selected(queue, tasks, m)
            &&& has_task(tasks, next)
            &&& res matches Dispatch::Run(entry)
            &&& entry == final(kernel).user_entry(next)
            &&& final(kernel).manager.task_list@ == queue.remove(m)
            &&& final(kernel).batch == old(kernel).batch
            &&& final(kernel).processor.cur_task == Some(next)
            &&& final(kernel).tasks@ == tasks.update(
                task_index(tasks, next),
                with_state(tasks[task_index(tasks, next)], TaskState::Running),
            )
        },
{
    let idx = match kernel.find(previous_task) {
        None => {
            return Dispatch::NoSuchTask;
        },
        Some(idx) => idx,
    };
    assert(old(kernel).task_ok(&old(kernel).tasks@[idx as int]));
    let stride: u64 = BIG_STRIDE as u64 / kernel.tasks[idx].inner.priority;
    let pass = kernel.tasks[idx].inner.pass;
    kernel.tasks[idx].inner.pass = if pass > u64::MAX - stride {
        u64::MAX
    } else {
        pass + stride
    };
    proof {
        assert(kernel.tasks@ =~= old(kernel).tasks@.update(
            idx as int,
            advanced(old(kernel).task(previous_task)),
        ));
        lemma_update_keeps(old(kernel), kernel, idx as int);
        crate::frames::lemma_frames_ok_update(old(kernel), kernel, idx as int);
        assert(kernel.all_live(kernel.manager.task_list@) == old(kernel).all_live(
            kernel.manager.task_list@,
        ));
        assert(kernel.all_live(kernel.batch@) == old(kernel).all_live(kernel.batch@));
        assert(kernel.live(previous_task) == old(kernel).live(previous_task));
    }
    let ghost mid = *kernel;
    add_task(kernel, previous_task);
    let res = run_next_task(kernel);
    proof {
        let queue = mid.manager.task_list@.push(previous_task);
        let m = selected_index(queue, mid.tasks@);
        let next = queue[m];
        assert(has_task(mid.tasks@, next));
        lemma_task_index(mid.tasks@, next);
        let j = task_index(mid.tasks@, next);
        assert(kernel.tasks@[j].pid.0 == next);
        crate::kernel::lemma_task_at(kernel.tasks@, j);
        assert(kernel.task(next).inner.addr_space == mid.task(next).inner.addr_space);
    }
    res
}

/// Takes the running process off the core and hands it over.
pub fn pop_cur_task(kernel: &mut Kernel) -> (res: Option<usize>)
    requires
        old(kernel).wf(),
    ensures
        final(kernel).wf(),
        res == old(kernel).processor.cur_task,
        res matches Some(p) ==> old(kernel).live(p),
        final(kernel).processor.cur_task is None,
        final(kernel).same_parts(old(kernel)),
        final(kernel).tasks == old(kernel).tasks,
        final(kernel).manager == old(kernel).manager,
        final(kernel).batch == old(kernel).batch,
{
    kernel.processor.pop_task()
}

/// The running process, which stays on the core.
pub fn weak_cur_task(kernel: &mut Kernel) -> (res: Option<usize>)
    requires
        old(kernel).wf(),
    ensures
        *final(kernel) == *old(kernel),
        res == old(kernel).processor.cur_task,
        res matches Some(p) ==> old(kernel).live(p),
{
    kernel.processor.weak_task()
}

/// Makes the initial process from the program `ch5b_initproc` and puts it at
/// the back of the ready queue. `None`, with no process made, where it cannot
/// be made.
pub fn add_initproc(kernel: &mut Kernel, machine: &Machine) -> (res: Option<usize>)
    requires
        old(kernel).wf(),
    ensures
        final(kernel).wf(),
        res is None ==> final(kernel).created(old(kernel), "ch5b_initproc"@, machine, None),
        res matches Some(pid) ==> exists|made: Kernel|
            {
                &&& #[trigger] made.created(old(kernel), "ch5b_initproc"@, machine, Some(pid))
                &&& final(kernel).same_parts(&made)
                &&& final(kernel).tasks == made.tasks
                &&& final(kernel).processor == made.processor
                &&& final(kernel).batch == made.batch
                &&& final(kernel).manager.task_list@ == made.manager.task_list@.push(pid)
                &&& final(kernel).manager.next_task == made.manager.next_task
            },
{
    match Task::new(kernel, "ch5b_initproc", machine) {
        None => None,
        Some(pid) => {
            let ghost made = *kernel;
            assert(has_task(kernel.tasks@, pid)) by {
                assert(kernel.tasks@.last().pid.0 == pid);
            }
            add_task(kernel, pid);
            assert(made.created(old(kernel), "ch5b_initproc"@, machine, Some(pid)));
            Some(pid)
        },
    }
}

} // verus!
