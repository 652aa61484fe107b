//! The dispatch of traps: what the kernel does when a process enters it.
use vstd::prelude::*;
use crate::kernel::{lemma_task_at, lemma_update_keeps, Kernel, Machine};
use crate::syscall::fs::IoRequest;
use crate::syscall::proc::{sys_exit, sys_exit_post, sys_yield, sys_yield_post};
use crate::syscall::{
    off_core, returned, set_return, syscall_handled, syscall_handler, SyscallOutcome,
    SyscallResult,
};
use crate::task::manager::{is_selected, selected_index};
use crate::task::schedule::{pop_cur_task, run_next_task, weak_cur_task, with_state, Dispatch};
use crate::task::task::{has_task, lemma_task_index, task_index, TaskInner, TaskState};
use crate::trap::context::TrapContext;

verus! {

/// Why a process entered the kernel.
#[derive(Clone, Copy, Debug, PartialEq, Eq, Structural)]
pub enum TrapKind {
    /// It made a system call.
    Syscall,
    /// It loaded from or stored to a page that is not mapped for that.
    PageFault,
    /// It loaded from or stored to memory that it may not access.
    AccessFault,
    /// It ran an instruction that is none.
    IllegalInstruction,
    /// The timer fired.
    Timer,
    /// Anything else.
    Other,
}

/// Whether the cause word `scause` stands for an interrupt: its top bit.
pub open spec fn cause_is_interrupt(scause: u64) -> bool {
    scause >= 0x8000_0000_0000_0000
}

/// The code in the cause word `scause`: all but its top bit.
pub open spec fn cause_code(scause: u64) -> u64 {
    scause % 0x8000_0000_0000_0000
}

/// Calls `riscv::register::scause::Scause`: `from_bits` and `cause`, for
/// the register of 64 bits. The cause is an interrupt where bit 63 of the
/// word is set, and its code is the other 63 bits.
#[verifier::external_body]
fn scause_cause(bits: u64) -> (res: (bool, u64))
    ensures
        res.0 == cause_is_interrupt(bits),
        res.1 == cause_code(bits),
{
    match riscv::register::scause::Scause::from_bits(bits as usize).cause() {
        riscv::interrupt::Trap::Interrupt(code) => (true, code as u64),
        riscv::interrupt::Trap::Exception(code) => (false, code as u64),
    }
}

/// Why a process entered the kernel with the cause word `scause`: interrupt
/// 5 is the timer; exception 8 is a system call, 13 and 15 are page faults,
/// 5 and 7 are access faults, and 2 is an illegal instruction.
pub open spec fn trap_kind(scause: u64) -> TrapKind {
    let code = cause_code(scause);
    if cause_is_interrupt(scause) {
        if code == 5 {
            TrapKind::Timer
        } else {
            TrapKind::Other
        }
    } else if code == 8 {
        TrapKind::Syscall
    } else if code == 13 || code == 15 {
        TrapKind::PageFault
    } else if code == 5 || code == 7 {
        TrapKind::AccessFault
    } else if code == 2 {
        TrapKind::IllegalInstruction
    } else {
        TrapKind::Other
    }
}

/// Why a process entered the kernel with the cause word `scause`.
pub fn classify(scause: u64) -> (kind: TrapKind)
    ensures
        kind == trap_kind(scause),
{
    let (interrupt, code) = scause_cause(scause);
    if interrupt {
        if code == 5 {
            TrapKind::Timer
        } else {
            TrapKind::Other
        }
    } else if code == 8 {
        TrapKind::Syscall
    } else if code == 13 || code == 15 {
        TrapKind::PageFault
    } else if code == 5 || code == 7 {
        TrapKind::AccessFault
    } else if code == 2 {
        TrapKind::IllegalInstruction
    } else {
        TrapKind::Other
    }
}

/// What the kernel does after a trap.
pub enum TrapOutcome {
    /// Go on as `dispatch` says, after the timer is set anew where
    /// `rearm_timer` holds.
    Next { dispatch: Dispatch, rearm_timer: bool },
    /// The file layer has work to do for a system call of process `task`.
    Io { task: usize, request: IoRequest },
    /// No process was on the core.
    NoCurrentTask,
    /// The cause of the trap is none that the kernel serves.
    Unsupported,
}

/// The address after the instruction at `sepc`.
pub open spec fn next_instruction(sepc: u64) -> u64 {
    if sepc > u64::MAX - 4 {
        (sepc + 4 - 0x1_0000_0000_0000_0000) as u64
    } else {
        (sepc + 4) as u64
    }
}

/// Whether `k_new` is `k_old` with the live process `task` set to resume
/// after the instruction that trapped.
pub open spec fn entered(k_old: &Kernel, k_new: &Kernel, task: usize) -> bool {
    let was = k_old.task(task);
    let now = k_new.task(task);
    &&& k_new.only_inner_changed(k_old, task)
    &&& k_new.frames == k_old.frames
    &&& k_new.live(task)
    &&& now.inner == (TaskInner {
        trap_cx: TrapContext { sepc: next_instruction(was.inner.trap_cx.sepc), ..was.inner.trap_cx },
        ..was.inner
    })
}

/// Whether `next` and `k_new` are what it gives and makes of `k_old` that
/// process `task` goes on after a system call: the process is ready and
/// stands first in the ready queue, with its pass as it was, and the process
/// with the smallest pass, the first in the queue among equals, gets the
/// core, and `next` says what to load to resume it.
pub open spec fn resumed(k_old: &Kernel, k_new: &Kernel, task: usize, next: Dispatch) -> bool {
    if k_old.live(task) {
        let tasks = k_old.tasks@.update(
            task_index(k_old.tasks@, task),
            with_state(k_old.task(task), TaskState::Ready),
        );
        let queue = k_old.manager.task_list@.insert(0, task);
        let m = selected_index(queue, tasks);
        let chosen = queue[m];
        &&& is_selected(queue, tasks, m)
        &&& has_task(tasks, chosen)
        &&& next matches Dispatch::Run(entry)
        &&& entry == k_new.user_entry(chosen)
        &&& k_new.same_parts(k_old)
        &&& k_new.manager.task_list@ == queue.remove(m)
        &&& k_new.manager.next_task == k_old.manager.next_task
        &&& k_new.batch == k_old.batch
        &&& k_new.processor.cur_task == Some(chosen)
        &&& k_new.tasks@ == tasks.update(
            task_index(tasks, chosen),
            with_state(tasks[task_index(tasks, chosen)], TaskState::Running),
        )
    } else {
        next == Dispatch::NoSuchTask && *k_new == *k_old
    }
}

/// Process `task` goes on after a system call. The scheduler selects anew:
/// the process is ready, leaves the core and stands first in the ready
/// queue, with its pass as it was, and the next process is picked and handed
/// the core. So the process gets the core again at once unless a process
/// with a smaller pass waits.
pub fn resume_current(kernel: &mut Kernel, task: usize) -> (next: Dispatch)
    requires
        old(kernel).wf(),
    ensures
        final(kernel).wf(),
        resumed(old(kernel), final(kernel), task, next),
{
    let idx = match kernel.find(task) {
        None => {
            return Dispatch::NoSuchTask;
        },
        Some(idx) => idx,
    };
    kernel.tasks[idx].inner.set_state(TaskState::Ready);
    proof {
        assert(old(kernel).task_ok(&old(kernel).tasks@[idx as int]));
        assert(kernel.tasks@ =~= old(kernel).tasks@.update(
            idx as int,
            with_state(old(kernel).task(task), TaskState::Ready),
        ));
        lemma_update_keeps(old(kernel), kernel, idx as int);
        crate::frames::lemma_frames_ok_update(old(kernel), kernel, idx as int);
        assert(kernel.all_live(kernel.manager.task_list@) == old(kernel).all_live(
            kernel.manager.task_list@,
        ));
        assert(kernel.all_live(kernel.batch@) == old(kernel).all_live(kernel.batch@));
        lemma_task_at(kernel.tasks@, idx as int);
    }
    pop_cur_task(kernel);
    let ghost ready = *kernel;
    kernel.manager.add_first(task);
    proof {
        assert forall|k: int| 0 <= k < kernel.manager.task_list@.len() implies has_task(
            kernel.tasks@,
            #[trigger] kernel.manager.task_list@[k],
        ) by {
            if k > 0 {
                assert(has_task(ready.tasks@, ready.manager.task_list@[k - 1]));
            }
        }
    }
    let ghost mid = *kernel;
    let next = run_next_task(kernel);
    proof {
        let m = selected_index(mid.manager.task_list@, mid.tasks@);
        let chosen = mid.manager.task_list@[m];
        assert(has_task(mid.tasks@, chosen));
        lemma_task_index(mid.tasks@, chosen);
        let j = task_index(mid.tasks@, chosen);
        assert(kernel.tasks@[j].pid.0 == chosen);
        lemma_task_at(kernel.tasks@, j);
        assert(kernel.task(chosen).inner.addr_space == mid.task(chosen).inner.addr_space);
    }
    next
}

/// The end of a system call on files of process `task`, after the file layer
/// did its work: the result `ret` goes into the return register, and the
/// scheduler selects anew with the process first in the ready queue.
pub fn finish_syscall(kernel: &mut Kernel, task: usize, ret: SyscallResult) -> (next: Dispatch)
    requires
        old(kernel).wf(),
    ensures
        final(kernel).wf(),
        exists|mid: Kernel| #[trigger]
            returned(old(kernel), &mid, task, ret) && resumed(&mid, final(kernel), task, next),
{
    set_return(kernel, task, ret);
    let ghost mid = *kernel;
    let next = resume_current(kernel, task);
    assert(returned(old(kernel), &mid, task, ret) && resumed(&mid, kernel, task, next));
    next
}

/// Whether `out` and `k_new` are what the trap that `machine` reports ends
/// in and makes of `k_old`.
///
/// With no process on the core nothing is done. A system call resumes after
/// the trapping instruction and is served; then the scheduler selects anew
/// with the process first in the ready queue, unless the process gave up
/// the core or the file layer has work to do. A fault ends the process with
/// exit code 1, and the core is handed on. The timer is set anew, and the
/// process gives up the core as by a yield. Any other cause is not served.
pub open spec fn trapped(k_old: &Kernel, k_new: &Kernel, machine: &Machine, out: TrapOutcome) -> bool {
    match k_old.processor.cur_task {
        None => out is NoCurrentTask && *k_new == *k_old,
        Some(task) => match trap_kind(machine.scause) {
            TrapKind::Syscall => exists|k1: Kernel, k2: Kernel, served: SyscallOutcome|
                {
                    &&& #[trigger] entered(k_old, &k1, task)
                    &&& #[trigger] syscall_handled(&k1, &k2, task, machine, served)
                    &&& match served {
                        SyscallOutcome::Done(_) => {
                            &&& out matches TrapOutcome::Next { dispatch, rearm_timer }
                            &&& !rearm_timer
                            &&& resumed(&k2, k_new, task, dispatch)
                        },
                        SyscallOutcome::Switched(next) => {
                            &&& out matches TrapOutcome::Next { dispatch, rearm_timer }
                            &&& !rearm_timer
                            &&& dispatch == next
                            &&& *k_new == k2
                        },
                        SyscallOutcome::Io(req) => {
                            &&& out matches TrapOutcome::Io { task: t, request }
                            &&& t == task
                            &&& request == req
                            &&& *k_new == k2
                        },
                    }
                },
            TrapKind::PageFault | TrapKind::AccessFault | TrapKind::IllegalInstruction => {
                &&& out matches TrapOutcome::Next { dispatch, rearm_timer }
                &&& !rearm_timer
                &&& sys_exit_post(&off_core(k_old), k_new, task, 1, dispatch)
            },
            TrapKind::Timer => {
                &&& out matches TrapOutcome::Next { dispatch, rearm_timer }
                &&& rearm_timer
                &&& sys_yield_post(&off_core(k_old), k_new, task, dispatch)
            },
            TrapKind::Other => out is Unsupported && *k_new == *k_old,
        },
    }
}

/// Serves the trap that `machine` reports for the process on the core.
pub fn trap_handler(kernel: &mut Kernel, machine: &Machine) -> (out: TrapOutcome)
    requires
        old(kernel).wf(),
    ensures
        final(kernel).wf(),
        trapped(old(kernel), final(kernel), machine, out),
{
    let task = match weak_cur_task(kernel) {
        None => {
            return TrapOutcome::NoCurrentTask;
        },
        Some(task) => task,
    };
    match classify(machine.scause) {
        TrapKind::Syscall => {
            let idx = kernel.find(task).unwrap();
            let sepc = kernel.tasks[idx].inner.trap_cx.sepc;
            kernel.tasks[idx].inner.trap_cx.sepc = if sepc > u64::MAX - 4 {
                sepc - (u64::MAX - 3)
            } else {
                sepc + 4
            };
            proof {
                assert(old(kernel).task_ok(&old(kernel).tasks@[idx as int]));
                assert(kernel.tasks@ =~= old(kernel).tasks@.update(
                    idx as int,
                    kernel.tasks@[idx as int],
                ));
                lemma_update_keeps(old(kernel), kernel, idx as int);
                crate::frames::lemma_frames_ok_update(old(kernel), kernel, idx as int);
                assert(kernel.all_live(kernel.manager.task_list@) == old(kernel).all_live(
                    kernel.manager.task_list@,
                ));
                assert(kernel.all_live(kernel.batch@) == old(kernel).all_live(kernel.batch@));
                lemma_task_at(kernel.tasks@, idx as int);
            }
            let ghost k1 = *kernel;
            assert(entered(old(kernel), &k1, task));
            let served = syscall_handler(kernel, task, machine);
            let ghost k2 = *kernel;
            match served {
                SyscallOutcome::Done(_) => {
                    let dispatch = resume_current(kernel, task);
                    proof {
                        assert(entered(old(kernel), &k1, task) && syscall_handled(
                            &k1,
                            &k2,
                            task,
                            machine,
                            served,
                        ));
                    }
                    TrapOutcome::Next { dispatch, rearm_timer: false }
                },
                SyscallOutcome::Switched(next) => {
                    proof {
                        assert(entered(old(kernel), &k1, task) && syscall_handled(
                            &k1,
                            &k2,
                            task,
                            machine,
                            served,
                        ));
                    }
                    TrapOutcome::Next { dispatch: next, rearm_timer: false }
                },
                SyscallOutcome::Io(request) => {
                    proof {
                        assert(entered(old(kernel), &k1, task) && syscall_handled(
                            &k1,
                            &k2,
                            task,
                            machine,
                            served,
                        ));
                    }
                    TrapOutcome::Io { task, request }
                },
            }
        },
        TrapKind::PageFault | TrapKind::AccessFault | TrapKind::IllegalInstruction => {
            pop_cur_task(kernel);
            assert(*kernel == off_core(old(kernel)));
            TrapOutcome::Next { dispatch: sys_exit(kernel, task, 1), rearm_timer: false }
        },
        TrapKind::Timer => {
            pop_cur_task(kernel);
            assert(*kernel == off_core(old(kernel)));
            TrapOutcome::Next { dispatch: sys_yield(kernel, task), rearm_timer: true }
        },
        TrapKind::Other => TrapOutcome::Unsupported,
    }
}

} // verus!
