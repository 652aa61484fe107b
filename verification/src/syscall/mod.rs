//! The system calls: their numbers, their dispatch, and what they hand back.
use vstd::prelude::*;
use crate::config::MAX_SYSCALL_NUM;
use crate::kernel::{lemma_task_at, lemma_update_keeps, Kernel, Machine};
use crate::syscall::fs::{
    sys_close, sys_close_post, sys_fstat, sys_fstat_post, sys_link_at, sys_link_at_post,
    sys_open_at, sys_open_at_post, sys_read, sys_read_post, sys_unlink_at, sys_unlink_at_post,
    sys_write, sys_write_post, IoRequest,
};
use crate::syscall::mm::{sys_mmap, sys_mmap_post, sys_unmmap, sys_unmmap_post};
use crate::syscall::proc::{
    sys_exec, sys_exec_post, sys_exit, sys_exit_post, sys_fork, sys_fork_post, sys_getpid,
    sys_getpid_post, sys_gettimeofday, sys_gettimeofday_post, sys_set_priority,
    sys_set_priority_post, sys_spawn, sys_spawn_post, sys_taskinfo, sys_taskinfo_post,
    sys_waitpid, sys_waitpid_post, sys_yield, sys_yield_post,
};
use crate::task::processor::Processor;
use crate::task::schedule::{pop_cur_task, Dispatch};
use crate::task::task::{Task, TaskInner};
use crate::trap::context::TrapContext;

pub mod fs;
pub mod mm;
pub mod pointer;
pub mod proc;

verus! {

/// What a system call gives back: the value for the caller, or a refusal.
pub type SyscallResult = Result<i64, ()>;

/// The system calls that the kernel knows.
#[derive(Clone, Copy, Debug, PartialEq, Eq, Structural)]
pub enum Syscall {
    UnLinkAt,
    LinkAt,
    OpenAt,
    Close,
    Read,
    Write,
    FStat,
    Exit,
    Yield,
    SetPriority,
    GetTimeOfDay,
    GetPid,
    Munmap,
    Fork,
    Exec,
    Mmap,
    WaitPid,
    Spawn,
    TaskInfo,
}

/// The system call with number `n`, where there is one.
pub open spec fn syscall_of(n: u64) -> Option<Syscall> {
    if n == 35 {
        Some(Syscall::UnLinkAt)
    } else if n == 37 {
        Some(Syscall::LinkAt)
    } else if n == 56 {
        Some(Syscall::OpenAt)
    } else if n == 57 {
        Some(Syscall::Close)
    } else if n == 63 {
        Some(Syscall::Read)
    } else if n == 64 {
        Some(Syscall::Write)
    } else if n == 80 {
        Some(Syscall::FStat)
    } else if n == 93 {
        Some(Syscall::Exit)
    } else if n == 124 {
        Some(Syscall::Yield)
    } else if n == 140 {
        Some(Syscall::SetPriority)
    } else if n == 169 {
        Some(Syscall::GetTimeOfDay)
    } else if n == 172 {
        Some(Syscall::GetPid)
    } else if n == 215 {
        Some(Syscall::Munmap)
    } else if n == 220 {
        Some(Syscall::Fork)
    } else if n == 221 {
        Some(Syscall::Exec)
    } else if n == 222 {
        Some(Syscall::Mmap)
    } else if n == 260 {
        Some(Syscall::WaitPid)
    } else if n == 400 {
        Some(Syscall::Spawn)
    } else if n == 410 {
        Some(Syscall::TaskInfo)
    } else {
        None
    }
}

/// The word `x` read as a number with sign.
pub open spec fn to_signed(x: u64) -> i64 {
    if x < 0x8000_0000_0000_0000 {
        x as i64
    } else {
        (x - 0x1_0000_0000_0000_0000) as i64
    }
}

/// The low 32 bits of the word `x` read as a number with sign.
pub open spec fn low_signed(x: u64) -> i32 {
    if x % 0x1_0000_0000 < 0x8000_0000 {
        (x % 0x1_0000_0000) as i32
    } else {
        (x % 0x1_0000_0000 - 0x1_0000_0000) as i32
    }
}

/// The word that stands for the number `v` in a register.
pub open spec fn reg_of(v: i64) -> u64 {
    if v >= 0 {
        v as u64
    } else {
        (v + 0x1_0000_0000_0000_0000) as u64
    }
}

/// The word `x` read as a number with sign.
pub fn as_signed(x: u64) -> (v: i64)
    ensures
        v == to_signed(x),
{
    if x < 0x8000_0000_0000_0000 {
        x as i64
    } else {
        -((u64::MAX - x) as i64) - 1
    }
}

/// The low 32 bits of the word `x` read as a number with sign.
pub fn as_low_signed(x: u64) -> (v: i32)
    ensures
        v == low_signed(x),
{
    let low: u64 = x % 0x1_0000_0000;
    if low < 0x8000_0000 {
        low as i32
    } else {
        (low as i64 - 0x1_0000_0000) as i32
    }
}

/// The word that stands for the number `v` in a register.
pub fn as_reg(v: i64) -> (x: u64)
    ensures
        x == reg_of(v),
{
    if v >= 0 {
        v as u64
    } else {
        u64::MAX - ((-(v + 1)) as u64)
    }
}

/// What the dispatch of a system call ends in.
pub enum SyscallOutcome {
    /// The call is done with this result, which stands in the caller's
    /// return register; the caller goes on.
    Done(SyscallResult),
    /// The caller gave up the core: this is what the kernel does next.
    Switched(Dispatch),
    /// The file layer has work to do before the call is done.
    Io(IoRequest),
}

/// What a call on files ends in: the request where there is one, else a refusal.
pub open spec fn io_outcome(res: Result<IoRequest, ()>, out: SyscallOutcome) -> bool {
    match res {
        Ok(req) => out == SyscallOutcome::Io(req),
        Err(_) => out == SyscallOutcome::Done(Err::<i64, ()>(())),
    }
}

/// Process `t` with `v` in its return register.
pub open spec fn with_return(t: Task, v: u64, after: Task) -> bool {
    &&& after.pid == t.pid
    &&& after.start_time_ms == t.start_time_ms
    &&& after.kernel_stack == t.kernel_stack
    &&& after.inner == (TaskInner { trap_cx: after.inner.trap_cx, ..t.inner })
    &&& after.inner.trap_cx == (TrapContext { x: after.inner.trap_cx.x, ..t.inner.trap_cx })
    &&& after.inner.trap_cx.x@ == t.inner.trap_cx.x@.update(10, v)
}

/// Whether `k_new` is `k_old` with the result `ret` of a system call in the
/// return register of process `task`: the value, or -1 for a refusal. Where
/// the process is not live nothing changes.
pub open spec fn returned(k_old: &Kernel, k_new: &Kernel, task: usize, ret: SyscallResult) -> bool {
    if k_old.live(task) {
        &&& k_new.only_inner_changed(k_old, task)
        &&& k_new.frames == k_old.frames
        &&& k_new.live(task)
        &&& with_return(
            k_old.task(task),
            reg_of(
                match ret {
                    Ok(v) => v,
                    Err(_) => -1i64,
                },
            ),
            k_new.task(task),
        )
    } else {
        k_new.unchanged(k_old)
    }
}

/// Puts the result `ret` of a system call into the return register of
/// process `task`: the value, or -1 for a refusal.
pub fn set_return(kernel: &mut Kernel, task: usize, ret: SyscallResult)
    requires
        old(kernel).wf(),
    ensures
        final(kernel).wf(),
        returned(old(kernel), final(kernel), task, ret),
{
    let idx = match kernel.find(task) {
        None => {
            return ;
        },
        Some(idx) => idx,
    };
    let v: i64 = match ret {
        Ok(v) => v,
        Err(_) => -1,
    };
    kernel.tasks[idx].inner.trap_cx.set_reg_a(0, as_reg(v));
    proof {
        assert(old(kernel).task_ok(&old(kernel).tasks@[idx as int]));
        assert(kernel.tasks@ =~= old(kernel).tasks@.update(idx as int, kernel.tasks@[idx as int]));
        lemma_update_keeps(old(kernel), kernel, idx as int);
        crate::frames::lemma_frames_ok_update(old(kernel), kernel, idx as int);
        assert(kernel.all_live(kernel.manager.task_list@) == old(kernel).all_live(
            kernel.manager.task_list@,
        ));
        assert(kernel.all_live(kernel.batch@) == old(kernel).all_live(kernel.batch@));
        lemma_task_at(kernel.tasks@, idx as int);
    }
}

/// `k` with no process on the core.
pub open spec fn off_core(k: &Kernel) -> Kernel {
    Kernel { processor: Processor { cur_task: None }, ..*k }
}

impl Syscall {
    /// The system call with number `n`; `Err` for a number that stands for none.
    pub fn from(n: u64) -> (res: Result<Syscall, ()>)
        ensures
            res == match syscall_of(n) {
                Some(call) => Ok::<Syscall, ()>(call),
                None => Err::<Syscall, ()>(()),
            },
    {
        if n == 35 {
            Ok(Syscall::UnLinkAt)
        } else if n == 37 {
            Ok(Syscall::LinkAt)
        } else if n == 56 {
            Ok(Syscall::OpenAt)
        } else if n == 57 {
            Ok(Syscall::Close)
        } else if n == 63 {
            Ok(Syscall::Read)
        } else if n == 64 {
            Ok(Syscall::Write)
        } else if n == 80 {
            Ok(Syscall::FStat)
        } else if n == 93 {
            Ok(Syscall::Exit)
        } else if n == 124 {
            Ok(Syscall::Yield)
        } else if n == 140 {
            Ok(Syscall::SetPriority)
        } else if n == 169 {
            Ok(Syscall::GetTimeOfDay)
        } else if n == 172 {
            Ok(Syscall::GetPid)
        } else if n == 215 {
            Ok(Syscall::Munmap)
        } else if n == 220 {
            Ok(Syscall::Fork)
        } else if n == 221 {
            Ok(Syscall::Exec)
        } else if n == 222 {
            Ok(Syscall::Mmap)
        } else if n == 260 {
            Ok(Syscall::WaitPid)
        } else if n == 400 {
            Ok(Syscall::Spawn)
        } else if n == 410 {
            Ok(Syscall::TaskInfo)
        } else {
            Err(())
        }
    }

    /// Whether `res` and `k_new` are what the system call `self`, made by
    /// process `task` with the arguments `arg1`, `arg2` and `arg3`, gives and
    /// makes of `k_old`, before the result goes into the return register.
    pub open spec fn served(
        self,
        k_old: &Kernel,
        k_new: &Kernel,
        task: usize,
        arg1: u64,
        arg2: u64,
        arg3: u64,
        machine: &Machine,
        res: SyscallResult,
    ) -> bool {
        match self {
            Syscall::GetTimeOfDay => sys_gettimeofday_post(k_old, k_new, task, arg1, machine, res),
            Syscall::TaskInfo => sys_taskinfo_post(k_old, k_new, task, arg1, machine, res),
            Syscall::Mmap => sys_mmap_post(k_old, k_new, task, arg1, arg2, arg3, res),
            Syscall::Munmap => sys_unmmap_post(k_old, k_new, task, arg1, arg2, res),
            Syscall::Fork => sys_fork_post(k_old, k_new, task, machine, res),
            Syscall::WaitPid => sys_waitpid_post(k_old, k_new, task, to_signed(arg1), arg2, res),
            Syscall::GetPid => *k_new == *k_old && sys_getpid_post(k_old, task, res),
            Syscall::SetPriority => sys_set_priority_post(k_old, k_new, task, to_signed(arg1), res),
            Syscall::Exec => sys_exec_post(k_old, k_new, task, arg1, machine, res),
            Syscall::Spawn => sys_spawn_post(k_old, k_new, task, arg1, machine, res),
            Syscall::Close => if arg1 <= usize::MAX {
                sys_close_post(k_old, k_new, task, arg1 as usize, res)
            } else {
                res is Err && *k_new == *k_old
            },
            _ => false,
        }
    }

    /// The request to the file layer that the system call `self` on files,
    /// made by process `task`, ends in, or the refusal.
    pub open spec fn asked(
        self,
        k_old: &Kernel,
        task: usize,
        arg1: u64,
        arg2: u64,
        arg3: u64,
        res: Result<IoRequest, ()>,
    ) -> bool {
        match self {
            Syscall::Write => if arg1 <= usize::MAX && arg3 <= usize::MAX {
                sys_write_post(k_old, task, arg1 as usize, arg2, arg3 as usize, res)
            } else {
                res is Err
            },
            Syscall::Read => if arg1 <= usize::MAX && arg3 <= usize::MAX {
                sys_read_post(k_old, task, arg1 as usize, arg2, arg3 as usize, res)
            } else {
                res is Err
            },
            Syscall::FStat => sys_fstat_post(k_old, task, low_signed(arg1), arg2, res),
            Syscall::UnLinkAt => sys_unlink_at_post(k_old, task, arg2, res),
            Syscall::LinkAt => k_old.live(task) && sys_link_at_post(
                k_old,
                task,
                arg2,
                k_old.task(task).inner.trap_cx.x@[13],
                res,
            ) || !k_old.live(task) && res is Err,
            Syscall::OpenAt => sys_open_at_post(
                k_old,
                task,
                arg2,
                (arg3 % 0x1_0000_0000) as u32,
                res,
            ),
            _ => false,
        }
    }

    /// Whether `out` and `k_new` are what the system call `self`, made by
    /// process `task` with the arguments `arg1`, `arg2` and `arg3`, ends in
    /// and makes of `k_old`.
    ///
    /// An exit or a yield takes the caller off the core and hands the core
    /// on. A call on files ends in the request to the file layer, with
    /// nothing changed, or in a refusal. Every other call is served, and its
    /// result, like a refusal of a call on files, goes into the return
    /// register of the caller.
    pub open spec fn handled(
        self,
        k_old: &Kernel,
        k_new: &Kernel,
        task: usize,
        arg1: u64,
        arg2: u64,
        arg3: u64,
        machine: &Machine,
        out: SyscallOutcome,
    ) -> bool {
        match self {
            Syscall::Exit => out matches SyscallOutcome::Switched(next) && sys_exit_post(
                &off_core(k_old),
                k_new,
                task,
                low_signed(arg1),
                next,
            ),
            Syscall::Yield => out matches SyscallOutcome::Switched(next) && sys_yield_post(
                &off_core(k_old),
                k_new,
                task,
                next,
            ),
            Syscall::Write | Syscall::Read | Syscall::FStat | Syscall::UnLinkAt | Syscall::LinkAt
            | Syscall::OpenAt => exists|res: Result<IoRequest, ()>|
                {
                    &&& #[trigger] self.asked(k_old, task, arg1, arg2, arg3, res)
                    &&& io_outcome(res, out)
                    &&& if res is Ok {
                        *k_new == *k_old
                    } else {
                        returned(k_old, k_new, task, Err::<i64, ()>(()))
                    }
                },
            _ => exists|mid: Kernel, res: SyscallResult|
                {
                    &&& #[trigger] self.served(k_old, &mid, task, arg1, arg2, arg3, machine, res)
                    &&& returned(&mid, k_new, task, res)
                    &&& out == SyscallOutcome::Done(res)
                },
        }
    }

    /// The end of a call on files: the request goes out, or the refusal goes
    /// into the return register of the caller.
    fn ask(kernel: &mut Kernel, task: usize, res: Result<IoRequest, ()>) -> (out: SyscallOutcome)
        requires
            old(kernel).wf(),
        ensures
            final(kernel).wf(),
            io_outcome(res, out),
            if res is Ok {
                *final(kernel) == *old(kernel)
            } else {
                returned(old(kernel), final(kernel), task, Err::<i64, ()>(()))
            },
    {
        match res {
            Ok(req) => SyscallOutcome::Io(req),
            Err(_) => {
                set_return(kernel, task, Err(()));
                SyscallOutcome::Done(Err(()))
            },
        }
    }

    /// Serves the system call `self` of process `task` with the arguments
    /// `arg1`, `arg2` and `arg3`.
    pub fn handle(
        &self,
        kernel: &mut Kernel,
        task: usize,
        arg1: u64,
        arg2: u64,
        arg3: u64,
        machine: &Machine,
    ) -> (out: SyscallOutcome)
        requires
            old(kernel).wf(),
        ensures
            final(kernel).wf(),
            self.handled(old(kernel), final(kernel), task, arg1, arg2, arg3, machine, out),
    {
        let ret: SyscallResult = match self {
            Syscall::Exit => {
                pop_cur_task(kernel);
                assert(*kernel == off_core(old(kernel)));
                return SyscallOutcome::Switched(sys_exit(kernel, task, as_low_signed(arg1)));
            },
            Syscall::Yield => {
                pop_cur_task(kernel);
                assert(*kernel == off_core(old(kernel)));
                return SyscallOutcome::Switched(sys_yield(kernel, task));
            },
            Syscall::Write => {
                let res = if arg1 <= usize::MAX as u64 && arg3 <= usize::MAX as u64 {
                    sys_write(kernel, task, arg1 as usize, arg2, arg3 as usize)
                } else {
                    Err(())
                };
                assert(self.asked(old(kernel), task, arg1, arg2, arg3, res));
                return Self::ask(kernel, task, res);
            },
            Syscall::Read => {
                let res = if arg1 <= usize::MAX as u64 && arg3 <= usize::MAX as u64 {
                    sys_read(kernel, task, arg1 as usize, arg2, arg3 as usize)
                } else {
                    Err(())
                };
                assert(self.asked(old(kernel), task, arg1, arg2, arg3, res));
                return Self::ask(kernel, task, res);
            },
            Syscall::FStat => {
                let res = sys_fstat(kernel, task, as_low_signed(arg1), arg2);
                assert(self.asked(old(kernel), task, arg1, arg2, arg3, res));
                return Self::ask(kernel, task, res);
            },
            Syscall::UnLinkAt => {
                let res = sys_unlink_at(kernel, task, -100, arg2, 0);
                assert(self.asked(old(kernel), task, arg1, arg2, arg3, res));
                return Self::ask(kernel, task, res);
            },
            Syscall::LinkAt => {
                let res = match kernel.find(task) {
                    None => Err(()),
                    Some(idx) => {
                        let arg4 = kernel.tasks[idx].inner.trap_cx.reg_a(3);
                        sys_link_at(kernel, task, -100, arg2, -100, arg4, 0)
                    },
                };
                assert(self.asked(old(kernel), task, arg1, arg2, arg3, res));
                return Self::ask(kernel, task, res);
            },
            Syscall::OpenAt => {
                let res = sys_open_at(kernel, task, 0, arg2, (arg3 % 0x1_0000_0000) as u32, 0);
                assert(self.asked(old(kernel), task, arg1, arg2, arg3, res));
                return Self::ask(kernel, task, res);
            },
            Syscall::GetTimeOfDay => sys_gettimeofday(kernel, task, arg1, arg2, machine),
            Syscall::TaskInfo => sys_taskinfo(kernel, task, arg1, machine),
            Syscall::Mmap => sys_mmap(kernel, task, arg1, arg2, arg3),
            Syscall::Munmap => sys_unmmap(kernel, task, arg1, arg2),
            Syscall::Fork => sys_fork(kernel, task, machine),
            Syscall::WaitPid => sys_waitpid(kernel, task, as_signed(arg1), arg2),
            Syscall::GetPid => sys_getpid(kernel, task),
            Syscall::SetPriority => sys_set_priority(kernel, task, as_signed(arg1)),
            Syscall::Exec => sys_exec(kernel, task, arg1, machine),
            Syscall::Spawn => sys_spawn(kernel, task, arg1, machine),
            Syscall::Close => {
                if arg1 <= usize::MAX as u64 {
                    sys_close(kernel, task, arg1 as usize)
                } else {
                    Err(())
                }
            },
        };
        let ghost mid = *kernel;
        assert(self.served(old(kernel), &mid, task, arg1, arg2, arg3, machine, ret));
        set_return(kernel, task, ret);
        SyscallOutcome::Done(ret)
    }
}

/// The counter `n` after one more call: one more, held at the largest number.
pub open spec fn bumped(n: u32) -> u32 {
    if n < u32::MAX {
        (n + 1) as u32
    } else {
        n
    }
}

/// Whether `k_new` is `k_old` with one more call of number `num` counted
/// for process `task`. A number that has no counter is not counted.
pub open spec fn counted(k_old: &Kernel, k_new: &Kernel, task: usize, num: u64) -> bool {
    if k_old.live(task) && num < MAX_SYSCALL_NUM {
        let was = k_old.task(task);
        let now = k_new.task(task);
        &&& k_new.only_inner_changed(k_old, task)
        &&& k_new.frames == k_old.frames
        &&& k_new.live(task)
        &&& now.inner == (TaskInner { syscall_times: now.inner.syscall_times, ..was.inner })
        &&& now.inner.syscall_times@ == was.inner.syscall_times@.update(
            num as int,
            bumped(was.inner.syscall_times@[num as int]),
        )
    } else {
        *k_new == *k_old
    }
}

/// Whether `out` and `k_new` are what the system call that process `task`
/// asks for in its registers ends in and makes of `k_old`: the call is
/// counted, and then it is served. An unknown number ends the process with
/// exit code 1.
pub open spec fn syscall_handled(
    k_old: &Kernel,
    k_new: &Kernel,
    task: usize,
    machine: &Machine,
    out: SyscallOutcome,
) -> bool {
    if !k_old.live(task) {
        out == SyscallOutcome::Switched(Dispatch::NoSuchTask) && *k_new == *k_old
    } else {
        let x = k_old.task(task).inner.trap_cx.x@;
        exists|mid: Kernel|
            {
                &&& #[trigger] counted(k_old, &mid, task, x[17])
                &&& match syscall_of(x[17]) {
                    Some(call) => call.handled(&mid, k_new, task, x[10], x[11], x[12], machine, out),
                    None => out matches SyscallOutcome::Switched(next) && sys_exit_post(
                        &off_core(&mid),
                        k_new,
                        task,
                        1,
                        next,
                    ),
                }
            }
    }
}

/// Serves the system call that process `task` asks for: the number stands
/// in argument register 7 and the arguments in registers 0 to 2.
pub fn syscall_handler(kernel: &mut Kernel, task: usize, machine: &Machine) -> (out: SyscallOutcome)
    requires
        old(kernel).wf(),
    ensures
        final(kernel).wf(),
        syscall_handled(old(kernel), final(kernel), task, machine, out),
{
    let idx = match kernel.find(task) {
        None => {
            return SyscallOutcome::Switched(Dispatch::NoSuchTask);
        },
        Some(idx) => idx,
    };
    let syscall_num = kernel.tasks[idx].inner.trap_cx.reg_a(7);
    let a0 = kernel.tasks[idx].inner.trap_cx.reg_a(0);
    let a1 = kernel.tasks[idx].inner.trap_cx.reg_a(1);
    let a2 = kernel.tasks[idx].inner.trap_cx.reg_a(2);
    if syscall_num < MAX_SYSCALL_NUM as u64 {
        let n = syscall_num as usize;
        let times = kernel.tasks[idx].inner.syscall_times[n];
        if times < u32::MAX {
            kernel.tasks[idx].inner.syscall_times[n] = times + 1;
        }
        proof {
            assert(old(kernel).task_ok(&old(kernel).tasks@[idx as int]));
            assert(kernel.tasks@[idx as int].inner.syscall_times@ =~= old(
                kernel,
            ).tasks@[idx as int].inner.syscall_times@.update(n as int, bumped(times)));
            assert(kernel.tasks@ =~= old(kernel).tasks@.update(idx as int, kernel.tasks@[idx as int]));
            lemma_update_keeps(old(kernel), kernel, idx as int);
            crate::frames::lemma_frames_ok_update(old(kernel), kernel, idx as int);
            assert(kernel.all_live(kernel.manager.task_list@) == old(kernel).all_live(
                kernel.manager.task_list@,
            ));
            assert(kernel.all_live(kernel.batch@) == old(kernel).all_live(kernel.batch@));
            lemma_task_at(kernel.tasks@, idx as int);
        }
    }
    let ghost mid = *kernel;
    assert(counted(old(kernel), &mid, task, syscall_num));
    match Syscall::from(syscall_num) {
        Err(_) => {
            pop_cur_task(kernel);
            assert(*kernel == off_core(&mid));
            SyscallOutcome::Switched(sys_exit(kernel, task, 1))
        },
        Ok(syscall) => syscall.handle(kernel, task, a0, a1, a2, machine),
    }
}

} // verus!
