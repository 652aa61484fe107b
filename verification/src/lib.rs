//! Process and memory core of a small single-core teaching kernel.
//!
//! The kernel state is an explicit value ([`Kernel`](kernel::Kernel)) that every
//! entry point receives and changes. Around it stand the address spaces and the
//! frame allocator ([`mm`]), the program loader ([`loader`]), the process
//! control blocks and the stride scheduler ([`task`]), the system calls
//! ([`syscall`]) and the trap dispatch ([`trap`]). Every function states what it
//! gives and what it changes, and [`frames`] states who owns which frame.
//!
//! The core touches no hardware. Whoever runs it reads the machine registers
//! into a [`Machine`](kernel::Machine), calls
//! [`trap_handler`](trap::handler::trap_handler), and does what the answer
//! says: resume a process, have the file layer serve a request, halt, or wait.
use vstd::prelude::*;
use crate::kernel::{Kernel, Machine};
use crate::task::task::{has_task, Task};

pub mod config;
pub mod frames;
pub mod kernel;
pub mod loader;
pub mod mm;
pub mod syscall;
pub mod task;
pub mod trap;

verus! {

/// `k` with process `pid` added at the end of the batch list.
pub open spec fn in_batch(k: &Kernel, after: &Kernel, pid: usize) -> bool {
    &&& after.batch@ == k.batch@.push(pid)
    &&& after.tasks == k.tasks
    &&& after.manager == k.manager
    &&& after.processor == k.processor
    &&& after.same_parts(k)
}

/// Whether `k_new` is what `k_old` becomes when a process is made from each
/// of the first `n` programs of `names`, in order, and put on the batch list.
pub open spec fn batch_made(
    k_old: &Kernel,
    k_new: &Kernel,
    names: Seq<&str>,
    machine: &Machine,
    n: nat,
) -> bool
    decreases n,
{
    if n == 0 {
        *k_new == *k_old
    } else {
        exists|before: Kernel, made: Kernel, pid: usize|
            {
                &&& batch_made(k_old, &before, names, machine, (n - 1) as nat)
                &&& #[trigger] made.created(&before, names[n - 1]@, machine, Some(pid))
                &&& #[trigger] in_batch(&made, k_new, pid)
            }
    }
}

/// Whether `k_new` is `k_old` with every process of the batch list put at
/// the back of the ready queue, in the order of the list.
pub open spec fn batch_queued(k_old: &Kernel, k_new: &Kernel) -> bool {
    &&& k_new.manager.task_list@ == k_old.manager.task_list@ + k_old.batch@
    &&& k_new.manager.next_task == k_old.manager.next_task
    &&& k_new.tasks == k_old.tasks
    &&& k_new.batch == k_old.batch
    &&& k_new.processor == k_old.processor
    &&& k_new.same_parts(k_old)
}

/// Makes a process from each of the programs `names`, in order, keeps each
/// on the batch list, and then puts every process of the batch list at the
/// back of the ready queue. Where a process cannot be made, the work stops
/// there with `Err`: the processes made so far are on the batch list, and
/// none was queued.
pub fn run_target_task(kernel: &mut Kernel, names: &[&str], machine: &Machine) -> (res: Result<
    (),
    (),
>)
    requires
        old(kernel).wf(),
    ensures
        final(kernel).wf(),
        res is Ok ==> exists|made: Kernel|
            {
                &&& #[trigger] batch_made(old(kernel), &made, names@, machine, names@.len())
                &&& batch_queued(&made, final(kernel))
            },
        res is Err ==> exists|n: nat, made: Kernel|
            {
                &&& n < names@.len()
                &&& #[trigger] batch_made(old(kernel), &made, names@, machine, n)
                &&& final(kernel).created(&made, names@[n as int]@, machine, None)
            },
{
    let mut i: usize = 0;
    while i < names.len()
        invariant
            kernel.wf(),
            i <= names@.len(),
            batch_made(old(kernel), kernel, names@, machine, i as nat),
        decreases names.len() - i,
    {
        let ghost before = *kernel;
        match Task::new(kernel, names[i], machine) {
            None => {
                return Err(());
            },
            Some(pid) => {
                let ghost made = *kernel;
                kernel.batch.push(pid);
                proof {
                    assert(has_task(kernel.tasks@, pid)) by {
                        assert(kernel.tasks@.last().pid.0 == pid);
                    }
                    assert forall|k: int| 0 <= k < kernel.batch@.len() implies has_task(
                        kernel.tasks@,
                        #[trigger] kernel.batch@[k],
                    ) by {
                        if k < made.batch@.len() {
                            assert(has_task(made.tasks@, made.batch@[k]));
                        }
                    }
                    assert(made.created(&before, names@[i as int]@, machine, Some(pid)));
                    assert(in_batch(&made, kernel, pid));
                    assert(batch_made(old(kernel), &before, names@, machine, ((i + 1) - 1) as nat));
                    assert(batch_made(old(kernel), kernel, names@, machine, (i + 1) as nat));
                }
            },
        }
        i += 1;
    }
    let ghost made = *kernel;
    let mut j: usize = 0;
    while j < kernel.batch.len()
        invariant
            kernel.wf(),
            j <= kernel.batch@.len(),
            kernel.batch == made.batch,
            kernel.tasks == made.tasks,
            kernel.processor == made.processor,
            kernel.same_parts(&made),
            kernel.manager.next_task == made.manager.next_task,
            kernel.manager.task_list@ == made.manager.task_list@ + made.batch@.take(j as int),
        decreases kernel.batch.len() - j,
    {
        let pid = kernel.batch[j];
        assert(has_task(kernel.tasks@, kernel.batch@[j as int]));
        crate::task::schedule::add_task(kernel, pid);
        proof {
            assert(made.batch@.take(j + 1) =~= made.batch@.take(j as int).push(pid));
            assert(kernel.manager.task_list@ =~= made.manager.task_list@ + made.batch@.take(j + 1));
        }
        j += 1;
    }
    proof {
        assert(made.batch@.take(made.batch@.len() as int) =~= made.batch@);
    }
    Ok(())
}

/// Makes and queues the process of the user tests, the program `ch5_usertest`.
pub fn run_usertest(kernel: &mut Kernel, machine: &Machine) -> (res: Result<(), ()>)
    requires
        old(kernel).wf(),
    ensures
        final(kernel).wf(),
        res is Ok ==> exists|made: Kernel|
            {
                &&& #[trigger] batch_made(old(kernel), &made, seq!["ch5_usertest"], machine, 1)
                &&& batch_queued(&made, final(kernel))
            },
        res is Err ==> final(kernel).created(old(kernel), "ch5_usertest"@, machine, None),
{
    let names: [&str; 1] = ["ch5_usertest"];
    let res = run_target_task(kernel, names.as_slice(), machine);
    proof {
        assert(names@ =~= seq!["ch5_usertest"]);
    }
    res
}

} // verus!
