//! The ready queue and the stride selection of the next process.
use vstd::prelude::*;
use crate::task::task::{find_task, has_task, lemma_task_index, task_index, Task};

verus! {

/// The processes that wait for the core, in the order in which they were queued.
pub struct TaskManager {
    pub next_task: usize,
    pub task_list: Vec<usize>,
}

/// The pass of the process with id `pid`.
pub open spec fn pass_of(tasks: Seq<Task>, pid: usize) -> u64 {
    tasks[task_index(tasks, pid)].inner.pass
}

/// Whether position `m` of the queue `list` holds the process to run next:
/// no process in the queue has a smaller pass, and every process before it
/// has a greater pass.
pub open spec fn is_selected(list: Seq<usize>, tasks: Seq<Task>, m: int) -> bool {
    &&& 0 <= m < list.len()
    &&& forall|j: int| 0 <= j < list.len() ==> pass_of(tasks, list[m]) <= pass_of(tasks, #[trigger] list[j])
    &&& forall|j: int| 0 <= j < m ==> pass_of(tasks, list[m]) < pass_of(tasks, #[trigger] list[j])
}

/// The position of the process to run next in a queue that is not empty.
pub open spec fn selected_index(list: Seq<usize>, tasks: Seq<Task>) -> int {
    choose|m: int| is_selected(list, tasks, m)
}

/// Only one position holds the process to run next.
pub proof fn lemma_selected_unique(list: Seq<usize>, tasks: Seq<Task>, m: int)
    requires
        is_selected(list, tasks, m),
    ensures
        selected_index(list, tasks) == m,
{
    let w = selected_index(list, tasks);
    if w < m {
        assert(pass_of(tasks, list[m]) < pass_of(tasks, list[w]));
        assert(pass_of(tasks, list[w]) <= pass_of(tasks, list[m]));
    } else if m < w {
        assert(pass_of(tasks, list[w]) < pass_of(tasks, list[m]));
        assert(pass_of(tasks, list[m]) <= pass_of(tasks, list[w]));
    }
}

impl TaskManager {
    /// An empty queue.
    pub fn new() -> (tm: TaskManager)
        ensures
            tm.task_list@.len() == 0,
            tm.next_task == 0,
    {
        TaskManager { task_list: Vec::new(), next_task: 0 }
    }

    /// Whether every queued process is in `tasks`.
    pub open spec fn all_known(&self, tasks: Seq<Task>) -> bool {
        forall|k: int| 0 <= k < self.task_list@.len() ==> has_task(tasks, #[trigger] self.task_list@[k])
    }

    /// Takes out of the queue the process with the smallest pass, the first in
    /// the queue among equals, and hands it over. `None` for an empty queue.
    pub fn find_next_ready_task(&mut self, tasks: &Vec<Task>) -> (res: Option<usize>)
        requires
            old(self).all_known(tasks@),
        ensures
            final(self).next_task == old(self).next_task,
            old(self).task_list@.len() == 0 ==> res is None && final(self).task_list@ == old(
                self,
            ).task_list@,
            old(self).task_list@.len() > 0 ==> {
                let m = selected_index(old(self).task_list@, tasks@);
                &&& is_selected(old(self).task_list@, tasks@, m)
                &&& res == Some(old(self).task_list@[m])
                &&& final(self).task_list@ == old(self).task_list@.remove(m)
            },
    {
        if self.task_list.len() == 0 {
            return None;
        }
        let m = Self::select(&self.task_list, tasks);
        Some(self.task_list.remove(m))
    }

    /// The position in the queue `list` of the process to run next.
    fn select(list: &Vec<usize>, tasks: &Vec<Task>) -> (m: usize)
        requires
            list@.len() > 0,
            forall|k: int| 0 <= k < list@.len() ==> has_task(tasks@, #[trigger] list@[k]),
        ensures
            is_selected(list@, tasks@, m as int),
            m == selected_index(list@, tasks@),
    {
        let mut smallest_pass_idx: usize = 0;
        let mut smallest_pass: u64 = Self::pass(tasks, list[0]);
        let mut i: usize = 1;
        while i < list.len()
            invariant
                forall|k: int| 0 <= k < list@.len() ==> has_task(tasks@, #[trigger] list@[k]),
                1 <= i <= list@.len(),
                smallest_pass_idx < i,
                smallest_pass == pass_of(tasks@, list@[smallest_pass_idx as int]),
                forall|j: int| 0 <= j < i ==> smallest_pass <= pass_of(tasks@, #[trigger] list@[j]),
                forall|j: int|
                    0 <= j < smallest_pass_idx ==> smallest_pass < pass_of(
                        tasks@,
                        #[trigger] list@[j],
                    ),
            decreases list.len() - i,
        {
            let pass = Self::pass(tasks, list[i]);
            if pass < smallest_pass {
                smallest_pass_idx = i;
                smallest_pass = pass;
            }
            i += 1;
        }
        proof {
            lemma_selected_unique(list@, tasks@, smallest_pass_idx as int);
        }
        smallest_pass_idx
    }

    /// The pass of the process with id `pid`.
    fn pass(tasks: &Vec<Task>, pid: usize) -> (p: u64)
        requires
            has_task(tasks@, pid),
        ensures
            p == pass_of(tasks@, pid),
    {
        let i = find_task(tasks, pid).unwrap();
        tasks[i].inner.pass
    }

    /// Puts process `task` at the front of the queue, before every process
    /// that waits.
    pub fn add_first(&mut self, task: usize)
        ensures
            final(self).task_list@ == old(self).task_list@.insert(0, task),
            final(self).next_task == old(self).next_task,
    {
        self.task_list.insert(0, task);
    }

    /// Puts process `task` at the back of the queue.
    pub fn add_task(&mut self, task: usize)
        ensures
            final(self).task_list@ == old(self).task_list@.push(task),
            final(self).next_task == old(self).next_task,
    {
        self.task_list.push(task);
    }
}

/// The process that is run next has the smallest pass in the queue, and a
/// smaller pass than every process before it in the queue.
pub proof fn lemma_selected_is_least(list: Seq<usize>, tasks: Seq<Task>, m: int, j: int)
    requires
        is_selected(list, tasks, m),
        0 <= j < list.len(),
    ensures
        pass_of(tasks, list[m]) <= pass_of(tasks, list[j]),
        j < m ==> pass_of(tasks, list[m]) < pass_of(tasks, list[j]),
{
    assert(pass_of(tasks, list[m]) <= pass_of(tasks, list[j]));
}

/// A process is not run twice in a row while a process with a smaller pass
/// waits: where the process `prev`, which went to the back of the queue, is
/// run next, every process that waited has a greater pass.
pub proof fn lemma_no_turn_twice(queue: Seq<usize>, tasks: Seq<Task>, prev: usize, j: int)
    requires
        is_selected(queue.push(prev), tasks, queue.len() as int),
        0 <= j < queue.len(),
    ensures
        pass_of(tasks, prev) < pass_of(tasks, queue[j]),
{
    assert(queue.push(prev)[j] == queue[j]);
    assert(queue.push(prev)[queue.len() as int] == prev);
}

/// A process does not keep the core after a system call while a process
/// with a smaller pass waits: where the process `prev`, which stands first
/// in the queue again, is run next, no process that waited has a smaller
/// pass.
pub proof fn lemma_keeps_core_only_as_least(
    queue: Seq<usize>,
    tasks: Seq<Task>,
    prev: usize,
    j: int,
)
    requires
        is_selected(queue.insert(0, prev), tasks, 0),
        0 <= j < queue.len(),
    ensures
        pass_of(tasks, prev) <= pass_of(tasks, queue[j]),
{
    assert(queue.insert(0, prev)[j + 1] == queue[j]);
    assert(queue.insert(0, prev)[0] == prev);
}

} // verus!
