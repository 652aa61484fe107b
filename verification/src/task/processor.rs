//! The core: which process runs on it at present.
use vstd::prelude::*;

verus! {

/// The one hardware core: it holds the process that runs, or none.
pub struct Processor {
    pub cur_task: Option<usize>,
}

impl Processor {
    /// A core that runs no process.
    pub fn new() -> (p: Processor)
        ensures
            p.cur_task is None,
    {
        Processor { cur_task: None }
    }

    /// Takes the running process off the core and hands it over.
    pub fn pop_task(&mut self) -> (res: Option<usize>)
        ensures
            res == old(self).cur_task,
            final(self).cur_task is None,
    {
        let cur_task = match &self.cur_task {
            None => {
                return None;
            },
            Some(task) => *task,
        };
        self.cur_task = None;
        Some(cur_task)
    }

    /// The running process, which stays on the core.
    pub fn weak_task(&mut self) -> (res: Option<usize>)
        ensures
            res == old(self).cur_task,
            *final(self) == *old(self),
    {
        match &self.cur_task {
            None => None,
            Some(task) => Some(*task),
        }
    }
}

} // verus!
