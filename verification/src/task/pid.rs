//! Process identifiers and their allocator.
use vstd::prelude::*;

verus! {

/// The identifier of one process.
#[derive(Clone, Copy, Debug, PartialEq, Eq, PartialOrd, Ord, Structural)]
pub struct PidHandle(pub usize);

/// Hands out process identifiers in rising order, starting at 1, and never
/// hands one out twice.
pub struct PidAllocator {
    pub current: usize,
}

impl PidAllocator {
    /// An allocator that has handed out nothing yet.
    pub fn new() -> (a: PidAllocator)
        ensures
            a.current == 0,
    {
        PidAllocator { current: 0 }
    }

    /// Whether every identifier has been handed out.
    pub fn exhausted(&self) -> (b: bool)
        ensures
            b == (self.current == usize::MAX),
    {
        self.current == usize::MAX
    }

    /// The next identifier: one more than the last.
    pub fn allocate(&mut self) -> (pid: PidHandle)
        requires
            old(self).current < usize::MAX,
        ensures
            pid.0 == old(self).current + 1,
            final(self).current == pid.0,
    {
        self.current += 1;
        PidHandle(self.current)
    }

    /// Identifiers are not taken back: nothing changes, and the answer is the
    /// identifier 0, which no process has.
    pub fn dealloc(&mut self) -> (pid: PidHandle)
        ensures
            pid.0 == 0,
            *final(self) == *old(self),
    {
        PidHandle(0)
    }
}

/// The next identifier of `allocator`.
pub fn alloc_pid(allocator: &mut PidAllocator) -> (pid: PidHandle)
    requires
        old(allocator).current < usize::MAX,
    ensures
        pid.0 == old(allocator).current + 1,
        final(allocator).current == pid.0,
{
    allocator.allocate()
}

} // verus!
