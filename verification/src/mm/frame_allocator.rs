//! The allocator of physical frames and the handle that owns one frame.
use vstd::prelude::*;
use vstd::set_lib::*;
use crate::config::{PAGE_SIZE, PPN_MASK};
use crate::mm::address::PhysPageNum;

verus! {

/// One physical frame in the hands of its owner: its number and its 4096 bytes.
pub struct FrameTracker {
    pub ppn: PhysPageNum,
    pub bytes: Vec<u8>,
}

impl FrameTracker {
    /// A frame holds exactly one page of bytes.
    pub open spec fn wf(&self) -> bool {
        self.bytes@.len() == PAGE_SIZE && self.ppn.0 <= PPN_MASK
    }

    /// Takes ownership of frame `ppn` with every byte cleared.
    pub fn new(ppn: PhysPageNum) -> (frame: FrameTracker)
        requires
            ppn.0 <= PPN_MASK,
        ensures
            frame.wf(),
            frame.ppn == ppn,
            frame.bytes@ == Seq::new(PAGE_SIZE as nat, |i: int| 0u8),
    {
        let bytes: Vec<u8> = vec![0u8; 4096];
        assert(bytes@ =~= Seq::new(PAGE_SIZE as nat, |i: int| 0u8));
        FrameTracker { ppn, bytes }
    }
}

/// Hands out frames of the pool `start..end`: first the frames that came back,
/// last returned first, then the frames never used, lowest number first.
pub struct StackFrameAllocator {
    pub start: u64,
    pub current: u64,
    pub end: u64,
    pub recycled: Vec<u64>,
}

/// Whether `x` occurs in `v`.
pub fn vec_contains(v: &Vec<u64>, x: u64) -> (found: bool)
    ensures
        found == v@.contains(x),
{
    let mut i: usize = 0;
    while i < v.len()
        invariant
            i <= v.len(),
            forall|j: int| 0 <= j < i ==> v@[j] != x,
        decreases v.len() - i,
    {
        if v[i] == x {
            return true;
        }
        i += 1;
    }
    false
}

impl StackFrameAllocator {
    /// The never-used frames lie above the returned ones, no frame was returned
    /// twice, every frame number fits a page table entry, and every frame of
    /// the pool is either handed out or free.
    pub open spec fn wf(&self) -> bool {
        &&& self.start <= self.current <= self.end <= PPN_MASK + 1
        &&& forall|i: int|
            0 <= i < self.recycled@.len() ==> self.start <= #[trigger] self.recycled@[i]
                < self.current
        &&& self.recycled@.no_duplicates()
        &&& self@.finite()
        &&& self@.len() + self.free_count() == self.end - self.start
    }

    /// Whether frame `ppn` could be handed out.
    pub open spec fn is_free(&self, ppn: u64) -> bool {
        self.current <= ppn < self.end || self.recycled@.contains(ppn)
    }

    /// Whether frame `ppn` is handed out at present.
    pub open spec fn is_allocated(&self, ppn: u64) -> bool {
        self.start <= ppn < self.current && !self.recycled@.contains(ppn)
    }

    /// The frames handed out at present.
    pub open spec fn view(&self) -> Set<u64> {
        Set::new(|ppn: u64| self.is_allocated(ppn))
    }

    /// How many frames could still be handed out.
    pub open spec fn free_count(&self) -> nat {
        (self.end - self.current + self.recycled@.len()) as nat
    }

    /// The frame that the next allocation hands out, if any is free.
    pub open spec fn next_frame(&self) -> u64 {
        if self.recycled@.len() > 0 {
            self.recycled@.last()
        } else {
            self.current
        }
    }

    /// The returned frames are distinct frames below `current`, so they are no more
    /// than the frames below `current`.
    pub proof fn lemma_recycled_bound(&self)
        requires
            self.wf(),
        ensures
            self.recycled@.len() <= self.current - self.start,
    {
        let s = self.recycled@.to_set();
        self.recycled@.unique_seq_to_set();
        let r = set_int_range(self.start as int, self.current as int);
        lemma_int_range(self.start as int, self.current as int);
        let f = |x: u64| x as int;
        let t = s.map(f);
        assert(vstd::relations::injective_on(f, s));
        lemma_map_size(s, t, f);
        assert(t.subset_of(r)) by {
            assert forall|a: int| t.contains(a) implies r.contains(a) by {
                let x = choose|x: u64| s.contains(x) && f(x) == a;
                assert(self.recycled@.contains(x));
            }
        }
        lemma_len_subset(t, r);
    }

    /// An allocator over the frames `start..end`, none handed out. Frame numbers
    /// above 44 bits are left out, and with `end` below `start` the pool is empty.
    pub fn new(start: PhysPageNum, end: PhysPageNum) -> (a: StackFrameAllocator)
        ensures
            a.wf(),
            a.start == if start.0 <= PPN_MASK { start.0 } else { (PPN_MASK + 1) as u64 },
            a.current == a.start,
            a.end == if end.0 < a.start { a.start } else if end.0 <= PPN_MASK { end.0 } else {
                (PPN_MASK + 1) as u64
            },
            a.recycled@.len() == 0,
            a@ == Set::<u64>::empty(),
            a.free_count() == a.end - a.start,
    {
        let s: u64 = if start.0 <= PPN_MASK { start.0 } else { PPN_MASK + 1 };
        let e: u64 = if end.0 < s { s } else if end.0 <= PPN_MASK { end.0 } else { PPN_MASK + 1 };
        let a = StackFrameAllocator { start: s, current: s, end: e, recycled: Vec::new() };
        assert(a@ =~= Set::<u64>::empty());
        a
    }

    /// How many frames could still be handed out.
    pub fn available(&self) -> (n: u64)
        requires
            self.wf(),
        ensures
            n == self.free_count(),
    {
        proof {
            self.lemma_recycled_bound();
        }
        (self.end - self.current) + (self.recycled.len() as u64)
    }

    /// Hands out one frame, or `None` when none is free.
    pub fn allocate(&mut self) -> (res: Option<PhysPageNum>)
        requires
            old(self).wf(),
        ensures
            final(self).wf(),
            final(self).start == old(self).start,
            final(self).end == old(self).end,
            old(self).free_count() == 0 ==> res is None && *final(self) == *old(self),
            old(self).free_count() > 0 ==> {
                &&& res == Some(PhysPageNum(old(self).next_frame()))
                &&& old(self).is_free(old(self).next_frame())
                &&& !old(self)@.contains(old(self).next_frame())
                &&& final(self)@ == old(self)@.insert(old(self).next_frame())
                &&& final(self).free_count() == old(self).free_count() - 1
                &&& if old(self).recycled@.len() > 0 {
                    &&& final(self).recycled@ == old(self).recycled@.drop_last()
                    &&& final(self).current == old(self).current
                } else {
                    &&& final(self).recycled@ == old(self).recycled@
                    &&& final(self).current == old(self).current + 1
                }
            },
    {
        if self.recycled.len() > 0 {
            let ghost before = self.recycled@;
            let ppn = self.recycled.pop().unwrap();
            proof {
                assert(before.contains(ppn)) by {
                    assert(before[before.len() - 1] == ppn);
                }
                assert(!self.recycled@.contains(ppn)) by {
                    if self.recycled@.contains(ppn) {
                        let j = choose|j: int| 0 <= j < self.recycled@.len() && self.recycled@[j] == ppn;
                        assert(before[j] == before[before.len() - 1]);
                    }
                }
                assert forall|p: u64| self.recycled@.contains(p) implies before.contains(p) by {
                    let j = choose|j: int| 0 <= j < self.recycled@.len() && self.recycled@[j] == p;
                    assert(before[j] == p);
                }
                assert forall|p: u64| before.contains(p) && p != ppn implies self.recycled@.contains(p) by {
                    let j = choose|j: int| 0 <= j < before.len() && before[j] == p;
                    assert(self.recycled@[j] == p);
                }
                assert(self@ =~= old(self)@.insert(ppn));
            }
            Some(PhysPageNum(ppn))
        } else if self.current == self.end {
            None
        } else {
            let ppn = self.current;
            self.current = self.current + 1;
            proof {
                assert(self@ =~= old(self)@.insert(ppn));
            }
            Some(PhysPageNum(ppn))
        }
    }

    /// Takes frame `ppn` back. A frame that is not handed out is refused and
    /// nothing changes.
    pub fn dealloc(&mut self, ppn: PhysPageNum) -> (done: bool)
        requires
            old(self).wf(),
        ensures
            final(self).wf(),
            final(self).start == old(self).start,
            final(self).end == old(self).end,
            done == old(self).is_allocated(ppn.0),
            !done ==> *final(self) == *old(self),
            done ==> {
                &&& final(self)@ == old(self)@.remove(ppn.0)
                &&& final(self).free_count() == old(self).free_count() + 1
                &&& final(self).current == old(self).current
                &&& final(self).recycled@ == old(self).recycled@.push(ppn.0)
            },
    {
        if ppn.0 < self.start || ppn.0 >= self.current || vec_contains(&self.recycled, ppn.0) {
            return false;
        }
        self.recycled.push(ppn.0);
        proof {
            let before = old(self).recycled@;
            assert forall|p: u64| self.recycled@.contains(p) <==> (before.contains(p) || p == ppn.0) by {
                if self.recycled@.contains(p) {
                    let j = choose|j: int| 0 <= j < self.recycled@.len() && self.recycled@[j] == p;
                    if j < before.len() {
                        assert(before[j] == p);
                    }
                }
                if before.contains(p) {
                    let j = choose|j: int| 0 <= j < before.len() && before[j] == p;
                    assert(self.recycled@[j] == p);
                }
                if p == ppn.0 {
                    assert(self.recycled@[before.len() as int] == p);
                }
            }
            assert(self@ =~= old(self)@.remove(ppn.0));
        }
        true
    }
}

/// Takes a free frame from `allocator` into ownership, cleared.
pub fn frame_alloc(allocator: &mut StackFrameAllocator) -> (res: Option<FrameTracker>)
    requires
        old(allocator).wf(),
    ensures
        final(allocator).wf(),
        final(allocator).start == old(allocator).start,
        final(allocator).end == old(allocator).end,
        old(allocator).free_count() == 0 ==> res is None && *final(allocator) == *old(allocator),
        old(allocator).free_count() > 0 ==> {
            &&& res matches Some(frame)
            &&& frame.wf()
            &&& frame.ppn.0 == old(allocator).next_frame()
            &&& frame.bytes@ == Seq::new(PAGE_SIZE as nat, |i: int| 0u8)
            &&& !old(allocator)@.contains(frame.ppn.0)
            &&& final(allocator)@ == old(allocator)@.insert(frame.ppn.0)
            &&& final(allocator).free_count() == old(allocator).free_count() - 1
        },
{
    match allocator.allocate() {
        Some(ppn) => Some(FrameTracker::new(ppn)),
        None => None,
    }
}

/// Gives the frame behind `frame` back to `allocator`.
pub fn frame_dealloc(allocator: &mut StackFrameAllocator, frame: FrameTracker) -> (done: bool)
    requires
        old(allocator).wf(),
    ensures
        final(allocator).wf(),
        final(allocator).start == old(allocator).start,
        final(allocator).end == old(allocator).end,
        done == old(allocator).is_allocated(frame.ppn.0),
        !done ==> *final(allocator) == *old(allocator),
        done ==> {
            &&& final(allocator)@ == old(allocator)@.remove(frame.ppn.0)
            &&& final(allocator).free_count() == old(allocator).free_count() + 1
        },
{
    allocator.dealloc(frame.ppn)
}

} // verus!
