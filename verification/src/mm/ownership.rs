//! Who owns which frame: an address space holds frames that the allocator
//! handed out, each once.
use vstd::prelude::*;
use crate::mm::address::VirtAddr;
use crate::mm::builder::lemma_owned_push;
use crate::mm::frame_allocator::StackFrameAllocator;
use crate::mm::memory_set::{MapPermission, MemorySet};

verus! {

impl MemorySet {
    /// No frame stands twice in the address space: not twice in an area, not
    /// in two areas, and the root of the page table in no area.
    pub open spec fn frames_distinct(&self) -> bool {
        &&& forall|i: int| 0 <= i < self.areas@.len() ==> (#[trigger] self.areas@[i]).ppns().no_duplicates()
        &&& forall|i: int, j: int|
            0 <= i < self.areas@.len() && 0 <= j < self.areas@.len() && i != j ==> (
            #[trigger] self.areas@[i]).ppns().to_set().disjoint(
                (#[trigger] self.areas@[j]).ppns().to_set(),
            )
        &&& forall|i: int|
            0 <= i < self.areas@.len() ==> !(#[trigger] self.areas@[i]).ppns().contains(
                self.page_table.root_ppn.0,
            )
    }

    /// Whether the address space holds its frames out of `allocated`: every
    /// frame of it is in `allocated`, and none stands twice in it.
    pub open spec fn held_in(&self, allocated: Set<u64>) -> bool {
        self.owned().subset_of(allocated) && self.frames_distinct()
    }
}

/// A frame of an area is a frame of the address space.
pub proof fn lemma_area_frames_owned(ms: &MemorySet, i: int)
    requires
        0 <= i < ms.areas@.len(),
    ensures
        ms.areas@[i].ppns().to_set().subset_of(ms.owned()),
        ms.owned().contains(ms.page_table.root_ppn.0),
{
    assert forall|p: u64| ms.areas@[i].ppns().to_set().contains(p) implies ms.owned().contains(p) by {
        assert(ms.areas@[i].ppns().contains(p));
    }
}

/// An address space that holds its frames still holds them after a framed
/// area was inserted, and it holds the new frames as well.
pub proof fn lemma_held_insert(
    before: &MemorySet,
    after: &MemorySet,
    allocator: &StackFrameAllocator,
    before_alloc: &StackFrameAllocator,
    start_va: VirtAddr,
    end_va: VirtAddr,
    perm: MapPermission,
)
    requires
        before.held_in(before_alloc@),
        after.after_insert(before, allocator, before_alloc, start_va, end_va, perm),
    ensures
        after.held_in(allocator@),
        after.owned() == before.owned().union(after.areas@.last().ppns().to_set()),
        after.areas@.last().ppns().to_set().disjoint(before_alloc@),
{
    let n = before.areas@.len() as int;
    let area = after.areas@.last();
    lemma_owned_push(before, after);
    assert forall|i: int| 0 <= i < n implies after.areas@[i] == before.areas@[i] by {
        assert(after.areas@.drop_last()[i] == after.areas@[i]);
    }
    assert forall|p: u64| area.ppns().to_set().contains(p) implies !before_alloc@.contains(p) by {
        let k = choose|k: int| 0 <= k < area.ppns().len() && area.ppns()[k] == p;
        assert(!before_alloc@.contains(area.frames@[k].ppn.0));
    }
    assert forall|i: int| 0 <= i < n implies (#[trigger] before.areas@[i]).ppns().to_set().disjoint(
        area.ppns().to_set(),
    ) by {
        lemma_area_frames_owned(before, i);
    }
    lemma_area_frames_owned(after, n);
    assert(!area.ppns().contains(after.page_table.root_ppn.0)) by {
        assert(before.owned().contains(before.page_table.root_ppn.0));
        if area.ppns().contains(after.page_table.root_ppn.0) {
            assert(area.ppns().to_set().contains(after.page_table.root_ppn.0));
        }
    }
    assert forall|i: int, j: int|
        0 <= i < after.areas@.len() && 0 <= j < after.areas@.len() && i != j implies (
    #[trigger] after.areas@[i]).ppns().to_set().disjoint(
        (#[trigger] after.areas@[j]).ppns().to_set(),
    ) by {
        if i < n && j < n {
            assert(before.areas@[i].ppns().to_set().disjoint(before.areas@[j].ppns().to_set()));
        } else if i < n {
            assert(before.areas@[i].ppns().to_set().disjoint(area.ppns().to_set()));
        } else {
            assert(before.areas@[j].ppns().to_set().disjoint(area.ppns().to_set()));
        }
    }
    assert forall|i: int| 0 <= i < after.areas@.len() implies (#[trigger] after.areas@[i]).ppns().no_duplicates()
        && !after.areas@[i].ppns().contains(after.page_table.root_ppn.0) by {
        if i < n {
            assert(before.areas@[i].ppns().no_duplicates());
        }
    }
}

/// An address space that holds its frames still holds the rest after an
/// area was taken out, and the frames of that area are its no more.
pub proof fn lemma_held_remove(
    before: &MemorySet,
    after: &MemorySet,
    allocator: &StackFrameAllocator,
    before_alloc: &StackFrameAllocator,
    idx: int,
)
    requires
        before.held_in(before_alloc@),
        0 <= idx < before.areas@.len(),
        after.after_remove(before, allocator, before_alloc, idx),
    ensures
        after.held_in(allocator@),
        after.owned() == before.owned().difference(before.areas@[idx].ppns().to_set()),
        before.areas@[idx].ppns().to_set().subset_of(before.owned()),
{
    let gone = before.areas@[idx].ppns().to_set();
    lemma_area_frames_owned(before, idx);
    assert forall|i: int| 0 <= i < after.areas@.len() implies #[trigger] after.areas@[i]
        == before.areas@[if i < idx { i } else { i + 1 }] by {}
    assert forall|p: u64| after.owned().contains(p) <==> before.owned().difference(gone).contains(
        p,
    ) by {
        if after.owned().contains(p) && p != after.page_table.root_ppn.0 {
            let i = choose|i: int|
                0 <= i < after.areas@.len() && (#[trigger] after.areas@[i]).ppns().contains(p);
            let b = if i < idx { i } else { i + 1 };
            assert(before.areas@[b].ppns().contains(p));
            assert(before.areas@[b].ppns().to_set().disjoint(gone));
            assert(before.areas@[b].ppns().to_set().contains(p));
        }
        if p == before.page_table.root_ppn.0 {
            assert(!before.areas@[idx].ppns().contains(p));
        }
        if before.owned().contains(p) && !gone.contains(p) && p != before.page_table.root_ppn.0 {
            let i = choose|i: int|
                0 <= i < before.areas@.len() && (#[trigger] before.areas@[i]).ppns().contains(p);
            assert(i != idx);
            let a = if i < idx { i } else { i - 1 };
            assert(after.areas@[a].ppns().contains(p));
        }
    }
    assert(after.owned() =~= before.owned().difference(gone));
    assert forall|i: int, j: int|
        0 <= i < after.areas@.len() && 0 <= j < after.areas@.len() && i != j implies (
    #[trigger] after.areas@[i]).ppns().to_set().disjoint(
        (#[trigger] after.areas@[j]).ppns().to_set(),
    ) by {
        let bi = if i < idx { i } else { i + 1 };
        let bj = if j < idx { j } else { j + 1 };
        assert(before.areas@[bi].ppns().to_set().disjoint(before.areas@[bj].ppns().to_set()));
    }
    assert forall|i: int| 0 <= i < after.areas@.len() implies (#[trigger] after.areas@[i]).ppns().no_duplicates()
        && !after.areas@[i].ppns().contains(after.page_table.root_ppn.0) by {
        let bi = if i < idx { i } else { i + 1 };
        assert(before.areas@[bi].ppns().no_duplicates());
    }
}

/// An address space with the mappings of one that holds its frames holds
/// the same frames.
pub proof fn lemma_held_same_mappings(a: &MemorySet, b: &MemorySet, allocated: Set<u64>)
    requires
        a.same_mappings(b),
        b.held_in(allocated),
    ensures
        a.held_in(allocated),
        a.owned() == b.owned(),
{
    crate::mm::builder::lemma_same_mappings_owned(a, b);
    assert forall|i: int| 0 <= i < a.areas@.len() implies (#[trigger] a.areas@[i]).ppns()
        == b.areas@[i].ppns() by {
        assert(a.areas@[i].same_mapping(&b.areas@[i]));
    }
    assert forall|i: int, j: int|
        0 <= i < a.areas@.len() && 0 <= j < a.areas@.len() && i != j implies (
    #[trigger] a.areas@[i]).ppns().to_set().disjoint((#[trigger] a.areas@[j]).ppns().to_set()) by {
        assert(b.areas@[i].ppns().to_set().disjoint(b.areas@[j].ppns().to_set()));
    }
    assert forall|i: int| 0 <= i < a.areas@.len() implies (#[trigger] a.areas@[i]).ppns().no_duplicates()
        && !a.areas@[i].ppns().contains(a.page_table.root_ppn.0) by {
        assert(b.areas@[i].ppns().no_duplicates());
    }
}

/// An address space that holds its frames holds them still after an area
/// without frames was added.
pub proof fn lemma_held_push_empty(before: &MemorySet, after: &MemorySet, allocated: Set<u64>)
    requires
        before.held_in(allocated),
        after.areas@.len() == before.areas@.len() + 1,
        after.areas@.drop_last() == before.areas@,
        after.areas@.last().frames@.len() == 0,
        after.page_table.root_ppn == before.page_table.root_ppn,
    ensures
        after.held_in(allocated),
        after.owned() == before.owned(),
{
    let n = before.areas@.len() as int;
    lemma_owned_push(before, after);
    assert(after.areas@.last().ppns() =~= Seq::<u64>::empty());
    assert(after.areas@.last().ppns().to_set() =~= Set::<u64>::empty());
    assert(after.owned() =~= before.owned());
    assert forall|i: int| 0 <= i < n implies after.areas@[i] == before.areas@[i] by {
        assert(after.areas@.drop_last()[i] == after.areas@[i]);
    }
    assert forall|i: int, j: int|
        0 <= i < after.areas@.len() && 0 <= j < after.areas@.len() && i != j implies (
    #[trigger] after.areas@[i]).ppns().to_set().disjoint(
        (#[trigger] after.areas@[j]).ppns().to_set(),
    ) by {
        if i < n && j < n {
            assert(before.areas@[i].ppns().to_set().disjoint(before.areas@[j].ppns().to_set()));
        }
    }
    assert forall|i: int| 0 <= i < after.areas@.len() implies (#[trigger] after.areas@[i]).ppns().no_duplicates()
        && !after.areas@[i].ppns().contains(after.page_table.root_ppn.0) by {
        if i < n {
            assert(before.areas@[i].ppns().no_duplicates());
        }
    }
}

} // verus!
