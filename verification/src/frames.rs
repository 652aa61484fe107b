//! The ownership of frames in the whole kernel: every frame of an address
//! space was handed out by the allocator, and no frame is in two places.
use vstd::prelude::*;
use crate::kernel::Kernel;
use crate::mm::memory_set::MemorySet;

verus! {

impl Kernel {
    /// Every address space, the kernel's and that of each live process, holds
    /// frames that the allocator handed out, each once, and no two address
    /// spaces have a frame in common.
    pub open spec fn frames_ok(&self) -> bool {
        &&& self.kernel_space.held_in(self.frames@)
        &&& forall|i: int|
            0 <= i < self.tasks@.len() ==> {
                &&& (#[trigger] self.tasks@[i]).inner.addr_space.held_in(self.frames@)
                &&& self.tasks@[i].inner.addr_space.owned().disjoint(self.kernel_space.owned())
            }
        &&& forall|i: int, j: int|
            0 <= i < self.tasks@.len() && 0 <= j < self.tasks@.len() && i != j ==> (
            #[trigger] self.tasks@[i]).inner.addr_space.owned().disjoint(
                (#[trigger] self.tasks@[j]).inner.addr_space.owned(),
            )
    }

    /// Whether `ms` is an address space that no process has, which holds
    /// frames that the allocator handed out, none of them in an address space
    /// of the kernel.
    pub open spec fn detached(&self, ms: &MemorySet) -> bool {
        &&& ms.held_in(self.frames@)
        &&& ms.owned().disjoint(self.kernel_space.owned())
        &&& forall|i: int|
            0 <= i < self.tasks@.len() ==> ms.owned().disjoint(
                (#[trigger] self.tasks@[i]).inner.addr_space.owned(),
            )
    }

    /// Whether between `before` and this kernel no frame changed hands: the
    /// same frames are handed out, and the address spaces of the kernel and of
    /// every process have the mappings that they had.
    pub open spec fn same_frames(&self, before: &Kernel) -> bool {
        &&& self.frames@ == before.frames@
        &&& self.kernel_space.same_mappings(&before.kernel_space)
        &&& self.tasks@.len() == before.tasks@.len()
        &&& forall|i: int|
            0 <= i < self.tasks@.len() ==> (#[trigger] self.tasks@[i]).inner.addr_space.same_mappings(
                &before.tasks@[i].inner.addr_space,
            )
    }
}

/// Where no frame changed hands, the ownership of frames is as it was.
pub proof fn lemma_frames_ok_same(before: &Kernel, after: &Kernel)
    requires
        before.frames_ok(),
        after.same_frames(before),
    ensures
        after.frames_ok(),
{
    crate::mm::ownership::lemma_held_same_mappings(
        &after.kernel_space,
        &before.kernel_space,
        before.frames@,
    );
    assert forall|i: int| 0 <= i < after.tasks@.len() implies {
        &&& (#[trigger] after.tasks@[i]).inner.addr_space.held_in(before.frames@)
        &&& after.tasks@[i].inner.addr_space.owned() == before.tasks@[i].inner.addr_space.owned()
    } by {
        crate::mm::ownership::lemma_held_same_mappings(
            &after.tasks@[i].inner.addr_space,
            &before.tasks@[i].inner.addr_space,
            before.frames@,
        );
    }
    assert forall|i: int, j: int|
        0 <= i < after.tasks@.len() && 0 <= j < after.tasks@.len() && i != j implies (
    #[trigger] after.tasks@[i]).inner.addr_space.owned().disjoint(
        (#[trigger] after.tasks@[j]).inner.addr_space.owned(),
    ) by {
        assert(before.tasks@[i].inner.addr_space.owned().disjoint(
            before.tasks@[j].inner.addr_space.owned(),
        ));
    }
}

/// Where no frame changed hands, a detached address space is detached still.
pub proof fn lemma_detached_same(before: &Kernel, after: &Kernel, ms: &MemorySet)
    requires
        before.detached(ms),
        after.same_frames(before),
    ensures
        after.detached(ms),
{
    crate::mm::builder::lemma_same_mappings_owned(&after.kernel_space, &before.kernel_space);
    assert forall|i: int| 0 <= i < after.tasks@.len() implies ms.owned().disjoint(
        (#[trigger] after.tasks@[i]).inner.addr_space.owned(),
    ) by {
        crate::mm::builder::lemma_same_mappings_owned(
            &after.tasks@[i].inner.addr_space,
            &before.tasks@[i].inner.addr_space,
        );
        assert(ms.owned().disjoint(before.tasks@[i].inner.addr_space.owned()));
    }
}

/// The ownership of frames holds still after the address space of the
/// process at `idx` gave the frames `gone` back and took the frames `fresh`,
/// which were free.
pub proof fn lemma_frames_ok_task_changed(
    before: &Kernel,
    after: &Kernel,
    idx: int,
    gone: Set<u64>,
    fresh: Set<u64>,
)
    requires
        before.frames_ok(),
        0 <= idx < before.tasks@.len(),
        after.tasks@.len() == before.tasks@.len(),
        forall|j: int|
            0 <= j < before.tasks@.len() && j != idx ==> (
            #[trigger] after.tasks@[j]).inner.addr_space == before.tasks@[j].inner.addr_space,
        after.kernel_space == before.kernel_space,
        after.tasks@[idx].inner.addr_space.frames_distinct(),
        after.tasks@[idx].inner.addr_space.owned() =~= before.tasks@[
            idx
        ].inner.addr_space.owned().difference(gone).union(fresh),
        gone.subset_of(before.tasks@[idx].inner.addr_space.owned()),
        fresh.disjoint(before.frames@),
        after.frames@ =~= before.frames@.difference(gone).union(fresh),
    ensures
        after.frames_ok(),
{
    let changed = before.tasks@[idx].inner.addr_space.owned();
    assert forall|i: int| 0 <= i < after.tasks@.len() implies {
        &&& (#[trigger] after.tasks@[i]).inner.addr_space.held_in(after.frames@)
        &&& after.tasks@[i].inner.addr_space.owned().disjoint(after.kernel_space.owned())
    } by {
        assert(before.tasks@[i].inner.addr_space.held_in(before.frames@));
        assert(before.tasks@[idx].inner.addr_space.held_in(before.frames@));
        if i != idx {
            assert(before.tasks@[i].inner.addr_space.owned().disjoint(changed));
        }
    }
    assert forall|i: int, j: int|
        0 <= i < after.tasks@.len() && 0 <= j < after.tasks@.len() && i != j implies (
    #[trigger] after.tasks@[i]).inner.addr_space.owned().disjoint(
        (#[trigger] after.tasks@[j]).inner.addr_space.owned(),
    ) by {
        assert(before.tasks@[i].inner.addr_space.owned().disjoint(
            before.tasks@[j].inner.addr_space.owned(),
        ));
        assert(before.tasks@[i].inner.addr_space.held_in(before.frames@));
        assert(before.tasks@[j].inner.addr_space.held_in(before.frames@));
    }
    assert(before.kernel_space.owned().disjoint(changed)) by {
        assert(before.tasks@[idx].inner.addr_space.owned().disjoint(before.kernel_space.owned()));
    }
}

/// The ownership of frames holds still after the kernel's address space
/// gave the frames `gone` back and took the frames `fresh`, which were free;
/// and an address space that was detached is detached still.
pub proof fn lemma_frames_ok_kernel_changed(
    before: &Kernel,
    after: &Kernel,
    gone: Set<u64>,
    fresh: Set<u64>,
)
    requires
        before.frames_ok(),
        after.tasks@ == before.tasks@,
        after.kernel_space.frames_distinct(),
        after.kernel_space.owned() =~= before.kernel_space.owned().difference(gone).union(fresh),
        gone.subset_of(before.kernel_space.owned()),
        fresh.disjoint(before.frames@),
        after.frames@ =~= before.frames@.difference(gone).union(fresh),
    ensures
        after.frames_ok(),
        forall|ms: MemorySet| #[trigger] before.detached(&ms) ==> after.detached(&ms),
{
    assert forall|i: int| 0 <= i < after.tasks@.len() implies {
        &&& (#[trigger] after.tasks@[i]).inner.addr_space.held_in(after.frames@)
        &&& after.tasks@[i].inner.addr_space.owned().disjoint(after.kernel_space.owned())
    } by {
        assert(before.tasks@[i].inner.addr_space.held_in(before.frames@));
        assert(before.tasks@[i].inner.addr_space.owned().disjoint(before.kernel_space.owned()));
    }
    assert forall|i: int, j: int|
        0 <= i < after.tasks@.len() && 0 <= j < after.tasks@.len() && i != j implies (
    #[trigger] after.tasks@[i]).inner.addr_space.owned().disjoint(
        (#[trigger] after.tasks@[j]).inner.addr_space.owned(),
    ) by {
        assert(before.tasks@[i].inner.addr_space.owned().disjoint(
            before.tasks@[j].inner.addr_space.owned(),
        ));
    }
    assert forall|ms: MemorySet| #[trigger] before.detached(&ms) implies after.detached(&ms) by {
        assert forall|i: int| 0 <= i < after.tasks@.len() implies ms.owned().disjoint(
            (#[trigger] after.tasks@[i]).inner.addr_space.owned(),
        ) by {
            assert(ms.owned().disjoint(before.tasks@[i].inner.addr_space.owned()));
        }
    }
}

/// The ownership of frames holds still after a framed area was inserted
/// into the kernel's address space, and an address space that was detached
/// is detached still.
pub proof fn lemma_frames_ok_kernel_insert(
    before: &Kernel,
    after: &Kernel,
    start_va: crate::mm::address::VirtAddr,
    end_va: crate::mm::address::VirtAddr,
    perm: crate::mm::memory_set::MapPermission,
)
    requires
        before.frames_ok(),
        after.tasks@ == before.tasks@,
        after.kernel_space.after_insert(
            &before.kernel_space,
            &after.frames,
            &before.frames,
            start_va,
            end_va,
            perm,
        ),
    ensures
        after.frames_ok(),
        forall|ms: MemorySet| #[trigger] before.detached(&ms) ==> after.detached(&ms),
{
    crate::mm::ownership::lemma_held_insert(
        &before.kernel_space,
        &after.kernel_space,
        &after.frames,
        &before.frames,
        start_va,
        end_va,
        perm,
    );
    lemma_frames_ok_kernel_changed(
        before,
        after,
        Set::empty(),
        after.kernel_space.areas@.last().ppns().to_set(),
    );
}

/// A fresh address space over frames that were free is detached, and the
/// ownership of frames holds still.
pub proof fn lemma_detached_fresh(before: &Kernel, after: &Kernel, ms: &MemorySet)
    requires
        before.frames_ok(),
        after.tasks@ == before.tasks@,
        after.kernel_space == before.kernel_space,
        ms.held_in(after.frames@),
        ms.fresh_for(before.frames@),
        before.frames@.subset_of(after.frames@),
    ensures
        after.frames_ok(),
        after.detached(ms),
{
    assert forall|i: int| 0 <= i < after.tasks@.len() implies {
        &&& (#[trigger] after.tasks@[i]).inner.addr_space.held_in(after.frames@)
        &&& ms.owned().disjoint(after.tasks@[i].inner.addr_space.owned())
    } by {
        assert(before.tasks@[i].inner.addr_space.held_in(before.frames@));
    }
}

/// The ownership of frames holds still after a detached address space gave
/// all its frames back.
pub proof fn lemma_frames_ok_dropped(before: &Kernel, after: &Kernel, ms: &MemorySet)
    requires
        before.frames_ok(),
        before.detached(ms),
        after.tasks@ == before.tasks@,
        after.kernel_space == before.kernel_space,
        after.frames@ =~= before.frames@.difference(ms.owned()),
    ensures
        after.frames_ok(),
{
    assert forall|i: int| 0 <= i < after.tasks@.len() implies (
    #[trigger] after.tasks@[i]).inner.addr_space.held_in(after.frames@) by {
        assert(before.tasks@[i].inner.addr_space.held_in(before.frames@));
        assert(ms.owned().disjoint(before.tasks@[i].inner.addr_space.owned()));
    }
}

/// The ownership of frames holds still after a process took a detached
/// address space as its own.
pub proof fn lemma_frames_ok_push(before: &Kernel, after: &Kernel)
    requires
        before.frames_ok(),
        after.tasks@.len() == before.tasks@.len() + 1,
        after.tasks@.drop_last() == before.tasks@,
        before.detached(&after.tasks@.last().inner.addr_space),
        after.kernel_space == before.kernel_space,
        after.frames@ == before.frames@,
    ensures
        after.frames_ok(),
{
    let n = before.tasks@.len() as int;
    assert forall|i: int| 0 <= i < n implies after.tasks@[i] == before.tasks@[i] by {
        assert(after.tasks@.drop_last()[i] == after.tasks@[i]);
    }
    assert forall|i: int| 0 <= i < after.tasks@.len() implies {
        &&& (#[trigger] after.tasks@[i]).inner.addr_space.held_in(after.frames@)
        &&& after.tasks@[i].inner.addr_space.owned().disjoint(after.kernel_space.owned())
    } by {
        if i < n {
            assert(before.tasks@[i].inner.addr_space.held_in(before.frames@));
        }
    }
    assert forall|i: int, j: int|
        0 <= i < after.tasks@.len() && 0 <= j < after.tasks@.len() && i != j implies (
    #[trigger] after.tasks@[i]).inner.addr_space.owned().disjoint(
        (#[trigger] after.tasks@[j]).inner.addr_space.owned(),
    ) by {
        if i < n && j < n {
            assert(before.tasks@[i].inner.addr_space.owned().disjoint(
                before.tasks@[j].inner.addr_space.owned(),
            ));
        } else if i < n {
            assert(after.tasks@[j].inner.addr_space.owned().disjoint(
                before.tasks@[i].inner.addr_space.owned(),
            ));
        } else {
            assert(after.tasks@[i].inner.addr_space.owned().disjoint(
                before.tasks@[j].inner.addr_space.owned(),
            ));
        }
    }
}

/// The ownership of frames holds still after a process left the live
/// processes, and its address space is detached.
pub proof fn lemma_frames_ok_remove(before: &Kernel, after: &Kernel, idx: int)
    requires
        before.frames_ok(),
        0 <= idx < before.tasks@.len(),
        after.tasks@ == before.tasks@.remove(idx),
        after.kernel_space == before.kernel_space,
        after.frames@ == before.frames@,
    ensures
        after.frames_ok(),
        after.detached(&before.tasks@[idx].inner.addr_space),
{
    assert forall|i: int| 0 <= i < after.tasks@.len() implies #[trigger] after.tasks@[i]
        == before.tasks@[if i < idx { i } else { i + 1 }] by {}
    assert forall|i: int| 0 <= i < after.tasks@.len() implies {
        &&& (#[trigger] after.tasks@[i]).inner.addr_space.held_in(after.frames@)
        &&& after.tasks@[i].inner.addr_space.owned().disjoint(after.kernel_space.owned())
        &&& before.tasks@[idx].inner.addr_space.owned().disjoint(
            after.tasks@[i].inner.addr_space.owned(),
        )
    } by {
        let b = if i < idx { i } else { i + 1 };
        assert(before.tasks@[b].inner.addr_space.held_in(before.frames@));
        assert(before.tasks@[idx].inner.addr_space.owned().disjoint(
            before.tasks@[b].inner.addr_space.owned(),
        ));
    }
    assert forall|i: int, j: int|
        0 <= i < after.tasks@.len() && 0 <= j < after.tasks@.len() && i != j implies (
    #[trigger] after.tasks@[i]).inner.addr_space.owned().disjoint(
        (#[trigger] after.tasks@[j]).inner.addr_space.owned(),
    ) by {
        let bi = if i < idx { i } else { i + 1 };
        let bj = if j < idx { j } else { j + 1 };
        assert(before.tasks@[bi].inner.addr_space.owned().disjoint(
            before.tasks@[bj].inner.addr_space.owned(),
        ));
    }
    assert(before.tasks@[idx].inner.addr_space.held_in(before.frames@));
}

/// The ownership of frames is as it was after one process changed with the
/// mappings of its address space kept.
pub proof fn lemma_frames_ok_update(before: &Kernel, after: &Kernel, idx: int)
    requires
        before.frames_ok(),
        0 <= idx < before.tasks@.len(),
        after.tasks@ == before.tasks@.update(idx, after.tasks@[idx]),
        after.tasks@[idx].inner.addr_space.same_mappings(&before.tasks@[idx].inner.addr_space),
        after.frames@ == before.frames@,
        after.kernel_space == before.kernel_space,
    ensures
        after.frames_ok(),
        forall|ms: MemorySet| #[trigger] before.detached(&ms) ==> after.detached(&ms),
{
    lemma_frames_ok_same(before, after);
    assert forall|ms: MemorySet| #[trigger] before.detached(&ms) implies after.detached(&ms) by {
        lemma_detached_same(before, after, &ms);
    }
}

/// In an address space that holds its frames once each, two pages with
/// frames of their own have different frames.
pub proof fn lemma_frames_not_shared_within(ms: &MemorySet, v1: u64, v2: u64)
    requires
        ms.wf(),
        ms.frames_distinct(),
        ms.page_framed(v1),
        ms.page_framed(v2),
        v1 != v2,
    ensures
        ms.page_table@[v1].spec_ppn() != ms.page_table@[v2].spec_ppn(),
{
    let a1 = ms.area_index(v1);
    let a2 = ms.area_index(v2);
    crate::mm::memory_set::lemma_translate_inside(ms, a1, v1);
    crate::mm::memory_set::lemma_translate_inside(ms, a2, v2);
    let k1 = v1 - ms.areas@[a1].start_vpn;
    let k2 = v2 - ms.areas@[a2].start_vpn;
    assert(ms.areas@[a1].wf());
    assert(ms.areas@[a2].wf());
    assert(ms.areas@[a1].ppns()[k1] == ms.areas@[a1].frames@[k1].ppn.0);
    assert(ms.areas@[a2].ppns()[k2] == ms.areas@[a2].frames@[k2].ppn.0);
    if a1 == a2 {
        assert(ms.areas@[a1].ppns().no_duplicates());
    } else {
        assert(ms.areas@[a1].ppns().to_set().disjoint(ms.areas@[a2].ppns().to_set()));
        assert(ms.areas@[a1].ppns().to_set().contains(ms.areas@[a1].ppns()[k1]));
        assert(ms.areas@[a2].ppns().to_set().contains(ms.areas@[a2].ppns()[k2]));
    }
}

/// No frame is in the address spaces of two processes: a page of one process
/// and a page of another, each with a frame of its own, have different frames.
pub proof fn lemma_frames_not_shared_between(k: &Kernel, i: int, j: int, v1: u64, v2: u64)
    requires
        k.wf(),
        k.frames_ok(),
        0 <= i < k.tasks@.len(),
        0 <= j < k.tasks@.len(),
        i != j,
        k.tasks@[i].inner.addr_space.page_framed(v1),
        k.tasks@[j].inner.addr_space.page_framed(v2),
    ensures
        k.tasks@[i].inner.addr_space.page_table@[v1].spec_ppn() != k.tasks@[
            j
        ].inner.addr_space.page_table@[v2].spec_ppn(),
{
    let m1 = k.tasks@[i].inner.addr_space;
    let m2 = k.tasks@[j].inner.addr_space;
    assert(k.task_ok(&k.tasks@[i]));
    assert(k.task_ok(&k.tasks@[j]));
    let a1 = m1.area_index(v1);
    let a2 = m2.area_index(v2);
    crate::mm::memory_set::lemma_translate_inside(&m1, a1, v1);
    crate::mm::memory_set::lemma_translate_inside(&m2, a2, v2);
    let k1 = v1 - m1.areas@[a1].start_vpn;
    let k2 = v2 - m2.areas@[a2].start_vpn;
    assert(m1.areas@[a1].wf());
    assert(m2.areas@[a2].wf());
    assert(m1.areas@[a1].ppns()[k1] == m1.areas@[a1].frames@[k1].ppn.0);
    assert(m2.areas@[a2].ppns()[k2] == m2.areas@[a2].frames@[k2].ppn.0);
    assert(m1.areas@[a1].ppns().contains(m1.areas@[a1].ppns()[k1]));
    assert(m2.areas@[a2].ppns().contains(m2.areas@[a2].ppns()[k2]));
    assert(m1.owned().contains(m1.areas@[a1].frames@[k1].ppn.0));
    assert(m2.owned().contains(m2.areas@[a2].frames@[k2].ppn.0));
    assert(m1.owned().disjoint(m2.owned()));
}

} // verus!
