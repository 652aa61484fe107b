//! Building an address space from a list of areas: for a program image, for a
//! copy of another address space, and for the kernel itself.
use vstd::prelude::*;
use crate::config::{PAGE_SIZE, PPN_MASK, TRAMPOLINE_VPN};
use crate::mm::address::{PhysPageNum, VirtAddr};
use crate::mm::frame_allocator::StackFrameAllocator;
use crate::mm::memory_set::{
    lemma_same_mappings_wf, MapArea, MapPermission, MapType, MemorySet,
};

verus! {

/// An area that is asked for: its address range, how it is mapped, and the
/// bytes that it starts with. The bytes after `data` start as zero.
pub struct AreaRequest {
    pub start_va: u64,
    pub end_va: u64,
    pub map_type: MapType,
    pub perm: MapPermission,
    pub data: Vec<u8>,
}

/// What an [`AreaRequest`] asks for, as a mathematical value.
pub struct AreaSpec {
    pub start_va: u64,
    pub end_va: u64,
    pub map_type: MapType,
    pub perm: MapPermission,
    pub data: Seq<u8>,
}

impl View for AreaRequest {
    type V = AreaSpec;

    open spec fn view(&self) -> AreaSpec {
        AreaSpec {
            start_va: self.start_va,
            end_va: self.end_va,
            map_type: self.map_type,
            perm: self.perm,
            data: self.data@,
        }
    }
}

/// What a list of requests asks for.
pub open spec fn specs(reqs: Seq<AreaRequest>) -> Seq<AreaSpec> {
    reqs.map_values(|r: AreaRequest| r@)
}

impl AreaSpec {
    /// The first page of the area.
    pub open spec fn start_vpn(&self) -> u64 {
        VirtAddr(self.start_va).spec_floor().0
    }

    /// The page after the last page of the area.
    pub open spec fn end_vpn(&self) -> u64 {
        VirtAddr(self.end_va).spec_ceil().0
    }

    /// Whether the area can stand alone: a framed area starts on a page
    /// boundary, ends below the trampoline page and has room for its bytes; an
    /// identical area lies within the frame numbers and has no bytes.
    pub open spec fn well_formed(&self) -> bool {
        match self.map_type {
            MapType::Framed => {
                &&& self.start_va % PAGE_SIZE == 0
                &&& self.start_vpn() <= self.end_vpn() <= TRAMPOLINE_VPN
                &&& self.data.len() <= (self.end_vpn() - self.start_vpn()) * PAGE_SIZE
            },
            MapType::Identical => {
                &&& self.start_vpn() <= self.end_vpn() <= PPN_MASK + 1
                &&& self.data.len() == 0
            },
        }
    }

    /// How many frames the area takes from the allocator.
    pub open spec fn frames_needed(&self) -> nat {
        match self.map_type {
            MapType::Framed => if self.start_vpn() <= self.end_vpn() {
                (self.end_vpn() - self.start_vpn()) as nat
            } else {
                0
            },
            MapType::Identical => 0,
        }
    }

    /// Whether this area and `other` share no page.
    pub open spec fn disjoint_from(&self, other: &AreaSpec) -> bool {
        self.end_vpn() <= other.start_vpn() || other.end_vpn() <= self.start_vpn()
            || self.start_vpn() == self.end_vpn() || other.start_vpn() == other.end_vpn()
    }

    /// The byte that the area starts with at offset `at` from its first page.
    pub open spec fn initial_byte(&self, at: int) -> u8 {
        if 0 <= at < self.data.len() {
            self.data[at]
        } else {
            0u8
        }
    }
}

/// Whether each area can stand alone and no two of them share a page.
pub open spec fn placeable(reqs: Seq<AreaSpec>) -> bool {
    &&& forall|i: int| 0 <= i < reqs.len() ==> (#[trigger] reqs[i]).well_formed()
    &&& forall|i: int, j: int|
        0 <= i < j < reqs.len() ==> #[trigger] reqs[i].disjoint_from(&reqs[j])
}

/// How many frames the areas take together.
pub open spec fn frames_total(reqs: Seq<AreaSpec>) -> nat
    decreases reqs.len(),
{
    if reqs.len() == 0 {
        0
    } else {
        frames_total(reqs.drop_last()) + reqs.last().frames_needed()
    }
}

/// The frames of the first `i + 1` areas are those of the first `i` and of area `i`.
pub proof fn lemma_frames_total_step(reqs: Seq<AreaSpec>, i: int)
    requires
        0 <= i < reqs.len(),
    ensures
        frames_total(reqs.take(i + 1)) == frames_total(reqs.take(i)) + reqs[i].frames_needed(),
{
    assert(reqs.take(i + 1).drop_last() =~= reqs.take(i));
}

/// A longer list of areas takes no fewer frames.
pub proof fn lemma_frames_total_mono(reqs: Seq<AreaSpec>, i: int, j: int)
    requires
        0 <= i <= j <= reqs.len(),
    ensures
        frames_total(reqs.take(i)) <= frames_total(reqs.take(j)),
    decreases j - i,
{
    if i < j {
        lemma_frames_total_mono(reqs, i, j - 1);
        lemma_frames_total_step(reqs, j - 1);
    }
}

impl MemorySet {
    /// Whether area `idx` stands for the request `req`: the same pages, mapped
    /// the same way, and in a framed area the bytes that the request starts with.
    pub open spec fn area_realizes(area: &MapArea, req: &AreaSpec) -> bool {
        &&& area.start_vpn == req.start_vpn()
        &&& area.end_vpn == req.end_vpn()
        &&& area.map_type == req.map_type
        &&& area.map_perm == req.perm
        &&& forall|k: int, o: int|
            0 <= k < area.frames@.len() && 0 <= o < PAGE_SIZE ==> #[trigger] area.frames@[k].bytes@[o]
                == req.initial_byte(k * PAGE_SIZE + o)
    }

    /// Whether the areas stand for the requests, one for one and in order.
    pub open spec fn realizes(&self, reqs: Seq<AreaSpec>) -> bool {
        &&& self.areas@.len() == reqs.len()
        &&& forall|i: int|
            0 <= i < reqs.len() ==> #[trigger] Self::area_realizes(&self.areas@[i], &reqs[i])
    }

    /// Whether none of the frames of the address space is in `taken`.
    pub open spec fn fresh_for(&self, taken: Set<u64>) -> bool {
        forall|p: u64| #[trigger] self.owned().contains(p) ==> !taken.contains(p)
    }

    /// Stores `data` from the first byte of area `idx` on.
    pub fn fill_area(&mut self, idx: usize, data: &Vec<u8>)
        requires
            old(self).wf(),
            idx < old(self).areas@.len(),
            old(self).areas@[idx as int].map_type == MapType::Framed,
            data@.len() <= old(self).areas@[idx as int].frames@.len() * PAGE_SIZE,
        ensures
            final(self).wf(),
            final(self).same_mappings(old(self)),
            forall|j: int|
                0 <= j < old(self).areas@.len() && j != idx ==> final(self).areas@[j] == old(
                    self,
                ).areas@[j],
            forall|k: int, o: int|
                0 <= k < old(self).areas@[idx as int].frames@.len() && 0 <= o < PAGE_SIZE
                    ==> #[trigger] final(self).areas@[idx as int].frames@[k].bytes@[o] == if k
                    * PAGE_SIZE + o < data@.len() {
                    data@[k * PAGE_SIZE + o]
                } else {
                    old(self).areas@[idx as int].frames@[k].bytes@[o]
                },
    {
        let mut i: usize = 0;
        proof {
            assert(self.areas@[idx as int].wf());
        }
        while i < data.len()
            invariant
                i <= data@.len(),
                old(self).wf(),
                idx < old(self).areas@.len(),
                old(self).areas@[idx as int].map_type == MapType::Framed,
                data@.len() <= old(self).areas@[idx as int].frames@.len() * PAGE_SIZE,
                self.page_table == old(self).page_table,
                self.trampoline == old(self).trampoline,
                self.areas@.len() == old(self).areas@.len(),
                forall|j: int|
                    0 <= j < self.areas@.len() && j != idx ==> self.areas@[j] == old(self).areas@[j],
                self.areas@[idx as int].start_vpn == old(self).areas@[idx as int].start_vpn,
                self.areas@[idx as int].end_vpn == old(self).areas@[idx as int].end_vpn,
                self.areas@[idx as int].map_type == old(self).areas@[idx as int].map_type,
                self.areas@[idx as int].map_perm == old(self).areas@[idx as int].map_perm,
                self.areas@[idx as int].frames@.len() == old(self).areas@[idx as int].frames@.len(),
                forall|k: int|
                    0 <= k < self.areas@[idx as int].frames@.len() ==> {
                        &&& (#[trigger] self.areas@[idx as int].frames@[k]).ppn == old(
                            self,
                        ).areas@[idx as int].frames@[k].ppn
                        &&& self.areas@[idx as int].frames@[k].bytes@.len() == PAGE_SIZE
                    },
                forall|k: int, o: int|
                    0 <= k < self.areas@[idx as int].frames@.len() && 0 <= o < PAGE_SIZE
                        ==> #[trigger] self.areas@[idx as int].frames@[k].bytes@[o] == if k
                        * PAGE_SIZE + o < i {
                        data@[k * PAGE_SIZE + o]
                    } else {
                        old(self).areas@[idx as int].frames@[k].bytes@[o]
                    },
            decreases data.len() - i,
        {
            let k: usize = i / 4096;
            let o: usize = i % 4096;
            assert(k < self.areas@[idx as int].frames@.len());
            self.areas[idx].frames[k].bytes[o] = data[i];
            i += 1;
        }
        proof {
            assert forall|j: int| 0 <= j < self.areas@.len() implies (#[trigger] self.areas@[j]).same_mapping(
                &old(self).areas@[j],
            ) by {
                if j == idx {
                    assert(self.areas@[j].ppns() =~= old(self).areas@[j].ppns());
                }
            }
            lemma_same_mappings_wf(old(self), self);
        }
    }

    /// Whether an address space can be built for the areas `reqs`: each can
    /// stand alone, no two share a page, the trampoline frame fits a page
    /// table entry, and the allocator has a frame for the root of the page
    /// table and for every page of the framed areas.
    pub open spec fn can_build(
        reqs: Seq<AreaSpec>,
        allocator: &StackFrameAllocator,
        trampoline: Option<PhysPageNum>,
    ) -> bool {
        &&& placeable(reqs)
        &&& trampoline matches Some(p) ==> p.0 <= PPN_MASK
        &&& allocator.free_count() >= 1 + frames_total(reqs)
    }

    /// Builds an address space with one area for each request, in order, and
    /// the trampoline page where `trampoline` names its frame. Where it cannot
    /// be built, every frame taken on the way is given back.
    pub fn from_requests(
        reqs: &Vec<AreaRequest>,
        allocator: &mut StackFrameAllocator,
        trampoline: Option<PhysPageNum>,
    ) -> (res: Option<MemorySet>)
        requires
            old(allocator).wf(),
        ensures
            final(allocator).wf(),
            final(allocator).start == old(allocator).start,
            final(allocator).end == old(allocator).end,
            res is Some <==> Self::can_build(specs(reqs@), old(allocator), trampoline),
            res is None ==> final(allocator)@ == old(allocator)@,
            res matches Some(ms) ==> {
                &&& ms.wf()
                &&& ms.trampoline == trampoline
                &&& ms.realizes(specs(reqs@))
                &&& ms.fresh_for(old(allocator)@)
                &&& ms.held_in(final(allocator)@)
                &&& final(allocator)@ == old(allocator)@.union(ms.owned())
                &&& old(allocator).free_count() == final(allocator).free_count() + 1
                    + frames_total(specs(reqs@))
            },
    {
        let ghost sp = specs(reqs@);
        match trampoline {
            Some(p) => {
                if p.0 > PPN_MASK {
                    return None;
                }
            },
            None => {},
        }
        let mut ms = match Self::new_bare(allocator) {
            None => {
                return None;
            },
            Some(ms) => ms,
        };
        match trampoline {
            Some(p) => {
                ms.map_trampoline(p);
            },
            None => {},
        }
        proof {
            assert(ms.owned() =~= set![ms.page_table.root_ppn.0]);
            assert(allocator@ =~= old(allocator)@.union(ms.owned()));
            assert(sp.take(0) =~= Seq::<AreaSpec>::empty());
        }
        let mut i: usize = 0;
        while i < reqs.len()
            invariant
                allocator.wf(),
                allocator.start == old(allocator).start,
                allocator.end == old(allocator).end,
                ms.wf(),
                ms.trampoline == trampoline,
                trampoline matches Some(p) ==> p.0 <= PPN_MASK,
                i <= reqs@.len(),
                sp == specs(reqs@),
                ms.areas@.len() == i,
                forall|j: int|
                    0 <= j < i ==> (#[trigger] sp[j]).well_formed() && Self::area_realizes(
                        &ms.areas@[j],
                        &sp[j],
                    ),
                ms.fresh_for(old(allocator)@),
                ms.held_in(allocator@),
                allocator@ == old(allocator)@.union(ms.owned()),
                old(allocator).free_count() == allocator.free_count() + 1 + frames_total(
                    sp.take(i as int),
                ),
            decreases reqs.len() - i,
        {
            let r = &reqs[i];
            let ghost before = ms;
            let ghost alloc_before = *allocator;
            proof {
                lemma_frames_total_step(sp, i as int);
                lemma_frames_total_mono(sp, i + 1, sp.len() as int);
                assert(sp.take(sp.len() as int) =~= sp);
                assert(sp[i as int] == reqs@[i as int]@);
            }
            let sv = VirtAddr(r.start_va).floor().0;
            let ev = VirtAddr(r.end_va).ceil().0;
            let ok = match r.map_type {
                MapType::Framed => {
                    if r.start_va % PAGE_SIZE != 0 || ev < sv || ev > TRAMPOLINE_VPN {
                        false
                    } else if r.data.len() as u64 > (ev - sv) * PAGE_SIZE {
                        false
                    } else {
                        match ms.insert_framed_area(
                            allocator,
                            VirtAddr(r.start_va),
                            VirtAddr(r.end_va),
                            r.perm,
                        ) {
                            Err(_) => {
                                proof {
                                    if !before.clear_of(sv, ev) {
                                        let j = choose|j: int|
                                            0 <= j < before.areas@.len() && !(
                                            #[trigger] before.areas@[j]).disjoint_from(sv, ev);
                                        assert(Self::area_realizes(&before.areas@[j], &sp[j]));
                                        assert(!sp[j].disjoint_from(&sp[i as int]));
                                    }
                                }
                                false
                            },
                            Ok(_) => {
                                let ghost mid = ms;
                                proof {
                                    crate::mm::ownership::lemma_held_insert(
                                        &before,
                                        &mid,
                                        allocator,
                                        &alloc_before,
                                        VirtAddr(r.start_va),
                                        VirtAddr(r.end_va),
                                        r.perm,
                                    );
                                    lemma_owned_push(&before, &mid);
                                    assert(mid.areas@.last() == mid.areas@[i as int]);
                                    assert(mid.areas@[i as int].wf());
                                }
                                ms.fill_area(i, &r.data);
                                proof {
                                    crate::mm::ownership::lemma_held_same_mappings(
                                        &ms,
                                        &mid,
                                        allocator@,
                                    );
                                    lemma_same_mappings_owned(&ms, &mid);
                                    assert forall|j: int| 0 <= j < i implies Self::area_realizes(
                                        &ms.areas@[j],
                                        &sp[j],
                                    ) by {
                                        assert(mid.areas@.drop_last()[j] == mid.areas@[j]);
                                        assert(Self::area_realizes(&before.areas@[j], &sp[j]));
                                    }
                                    assert(ms.areas@[i as int].same_mapping(&mid.areas@[i as int]));
                                    assert(Self::area_realizes(&ms.areas@[i as int], &sp[i as int]));
                                    assert forall|p: u64| #[trigger]
                                        ms.owned().contains(p) implies !old(allocator)@.contains(
                                        p,
                                    ) by {
                                        if mid.areas@.last().ppns().contains(p) {
                                            let k = choose|k: int|
                                                0 <= k < mid.areas@.last().ppns().len()
                                                    && mid.areas@.last().ppns()[k] == p;
                                            assert(!alloc_before@.contains(
                                                mid.areas@.last().frames@[k].ppn.0,
                                            ));
                                        }
                                    }
                                    assert(allocator@ =~= old(allocator)@.union(ms.owned()));
                                }
                                true
                            },
                        }
                    }
                },
                MapType::Identical => {
                    if r.data.len() != 0 {
                        false
                    } else {
                        match ms.push_identical(VirtAddr(r.start_va), VirtAddr(r.end_va), r.perm) {
                            Err(_) => {
                                proof {
                                    if !before.clear_of(sv, ev) {
                                        let j = choose|j: int|
                                            0 <= j < before.areas@.len() && !(
                                            #[trigger] before.areas@[j]).disjoint_from(sv, ev);
                                        assert(Self::area_realizes(&before.areas@[j], &sp[j]));
                                        assert(!sp[j].disjoint_from(&sp[i as int]));
                                    }
                                }
                                false
                            },
                            Ok(_) => {
                                proof {
                                    crate::mm::ownership::lemma_held_push_empty(
                                        &before,
                                        &ms,
                                        allocator@,
                                    );
                                    lemma_owned_push(&before, &ms);
                                    assert(ms.areas@.last() == ms.areas@[i as int]);
                                    assert(ms.areas@.last().ppns() =~= Seq::<u64>::empty());
                                    assert(ms.owned() =~= before.owned());
                                    assert forall|j: int| 0 <= j < i implies Self::area_realizes(
                                        &ms.areas@[j],
                                        &sp[j],
                                    ) by {
                                        assert(ms.areas@.drop_last()[j] == ms.areas@[j]);
                                        assert(Self::area_realizes(&before.areas@[j], &sp[j]));
                                    }
                                }
                                true
                            },
                        }
                    }
                },
            };
            if !ok {
                proof {
                    assert(!Self::can_build(specs(reqs@), old(allocator), trampoline));
                }
                ms.recycle(allocator);
                proof {
                    assert(allocator@ =~= old(allocator)@);
                }
                return None;
            }
            i += 1;
        }
        proof {
            assert(sp.take(sp.len() as int) =~= sp);
            assert forall|a: int, b: int| 0 <= a < b < sp.len() implies #[trigger] sp[a].disjoint_from(
                &sp[b],
            ) by {
                assert(Self::area_realizes(&ms.areas@[a], &sp[a]));
                assert(Self::area_realizes(&ms.areas@[b], &sp[b]));
                assert(ms.areas@[a].disjoint_from(ms.areas@[b].start_vpn, ms.areas@[b].end_vpn));
            }
        }
        Some(ms)
    }
}

/// Address spaces with the same mappings own the same frames.
pub proof fn lemma_same_mappings_owned(a: &MemorySet, b: &MemorySet)
    requires
        a.same_mappings(b),
    ensures
        a.owned() == b.owned(),
{
    assert forall|p: u64| a.owned().contains(p) <==> b.owned().contains(p) by {
        if a.owned().contains(p) && p != a.page_table.root_ppn.0 {
            let i = choose|i: int|
                0 <= i < a.areas@.len() && (#[trigger] a.areas@[i]).ppns().contains(p);
            assert(a.areas@[i].same_mapping(&b.areas@[i]));
            assert(b.areas@[i].ppns().contains(p));
        }
        if b.owned().contains(p) && p != b.page_table.root_ppn.0 {
            let i = choose|i: int|
                0 <= i < b.areas@.len() && (#[trigger] b.areas@[i]).ppns().contains(p);
            assert(a.areas@[i].same_mapping(&b.areas@[i]));
            assert(a.areas@[i].ppns().contains(p));
        }
    }
    assert(a.owned() =~= b.owned());
}

/// An address space with one more area owns the frames that it owned before
/// and the frames of that area.
pub proof fn lemma_owned_push(before: &MemorySet, after: &MemorySet)
    requires
        after.areas@.len() == before.areas@.len() + 1,
        after.areas@.drop_last() == before.areas@,
        after.page_table.root_ppn == before.page_table.root_ppn,
    ensures
        after.owned() == before.owned().union(after.areas@.last().ppns().to_set()),
{
    let n = before.areas@.len() as int;
    assert forall|i: int| 0 <= i < n implies after.areas@[i] == before.areas@[i] by {
        assert(after.areas@.drop_last()[i] == after.areas@[i]);
    }
    assert forall|p: u64|
        after.owned().contains(p) <==> before.owned().union(
            after.areas@.last().ppns().to_set(),
        ).contains(p) by {
        if after.owned().contains(p) && p != after.page_table.root_ppn.0 {
            let i = choose|i: int|
                0 <= i < after.areas@.len() && (#[trigger] after.areas@[i]).ppns().contains(p);
            if i < n {
                assert(before.areas@[i].ppns().contains(p));
            }
        }
        if before.owned().contains(p) && p != before.page_table.root_ppn.0 {
            let i = choose|i: int|
                0 <= i < before.areas@.len() && (#[trigger] before.areas@[i]).ppns().contains(p);
            assert(after.areas@[i].ppns().contains(p));
        }
        if after.areas@.last().ppns().contains(p) {
            assert(after.areas@[n].ppns().contains(p));
        }
    }
    assert(after.owned() =~= before.owned().union(after.areas@.last().ppns().to_set()));
}

} // verus!
