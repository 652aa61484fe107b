//! Address spaces: mapped areas over a page table, and the bytes behind them.
use vstd::prelude::*;
use crate::config::{PAGE_SIZE, PPN_MASK, TRAMPOLINE_VPN};
use crate::mm::address::{PhysPageNum, VirtAddr, VirtPageNum};
use crate::mm::frame_allocator::{frame_alloc, FrameTracker, StackFrameAllocator};
use crate::mm::page_table::{PTEFlags, PageTable, PageTableEntry, PTE_R, PTE_V, PTE_X};

verus! {

/// What may be done with the pages of an area: a set of the four flags below.
#[derive(Clone, Copy, Debug, PartialEq, Eq, Structural)]
pub struct MapPermission {
    pub bits: u8,
}

/// Loads are allowed.
pub const MAP_R: u8 = 2;

/// Stores are allowed.
pub const MAP_W: u8 = 4;

/// Instruction fetches are allowed.
pub const MAP_X: u8 = 8;

/// User mode may access the pages.
pub const MAP_U: u8 = 16;

/// How the pages of an area find their frames.
#[derive(Clone, Copy, Debug, PartialEq, Eq, Structural)]
pub enum MapType {
    /// Page `n` is frame `n`; the area owns no frame.
    Identical,
    /// Each page has a frame of its own, owned by the area.
    Framed,
}

/// A run of pages `start_vpn..end_vpn` mapped alike.
pub struct MapArea {
    pub start_vpn: u64,
    pub end_vpn: u64,
    pub frames: Vec<FrameTracker>,
    pub map_type: MapType,
    pub map_perm: MapPermission,
}

impl MapArea {
    /// A framed area owns one frame per page, in page order; an identical area owns none.
    pub open spec fn wf(&self) -> bool {
        &&& self.start_vpn <= self.end_vpn <= TRAMPOLINE_VPN
        &&& match self.map_type {
            MapType::Framed => {
                &&& self.frames@.len() == self.end_vpn - self.start_vpn
                &&& forall|k: int| 0 <= k < self.frames@.len() ==> (#[trigger] self.frames@[k]).wf()
            },
            MapType::Identical => {
                &&& self.frames@.len() == 0
                &&& self.end_vpn <= PPN_MASK + 1
            },
        }
    }

    /// Whether page `vpn` lies in the area.
    pub open spec fn contains(&self, vpn: u64) -> bool {
        self.start_vpn <= vpn < self.end_vpn
    }

    /// Whether the area shares no page with `start..end`.
    pub open spec fn disjoint_from(&self, start: u64, end: u64) -> bool {
        self.end_vpn <= start || end <= self.start_vpn || self.start_vpn == self.end_vpn || start
            == end
    }

    /// The frame of page `vpn` of the area.
    pub open spec fn ppn_of(&self, vpn: u64) -> u64 {
        match self.map_type {
            MapType::Identical => vpn,
            MapType::Framed => self.frames@[vpn - self.start_vpn].ppn.0,
        }
    }

    /// The page table entry of page `vpn` of the area.
    pub open spec fn entry_of(&self, vpn: u64) -> PageTableEntry {
        PageTableEntry::spec_new(
            PhysPageNum(self.ppn_of(vpn)),
            (PTEFlags { bits: self.map_perm.bits }).spec_with(PTE_V),
        )
    }

    /// The numbers of the frames that the area owns, in page order.
    pub open spec fn ppns(&self) -> Seq<u64> {
        self.frames@.map(|k: int, f: FrameTracker| f.ppn.0)
    }

    /// Whether `other` covers the same pages in the same way through the same frames.
    pub open spec fn same_mapping(&self, other: &MapArea) -> bool {
        &&& self.start_vpn == other.start_vpn
        &&& self.end_vpn == other.end_vpn
        &&& self.map_type == other.map_type
        &&& self.map_perm == other.map_perm
        &&& self.ppns() == other.ppns()
    }
}

/// One address space: its areas, the page table that binds their pages, and the
/// frame of the trampoline page if that page is mapped.
pub struct MemorySet {
    pub page_table: PageTable,
    pub areas: Vec<MapArea>,
    pub trampoline: Option<PhysPageNum>,
}

impl MemorySet {
    /// Whether some area holds page `vpn`.
    pub open spec fn covered(&self, vpn: u64) -> bool {
        exists|i: int| 0 <= i < self.areas@.len() && (#[trigger] self.areas@[i]).contains(vpn)
    }

    /// The area that holds page `vpn`, where one does.
    pub open spec fn area_index(&self, vpn: u64) -> int {
        choose|i: int| 0 <= i < self.areas@.len() && (#[trigger] self.areas@[i]).contains(vpn)
    }

    /// The page table entry of the trampoline page over frame `ppn`.
    pub open spec fn trampoline_entry(ppn: PhysPageNum) -> PageTableEntry {
        PageTableEntry::spec_new(ppn, (PTEFlags { bits: PTE_R | PTE_X }).spec_with(PTE_V))
    }

    /// The areas are sound and share no page, none reaches the trampoline page,
    /// and the page table binds exactly the pages of the areas, each to its
    /// area's frame and permission, and the trampoline page if it is mapped.
    pub open spec fn wf(&self) -> bool {
        &&& self.page_table.root_ppn.0 <= PPN_MASK
        &&& forall|i: int| 0 <= i < self.areas@.len() ==> (#[trigger] self.areas@[i]).wf()
        &&& forall|i: int, j: int|
            0 <= i < j < self.areas@.len() ==> (#[trigger] self.areas@[i]).disjoint_from(
                (#[trigger] self.areas@[j]).start_vpn,
                self.areas@[j].end_vpn,
            )
        &&& forall|vpn: u64| #[trigger]
            self.page_table@.contains_key(vpn) <==> (self.covered(vpn) || (self.trampoline is Some
                && vpn == TRAMPOLINE_VPN))
        &&& forall|i: int, vpn: u64|
            0 <= i < self.areas@.len() && (#[trigger] self.areas@[i]).contains(vpn)
                ==> #[trigger] self.page_table@[vpn] == self.areas@[i].entry_of(vpn)
        &&& self.trampoline matches Some(ppn) ==> {
            &&& ppn.0 <= PPN_MASK
            &&& self.page_table@[TRAMPOLINE_VPN] == Self::trampoline_entry(ppn)
        }
    }

    /// The byte at virtual address `va`, where a framed area holds it.
    pub open spec fn byte_at(&self, va: u64) -> Option<u8> {
        let vpn = va / PAGE_SIZE;
        if self.covered(vpn) && self.areas@[self.area_index(vpn)].map_type == MapType::Framed {
            let area = self.areas@[self.area_index(vpn)];
            Some(area.frames@[vpn - area.start_vpn].bytes@[(va % PAGE_SIZE) as int])
        } else {
            None
        }
    }

    /// Whether `other` has the same areas over the same frames, the same page
    /// table and the same trampoline: all but the bytes in the frames.
    pub open spec fn same_mappings(&self, other: &MemorySet) -> bool {
        &&& self.page_table == other.page_table
        &&& self.trampoline == other.trampoline
        &&& self.areas@.len() == other.areas@.len()
        &&& forall|i: int|
            0 <= i < self.areas@.len() ==> (#[trigger] self.areas@[i]).same_mapping(
                &other.areas@[i],
            )
    }

    /// In a sound address space a page lies in one area only.
    pub proof fn lemma_area_unique(&self, i: int, vpn: u64)
        requires
            self.wf(),
            0 <= i < self.areas@.len(),
            self.areas@[i].contains(vpn),
        ensures
            self.covered(vpn),
            self.area_index(vpn) == i,
    {
        let j = self.area_index(vpn);
        if i < j {
            assert(self.areas@[i].disjoint_from(self.areas@[j].start_vpn, self.areas@[j].end_vpn));
        } else if j < i {
            assert(self.areas@[j].disjoint_from(self.areas@[i].start_vpn, self.areas@[i].end_vpn));
        }
    }

    /// The index of the area that holds page `vpn`, if one does.
    pub fn find_area(&self, vpn: VirtPageNum) -> (res: Option<usize>)
        requires
            self.wf(),
        ensures
            res matches Some(i) ==> i < self.areas@.len() && self.areas@[i as int].contains(vpn.0)
                && self.covered(vpn.0) && self.area_index(vpn.0) == i,
            res is None ==> !self.covered(vpn.0),
    {
        let mut i: usize = 0;
        while i < self.areas.len()
            invariant
                self.wf(),
                i <= self.areas@.len(),
                forall|j: int| 0 <= j < i ==> !(#[trigger] self.areas@[j]).contains(vpn.0),
            decreases self.areas.len() - i,
        {
            if self.areas[i].start_vpn <= vpn.0 && vpn.0 < self.areas[i].end_vpn {
                proof {
                    self.lemma_area_unique(i as int, vpn.0);
                }
                return Some(i);
            }
            i += 1;
        }
        None
    }

    /// The page table entry of page `vpn`, or `None` where nothing is mapped.
    /// Exactly the pages of the areas, and the trampoline page if it is mapped,
    /// have an entry.
    pub fn translate(&self, vpn: VirtPageNum) -> (res: Option<PageTableEntry>)
        requires
            self.wf(),
        ensures
            res == if self.page_table@.contains_key(vpn.0) {
                Some(self.page_table@[vpn.0])
            } else {
                None
            },
            res is Some <==> (self.covered(vpn.0) || (self.trampoline is Some && vpn.0
                == TRAMPOLINE_VPN)),
            self.covered(vpn.0) ==> res == Some(
                self.areas@[self.area_index(vpn.0)].entry_of(vpn.0),
            ),
    {
        self.page_table.translate(vpn)
    }

    /// The identifier that the hardware loads to switch to this address space:
    /// the root frame of the page table under the addressing-mode tag.
    pub fn token(&self) -> (t: u64)
        ensures
            t == self.page_table.spec_token(),
    {
        self.page_table.token()
    }

    /// The byte at virtual address `va`, or `None` where no framed area holds it.
    pub fn read_byte(&self, va: VirtAddr) -> (res: Option<u8>)
        requires
            self.wf(),
        ensures
            res == self.byte_at(va.0),
    {
        let vpn = va.floor();
        match self.find_area(vpn) {
            None => None,
            Some(i) => {
                match self.areas[i].map_type {
                    MapType::Identical => None,
                    MapType::Framed => {
                        assert(self.areas@[i as int].wf());
                        assert(vpn.0 - self.areas@[i as int].start_vpn
                            < self.areas@[i as int].frames.len());
                        let k = (vpn.0 - self.areas[i].start_vpn) as usize;
                        let off = va.page_offset() as usize;
                        assert(self.areas@[i as int].frames@[k as int].wf());
                        Some(self.areas[i].frames[k].bytes[off])
                    },
                }
            },
        }
    }

    /// Stores `value` at virtual address `va`. Where no framed area holds the
    /// address, nothing changes and the answer is `false`.
    pub fn write_byte(&mut self, va: VirtAddr, value: u8) -> (done: bool)
        requires
            old(self).wf(),
        ensures
            final(self).wf(),
            final(self).same_mappings(old(self)),
            done == old(self).byte_at(va.0) is Some,
            !done ==> *final(self) == *old(self),
            forall|a: u64|
                #[trigger] final(self).byte_at(a) == if a == va.0 && done {
                    Some(value)
                } else {
                    old(self).byte_at(a)
                },
    {
        let vpn = va.floor();
        match self.find_area(vpn) {
            None => false,
            Some(i) => {
                match self.areas[i].map_type {
                    MapType::Identical => false,
                    MapType::Framed => {
                        assert(self.areas@[i as int].wf());
                        assert(vpn.0 - self.areas@[i as int].start_vpn
                            < self.areas@[i as int].frames.len());
                        let k = (vpn.0 - self.areas[i].start_vpn) as usize;
                        let off = va.page_offset() as usize;
                        assert(self.areas@[i as int].frames@[k as int].wf());
                        self.areas[i].frames[k].bytes[off] = value;
                        proof {
                            lemma_write_keeps(old(self), self, i as int, k as int, off as int, value);
                        }
                        true
                    },
                }
            },
        }
    }

    /// Whether every area is clear of the pages `start..end`.
    pub open spec fn clear_of(&self, start: u64, end: u64) -> bool {
        forall|i: int|
            0 <= i < self.areas@.len() ==> (#[trigger] self.areas@[i]).disjoint_from(start, end)
    }

    /// Whether some area shares a page with `start..end`.
    pub fn overlaps(&self, start: u64, end: u64) -> (b: bool)
        ensures
            b == !self.clear_of(start, end),
    {
        let mut i: usize = 0;
        while i < self.areas.len()
            invariant
                i <= self.areas@.len(),
                forall|j: int| 0 <= j < i ==> (#[trigger] self.areas@[j]).disjoint_from(start, end),
            decreases self.areas.len() - i,
        {
            let a = &self.areas[i];
            if !(a.end_vpn <= start || end <= a.start_vpn || a.start_vpn == a.end_vpn || start
                == end) {
                return true;
            }
            i += 1;
        }
        false
    }

    /// Whether this address space and `allocator` are what `before` and
    /// `before_alloc` become when a framed area over `start_va..end_va` with
    /// permission `perm` is added at the end: the pages are those from
    /// `start_va` up to `end_va` rounded up, each over a frame that was free,
    /// with every byte zero.
    pub open spec fn after_insert(
        &self,
        before: &MemorySet,
        allocator: &StackFrameAllocator,
        before_alloc: &StackFrameAllocator,
        start_va: VirtAddr,
        end_va: VirtAddr,
        perm: MapPermission,
    ) -> bool {
        let area = self.areas@.last();
        &&& self.areas@.len() == before.areas@.len() + 1
        &&& self.areas@.drop_last() == before.areas@
        &&& self.trampoline == before.trampoline
        &&& self.page_table.root_ppn == before.page_table.root_ppn
        &&& area.start_vpn == start_va.spec_floor().0
        &&& area.end_vpn == end_va.spec_ceil().0
        &&& area.map_type == MapType::Framed
        &&& area.map_perm == perm
        &&& area.ppns().no_duplicates()
        &&& forall|k: int|
            0 <= k < area.frames@.len() ==> {
                &&& !before_alloc@.contains((#[trigger] area.frames@[k]).ppn.0)
                &&& area.frames@[k].bytes@ == Seq::new(PAGE_SIZE as nat, |i: int| 0u8)
            }
        &&& allocator@ == before_alloc@.union(area.ppns().to_set())
        &&& allocator.free_count() == before_alloc.free_count() - (area.end_vpn - area.start_vpn)
        &&& allocator.start == before_alloc.start
        &&& allocator.end == before_alloc.end
    }

    /// Whether this address space and `allocator` are what `before` and
    /// `before_alloc` become when area `idx` is taken out and its frames are
    /// given back.
    pub open spec fn after_remove(
        &self,
        before: &MemorySet,
        allocator: &StackFrameAllocator,
        before_alloc: &StackFrameAllocator,
        idx: int,
    ) -> bool {
        &&& self.areas@ == before.areas@.remove(idx)
        &&& self.trampoline == before.trampoline
        &&& self.page_table.root_ppn == before.page_table.root_ppn
        &&& allocator@ == before_alloc@.difference(before.areas@[idx].ppns().to_set())
        &&& allocator.start == before_alloc.start
        &&& allocator.end == before_alloc.end
    }

    /// Whether a framed area over `start_va..end_va` can be added: the start is
    /// page-aligned, the range does not run backwards nor into the trampoline
    /// page, no area shares a page with it, and the allocator has a frame for
    /// each of its pages.
    pub open spec fn can_insert(
        &self,
        allocator: &StackFrameAllocator,
        start_va: VirtAddr,
        end_va: VirtAddr,
    ) -> bool {
        &&& start_va.spec_aligned()
        &&& start_va.spec_floor().0 <= end_va.spec_ceil().0 <= TRAMPOLINE_VPN
        &&& self.clear_of(start_va.spec_floor().0, end_va.spec_ceil().0)
        &&& allocator.free_count() >= end_va.spec_ceil().0 - start_va.spec_floor().0
    }

    /// Maps the pages from `start_va` up to `end_va`, rounded up to a whole page,
    /// each to a fresh cleared frame, with permission `perm`. Where the area cannot
    /// be added nothing changes.
    pub fn insert_framed_area(
        &mut self,
        allocator: &mut StackFrameAllocator,
        start_va: VirtAddr,
        end_va: VirtAddr,
        perm: MapPermission,
    ) -> (res: Result<(), ()>)
        requires
            old(self).wf(),
            old(allocator).wf(),
        ensures
            final(self).wf(),
            final(allocator).wf(),
            res is Ok <==> old(self).can_insert(old(allocator), start_va, end_va),
            res is Err ==> *final(self) == *old(self) && *final(allocator) == *old(allocator),
            res is Ok ==> final(self).after_insert(
                old(self),
                final(allocator),
                old(allocator),
                start_va,
                end_va,
                perm,
            ),
            res is Ok ==> {
                let area = final(self).areas@.last();
                &&& final(self).areas@.len() == old(self).areas@.len() + 1
                &&& final(self).areas@.drop_last() == old(self).areas@
                &&& final(self).trampoline == old(self).trampoline
                &&& final(self).page_table.root_ppn == old(self).page_table.root_ppn
                &&& area.start_vpn == start_va.spec_floor().0
                &&& area.end_vpn == end_va.spec_ceil().0
                &&& area.map_type == MapType::Framed
                &&& area.map_perm == perm
                &&& area.ppns().no_duplicates()
                &&& forall|k: int|
                    0 <= k < area.frames@.len() ==> {
                        &&& !old(allocator)@.contains((#[trigger] area.frames@[k]).ppn.0)
                        &&& area.frames@[k].bytes@ == Seq::new(PAGE_SIZE as nat, |i: int| 0u8)
                    }
                &&& final(allocator)@ == old(allocator)@.union(area.ppns().to_set())
                &&& final(allocator).free_count() == old(allocator).free_count() - (area.end_vpn
                    - area.start_vpn)
                &&& final(allocator).start == old(allocator).start
                &&& final(allocator).end == old(allocator).end
            },
    {
        let start_vpn = start_va.floor();
        let end_vpn = end_va.ceil();
        if !start_va.aligned() || end_vpn.0 < start_vpn.0 || end_vpn.0 > TRAMPOLINE_VPN
            || self.overlaps(start_vpn.0, end_vpn.0) {
            return Err(());
        }
        if allocator.available() < end_vpn.0 - start_vpn.0 {
            return Err(());
        }
        let mut frames: Vec<FrameTracker> = Vec::new();
        let mut vpn: u64 = start_vpn.0;
        let flags = PTEFlags { bits: perm.bits };
        proof {
            assert forall|v: u64| start_vpn.0 <= v < end_vpn.0 implies !self.page_table@.contains_key(
                v,
            ) by {
                if self.covered(v) {
                    let i = self.area_index(v);
                    assert(self.areas@[i].disjoint_from(start_vpn.0, end_vpn.0));
                }
            }
            assert(allocator@ =~= old(allocator)@.union(
                frames@.map(|k: int, f: FrameTracker| f.ppn.0).to_set(),
            ));
        }
        while vpn < end_vpn.0
            invariant
                allocator.wf(),
                allocator.start == old(allocator).start,
                allocator.end == old(allocator).end,
                allocator.free_count() == old(allocator).free_count() - (vpn - start_vpn.0),
                old(allocator).free_count() >= end_vpn.0 - start_vpn.0,
                start_vpn.0 <= vpn <= end_vpn.0 <= TRAMPOLINE_VPN,
                frames@.len() == vpn - start_vpn.0,
                forall|k: int|
                    0 <= k < frames@.len() ==> {
                        &&& (#[trigger] frames@[k]).wf()
                        &&& !old(allocator)@.contains(frames@[k].ppn.0)
                        &&& frames@[k].bytes@ == Seq::new(PAGE_SIZE as nat, |i: int| 0u8)
                    },
                frames@.map(|k: int, f: FrameTracker| f.ppn.0).no_duplicates(),
                allocator@ == old(allocator)@.union(
                    frames@.map(|k: int, f: FrameTracker| f.ppn.0).to_set(),
                ),
                self.areas == old(self).areas,
                self.trampoline == old(self).trampoline,
                self.page_table.root_ppn == old(self).page_table.root_ppn,
                forall|v: u64|
                    start_vpn.0 <= v < end_vpn.0 ==> !old(self).page_table@.contains_key(v),
                forall|v: u64| #[trigger]
                    self.page_table@.contains_key(v) <==> (old(self).page_table@.contains_key(v)
                        || start_vpn.0 <= v < vpn),
                forall|v: u64|
                    old(self).page_table@.contains_key(v) ==> #[trigger] self.page_table@[v] == old(
                        self,
                    ).page_table@[v],
                forall|v: u64|
                    start_vpn.0 <= v < vpn ==> #[trigger] self.page_table@[v]
                        == PageTableEntry::spec_new(
                        frames@[v - start_vpn.0].ppn,
                        flags.spec_with(PTE_V),
                    ),
            decreases end_vpn.0 - vpn,
        {
            let ghost before_ppns = frames@.map(|k: int, f: FrameTracker| f.ppn.0);
            let frame = frame_alloc(allocator).unwrap();
            self.page_table.map(VirtPageNum(vpn), frame.ppn, flags);
            let ghost p = frame.ppn.0;
            frames.push(frame);
            proof {
                let ppns = frames@.map(|k: int, f: FrameTracker| f.ppn.0);
                assert(ppns =~= before_ppns.push(p));
                assert(!before_ppns.contains(p)) by {
                    if before_ppns.contains(p) {
                        assert(before_ppns.to_set().contains(p));
                    }
                }
                assert(ppns.no_duplicates());
                assert(ppns.to_set() =~= before_ppns.to_set().insert(p)) by {
                    assert forall|x: u64| ppns.to_set().contains(x) <==> before_ppns.to_set().insert(
                        p,
                    ).contains(x) by {
                        if ppns.contains(x) {
                            let j = choose|j: int| 0 <= j < ppns.len() && ppns[j] == x;
                            if j < before_ppns.len() {
                                assert(before_ppns[j] == x);
                            }
                        }
                        if before_ppns.contains(x) {
                            let j = choose|j: int|
                                0 <= j < before_ppns.len() && before_ppns[j] == x;
                            assert(ppns[j] == x);
                        }
                        if x == p {
                            assert(ppns[ppns.len() - 1] == x);
                        }
                    }
                }
                assert(allocator@ =~= old(allocator)@.union(ppns.to_set()));
            }
            vpn = vpn + 1;
        }
        let area = MapArea {
            start_vpn: start_vpn.0,
            end_vpn: end_vpn.0,
            frames,
            map_type: MapType::Framed,
            map_perm: perm,
        };
        self.areas.push(area);
        proof {
            assert(self.areas@.drop_last() =~= old(self).areas@);
            lemma_push_area_wf(old(self), self);
        }
        Ok(())
    }

    /// Whether area `a` starts at page `start` and, where `end` is given, stops at `end`.
    pub open spec fn area_matches(a: &MapArea, start: u64, end: Option<u64>) -> bool {
        a.start_vpn == start && (end matches Some(e) ==> a.end_vpn == e)
    }

    /// Whether some area matches `start` and `end`.
    pub open spec fn has_match(&self, start: u64, end: Option<u64>) -> bool {
        exists|i: int|
            0 <= i < self.areas@.len() && Self::area_matches(&#[trigger] self.areas@[i], start, end)
    }

    /// The first area that matches `start` and `end`, where one does.
    #[verifier::opaque]
    pub open spec fn first_match(&self, start: u64, end: Option<u64>) -> int {
        choose|i: int|
            0 <= i < self.areas@.len() && Self::area_matches(&#[trigger] self.areas@[i], start, end)
                && forall|j: int|
                0 <= j < i ==> !Self::area_matches(&#[trigger] self.areas@[j], start, end)
    }

    /// The index of the first area that matches `start` and `end`, if one does.
    pub fn find_match(&self, start: u64, end: Option<u64>) -> (res: Option<usize>)
        ensures
            res is Some <==> self.has_match(start, end),
            res matches Some(i) ==> i == self.first_match(start, end) && i < self.areas@.len()
                && Self::area_matches(&self.areas@[i as int], start, end),
    {
        let mut i: usize = 0;
        while i < self.areas.len()
            invariant
                i <= self.areas@.len(),
                forall|j: int|
                    0 <= j < i ==> !Self::area_matches(&#[trigger] self.areas@[j], start, end),
            decreases self.areas.len() - i,
        {
            let a = &self.areas[i];
            let end_ok = match end {
                Some(e) => a.end_vpn == e,
                None => true,
            };
            if a.start_vpn == start && end_ok {
                proof {
                    reveal(MemorySet::first_match);
                    assert(Self::area_matches(&self.areas@[i as int], start, end));
                    let w = self.first_match(start, end);
                    if w < i {
                        assert(!Self::area_matches(&self.areas@[w], start, end));
                    }
                    if i < w {
                        assert(!Self::area_matches(&self.areas@[i as int], start, end));
                    }
                }
                return Some(i);
            }
            i += 1;
        }
        None
    }

    /// Takes area `idx` out of the address space: unbinds its pages and gives
    /// its frames back to the allocator.
    pub fn remove_area_at(&mut self, allocator: &mut StackFrameAllocator, idx: usize)
        requires
            old(self).wf(),
            old(allocator).wf(),
            idx < old(self).areas@.len(),
        ensures
            final(self).wf(),
            final(allocator).wf(),
            final(self).after_remove(old(self), final(allocator), old(allocator), idx as int),
            final(self).areas@ == old(self).areas@.remove(idx as int),
            final(self).trampoline == old(self).trampoline,
            final(self).page_table.root_ppn == old(self).page_table.root_ppn,
            final(allocator)@ == old(allocator)@.difference(
                old(self).areas@[idx as int].ppns().to_set(),
            ),
            final(allocator).start == old(allocator).start,
            final(allocator).end == old(allocator).end,
    {
        let area = self.areas.remove(idx);
        let mut vpn: u64 = area.start_vpn;
        proof {
            assert(old(self).areas@[idx as int].wf());
            assert forall|v: u64| area.contains(v) implies old(self).page_table@.contains_key(v) by {
                assert(old(self).areas@[idx as int].contains(v));
            }
        }
        while vpn < area.end_vpn
            invariant
                area.start_vpn <= vpn <= area.end_vpn,
                idx < old(self).areas@.len(),
                self.areas@ == old(self).areas@.remove(idx as int),
                self.trampoline == old(self).trampoline,
                self.page_table.root_ppn == old(self).page_table.root_ppn,
                forall|v: u64| #[trigger] area.contains(v) ==> old(self).page_table@.contains_key(v),
                forall|v: u64| #[trigger]
                    self.page_table@.contains_key(v) <==> (old(self).page_table@.contains_key(v)
                        && !(area.start_vpn <= v < vpn)),
                forall|v: u64| #[trigger]
                    self.page_table@.contains_key(v) ==> self.page_table@[v] == old(
                        self,
                    ).page_table@[v],
            decreases area.end_vpn - vpn,
        {
            assert(area.contains(vpn));
            assert(old(self).page_table@.contains_key(vpn));
            assert(self.page_table@.contains_key(vpn));
            self.page_table.unmap(VirtPageNum(vpn));
            vpn = vpn + 1;
        }
        proof {
            lemma_remove_area_wf(old(self), self, idx as int);
        }
        release_frames(allocator, area.frames);
    }

    /// Removes the first area that starts at page `start_vpn`, gives its frames
    /// back, and reports whether there was such an area.
    pub fn remove_area_with_start_vpn(
        &mut self,
        allocator: &mut StackFrameAllocator,
        start_vpn: VirtPageNum,
    ) -> (res: Result<(), ()>)
        requires
            old(self).wf(),
            old(allocator).wf(),
        ensures
            final(self).wf(),
            final(allocator).wf(),
            res is Ok <==> old(self).has_match(start_vpn.0, None),
            res is Err ==> *final(self) == *old(self) && *final(allocator) == *old(allocator),
            res is Ok ==> {
                let idx = old(self).first_match(start_vpn.0, None);
                &&& 0 <= idx < old(self).areas@.len()
                &&& final(self).after_remove(old(self), final(allocator), old(allocator), idx)
                &&& final(self).areas@ == old(self).areas@.remove(idx)
                &&& final(self).trampoline == old(self).trampoline
                &&& final(self).page_table.root_ppn == old(self).page_table.root_ppn
                &&& final(allocator)@ == old(allocator)@.difference(
                    old(self).areas@[idx].ppns().to_set(),
                )
                &&& final(allocator).start == old(allocator).start
                &&& final(allocator).end == old(allocator).end
            },
    {
        match self.find_match(start_vpn.0, None) {
            None => Err(()),
            Some(idx) => {
                self.remove_area_at(allocator, idx);
                Ok(())
            },
        }
    }

    /// Removes the area that was inserted over exactly the pages from `start_va`
    /// up to `end_va`, rounded up to a whole page. A range that no area was
    /// inserted over, such as a part of an area, is refused and nothing changes.
    pub fn unmap_area(
        &mut self,
        allocator: &mut StackFrameAllocator,
        start_va: VirtAddr,
        end_va: VirtAddr,
    ) -> (res: Result<(), ()>)
        requires
            old(self).wf(),
            old(allocator).wf(),
        ensures
            final(self).wf(),
            final(allocator).wf(),
            res is Ok <==> old(self).has_match(
                start_va.spec_floor().0,
                Some(end_va.spec_ceil().0),
            ),
            res is Err ==> *final(self) == *old(self) && *final(allocator) == *old(allocator),
            res is Ok ==> {
                let idx = old(self).first_match(
                    start_va.spec_floor().0,
                    Some(end_va.spec_ceil().0),
                );
                &&& 0 <= idx < old(self).areas@.len()
                &&& final(self).after_remove(old(self), final(allocator), old(allocator), idx)
                &&& final(self).areas@ == old(self).areas@.remove(idx)
                &&& final(self).trampoline == old(self).trampoline
                &&& final(self).page_table.root_ppn == old(self).page_table.root_ppn
                &&& final(allocator)@ == old(allocator)@.difference(
                    old(self).areas@[idx].ppns().to_set(),
                )
                &&& final(allocator).start == old(allocator).start
                &&& final(allocator).end == old(allocator).end
            },
    {
        let start = start_va.floor().0;
        let end = end_va.ceil().0;
        match self.find_match(start, Some(end)) {
            None => Err(()),
            Some(idx) => {
                self.remove_area_at(allocator, idx);
                Ok(())
            },
        }
    }

    /// The frames that the address space owns: the root of its page table and
    /// the frames of its areas.
    pub open spec fn owned(&self) -> Set<u64> {
        Set::new(
            |p: u64|
                p == self.page_table.root_ppn.0 || exists|i: int|
                    0 <= i < self.areas@.len() && (#[trigger] self.areas@[i]).ppns().contains(p),
        )
    }

    /// An address space with no area, over a fresh root frame; `None` when the
    /// allocator has no frame left.
    pub fn new_bare(allocator: &mut StackFrameAllocator) -> (res: Option<MemorySet>)
        requires
            old(allocator).wf(),
        ensures
            final(allocator).wf(),
            final(allocator).start == old(allocator).start,
            final(allocator).end == old(allocator).end,
            res is Some <==> old(allocator).free_count() > 0,
            res is None ==> *final(allocator) == *old(allocator),
            res matches Some(ms) ==> {
                &&& ms.wf()
                &&& ms.areas@.len() == 0
                &&& ms.trampoline is None
                &&& ms.page_table.root_ppn.0 == old(allocator).next_frame()
                &&& !old(allocator)@.contains(ms.page_table.root_ppn.0)
                &&& final(allocator)@ == old(allocator)@.insert(ms.page_table.root_ppn.0)
                &&& final(allocator).free_count() == old(allocator).free_count() - 1
            },
    {
        match allocator.allocate() {
            None => None,
            Some(root) => {
                let ms = MemorySet {
                    page_table: PageTable::new(root),
                    areas: Vec::new(),
                    trampoline: None,
                };
                assert(old(allocator).is_free(root.0));
                Some(ms)
            },
        }
    }

    /// Binds the trampoline page to frame `ppn`, readable and executable.
    pub fn map_trampoline(&mut self, ppn: PhysPageNum)
        requires
            old(self).wf(),
            old(self).trampoline is None,
            ppn.0 <= PPN_MASK,
        ensures
            final(self).wf(),
            final(self).trampoline == Some(ppn),
            final(self).areas == old(self).areas,
            final(self).page_table.root_ppn == old(self).page_table.root_ppn,
    {
        proof {
            if self.covered(TRAMPOLINE_VPN) {
                let i = self.area_index(TRAMPOLINE_VPN);
                assert(self.areas@[i].wf());
            }
        }
        self.page_table.map(VirtPageNum(TRAMPOLINE_VPN), ppn, PTEFlags { bits: PTE_R | PTE_X });
        self.trampoline = Some(ppn);
        proof {
            assert forall|vpn: u64| #[trigger]
                self.page_table@.contains_key(vpn) <==> (self.covered(vpn) || (self.trampoline is Some
                    && vpn == TRAMPOLINE_VPN)) by {
                assert(self.covered(vpn) == old(self).covered(vpn));
            }
            assert forall|i: int, vpn: u64|
                0 <= i < self.areas@.len() && (#[trigger] self.areas@[i]).contains(
                    vpn,
                ) implies #[trigger] self.page_table@[vpn] == self.areas@[i].entry_of(vpn) by {
                assert(old(self).areas@[i].contains(vpn));
                assert(old(self).areas@[i].wf());
            }
        }
    }

    /// Whether an identical area over `start_va..end_va` can be added: the range
    /// does not run backwards, every page number in it is a frame number, and
    /// no area shares a page with it.
    pub open spec fn can_push_identical(&self, start_va: VirtAddr, end_va: VirtAddr) -> bool {
        &&& start_va.spec_floor().0 <= end_va.spec_ceil().0 <= PPN_MASK + 1
        &&& self.clear_of(start_va.spec_floor().0, end_va.spec_ceil().0)
    }

    /// Maps the pages from `start_va`, rounded down, up to `end_va`, rounded up,
    /// each to the frame of its own number, with permission `perm`. Where the
    /// area cannot be added nothing changes.
    pub fn push_identical(&mut self, start_va: VirtAddr, end_va: VirtAddr, perm: MapPermission) -> (res:
        Result<(), ()>)
        requires
            old(self).wf(),
        ensures
            final(self).wf(),
            res is Ok <==> old(self).can_push_identical(start_va, end_va),
            res is Err ==> *final(self) == *old(self),
            res is Ok ==> {
                let area = final(self).areas@.last();
                &&& final(self).areas@.len() == old(self).areas@.len() + 1
                &&& final(self).areas@.drop_last() == old(self).areas@
                &&& final(self).trampoline == old(self).trampoline
                &&& final(self).page_table.root_ppn == old(self).page_table.root_ppn
                &&& area.start_vpn == start_va.spec_floor().0
                &&& area.end_vpn == end_va.spec_ceil().0
                &&& area.map_type == MapType::Identical
                &&& area.map_perm == perm
                &&& area.frames@.len() == 0
            },
    {
        let start_vpn = start_va.floor();
        let end_vpn = end_va.ceil();
        if end_vpn.0 < start_vpn.0 || end_vpn.0 > PPN_MASK + 1 || self.overlaps(
            start_vpn.0,
            end_vpn.0,
        ) {
            return Err(());
        }
        let mut vpn: u64 = start_vpn.0;
        let flags = PTEFlags { bits: perm.bits };
        proof {
            assert forall|v: u64| start_vpn.0 <= v < end_vpn.0 implies !self.page_table@.contains_key(
                v,
            ) by {
                if self.covered(v) {
                    let i = self.area_index(v);
                    assert(self.areas@[i].disjoint_from(start_vpn.0, end_vpn.0));
                }
            }
        }
        while vpn < end_vpn.0
            invariant
                start_vpn.0 <= vpn <= end_vpn.0 <= PPN_MASK + 1,
                self.areas == old(self).areas,
                self.trampoline == old(self).trampoline,
                self.page_table.root_ppn == old(self).page_table.root_ppn,
                forall|v: u64|
                    start_vpn.0 <= v < end_vpn.0 ==> !old(self).page_table@.contains_key(v),
                forall|v: u64| #[trigger]
                    self.page_table@.contains_key(v) <==> (old(self).page_table@.contains_key(v)
                        || start_vpn.0 <= v < vpn),
                forall|v: u64|
                    old(self).page_table@.contains_key(v) ==> #[trigger] self.page_table@[v] == old(
                        self,
                    ).page_table@[v],
                forall|v: u64|
                    start_vpn.0 <= v < vpn ==> #[trigger] self.page_table@[v]
                        == PageTableEntry::spec_new(PhysPageNum(v), flags.spec_with(PTE_V)),
            decreases end_vpn.0 - vpn,
        {
            self.page_table.map(VirtPageNum(vpn), PhysPageNum(vpn), flags);
            vpn = vpn + 1;
        }
        let area = MapArea {
            start_vpn: start_vpn.0,
            end_vpn: end_vpn.0,
            frames: Vec::new(),
            map_type: MapType::Identical,
            map_perm: perm,
        };
        self.areas.push(area);
        proof {
            assert(self.areas@.drop_last() =~= old(self).areas@);
            lemma_push_area_wf(old(self), self);
        }
        Ok(())
    }

    /// Gives every frame of the address space back to the allocator.
    pub fn recycle(self, allocator: &mut StackFrameAllocator)
        requires
            self.wf(),
            old(allocator).wf(),
        ensures
            final(allocator).wf(),
            final(allocator).start == old(allocator).start,
            final(allocator).end == old(allocator).end,
            final(allocator)@ == old(allocator)@.difference(self.owned()),
    {
        let mut ms = self;
        let ghost all = self.areas@;
        while ms.areas.len() > 0
            invariant
                ms.wf(),
                allocator.wf(),
                allocator.start == old(allocator).start,
                allocator.end == old(allocator).end,
                ms.page_table.root_ppn == self.page_table.root_ppn,
                all == self.areas@,
                ms.areas@.len() <= all.len(),
                ms.areas@ == all.take(ms.areas@.len() as int),
                forall|p: u64|
                    allocator@.contains(p) <==> (old(allocator)@.contains(p) && !exists|i: int|
                        ms.areas@.len() <= i < all.len() && (#[trigger] all[i]).ppns().contains(p)),
            decreases ms.areas.len(),
        {
            let last = ms.areas.len() - 1;
            let ghost before = allocator@;
            ms.remove_area_at(allocator, last);
            proof {
                assert(ms.areas@ =~= all.take(last as int));
                assert forall|p: u64|
                    allocator@.contains(p) <==> (old(allocator)@.contains(p) && !exists|i: int|
                        ms.areas@.len() <= i < all.len() && (#[trigger] all[i]).ppns().contains(
                            p,
                        )) by {
                    assert(allocator@.contains(p) <==> before.contains(p) && !all[last as int].ppns().contains(
                        p,
                    ));
                    if exists|i: int|
                        last <= i < all.len() && (#[trigger] all[i]).ppns().contains(p) {
                        let i = choose|i: int|
                            last <= i < all.len() && (#[trigger] all[i]).ppns().contains(p);
                        if i != last {
                            assert(last + 1 <= i < all.len() && all[i].ppns().contains(p));
                        }
                    }
                }
            }
        }
        allocator.dealloc(ms.page_table.root_ppn);
        proof {
            assert(allocator@ =~= old(allocator)@.difference(self.owned()));
        }
    }
}

/// Storing one byte into one frame of one area keeps the address space sound,
/// keeps its mappings, and changes the byte at that one address only.
pub proof fn lemma_write_keeps(
    before: &MemorySet,
    after: &MemorySet,
    i: int,
    k: int,
    off: int,
    value: u8,
)
    requires
        before.wf(),
        0 <= i < before.areas@.len(),
        before.areas@[i].map_type == MapType::Framed,
        0 <= k < before.areas@[i].frames@.len(),
        0 <= off < PAGE_SIZE,
        after.page_table == before.page_table,
        after.trampoline == before.trampoline,
        after.areas@.len() == before.areas@.len(),
        forall|j: int| 0 <= j < before.areas@.len() && j != i ==> after.areas@[j] == before.areas@[j],
        after.areas@[i].start_vpn == before.areas@[i].start_vpn,
        after.areas@[i].end_vpn == before.areas@[i].end_vpn,
        after.areas@[i].map_type == before.areas@[i].map_type,
        after.areas@[i].map_perm == before.areas@[i].map_perm,
        after.areas@[i].frames@.len() == before.areas@[i].frames@.len(),
        forall|m: int|
            0 <= m < before.areas@[i].frames@.len() && m != k ==> after.areas@[i].frames@[m]
                == before.areas@[i].frames@[m],
        after.areas@[i].frames@[k].ppn == before.areas@[i].frames@[k].ppn,
        after.areas@[i].frames@[k].bytes@ == before.areas@[i].frames@[k].bytes@.update(off, value),
    ensures
        after.wf(),
        after.same_mappings(before),
        forall|a: u64|
            #[trigger] after.byte_at(a) == if a == (before.areas@[i].start_vpn + k) * PAGE_SIZE
                + off {
                Some(value)
            } else {
                before.byte_at(a)
            },
{
    assert forall|j: int| 0 <= j < after.areas@.len() implies (#[trigger] after.areas@[j]).same_mapping(
        &before.areas@[j],
    ) by {
        if j == i {
            assert(after.areas@[j].ppns() =~= before.areas@[j].ppns());
        }
    }
    lemma_same_mappings_wf(before, after);
    assert forall|a: u64|
        #[trigger] after.byte_at(a) == if a == (before.areas@[i].start_vpn + k) * PAGE_SIZE + off {
            Some(value)
        } else {
            before.byte_at(a)
        } by {
        let vpn = a / PAGE_SIZE;
        lemma_same_mappings_cover(before, after, vpn);
        if before.covered(vpn) {
            let j = before.area_index(vpn);
            if j == i && vpn - before.areas@[i].start_vpn == k {
            }
        }
    }
}

/// Two address spaces with the same mappings cover the same pages from the same areas.
pub proof fn lemma_same_mappings_cover(before: &MemorySet, after: &MemorySet, vpn: u64)
    requires
        before.wf(),
        after.wf(),
        after.same_mappings(before),
    ensures
        after.covered(vpn) == before.covered(vpn),
        before.covered(vpn) ==> after.area_index(vpn) == before.area_index(vpn),
{
    if before.covered(vpn) {
        let j = before.area_index(vpn);
        assert(after.areas@[j].same_mapping(&before.areas@[j]));
        assert(after.areas@[j].contains(vpn));
        after.lemma_area_unique(j, vpn);
    }
    if after.covered(vpn) {
        let j = after.area_index(vpn);
        assert(after.areas@[j].same_mapping(&before.areas@[j]));
        assert(before.areas@[j].contains(vpn));
    }
}

/// An address space with the mappings of a sound one, and whole frames, is sound.
pub proof fn lemma_same_mappings_wf(before: &MemorySet, after: &MemorySet)
    requires
        before.wf(),
        after.same_mappings(before),
        forall|i: int, k: int|
            0 <= i < after.areas@.len() && 0 <= k < after.areas@[i].frames@.len() ==> (
            #[trigger] after.areas@[i].frames@[k]).bytes@.len() == PAGE_SIZE,
    ensures
        after.wf(),
{
    assert forall|i: int| 0 <= i < after.areas@.len() implies (#[trigger] after.areas@[i]).wf() by {
        assert(after.areas@[i].same_mapping(&before.areas@[i]));
        assert(before.areas@[i].wf());
        assert(after.areas@[i].frames@.len() == after.areas@[i].ppns().len());
        assert(before.areas@[i].frames@.len() == before.areas@[i].ppns().len());
        assert forall|k: int| 0 <= k < after.areas@[i].frames@.len() implies (
        #[trigger] after.areas@[i].frames@[k]).wf() by {
            assert(after.areas@[i].ppns()[k] == before.areas@[i].ppns()[k]);
            assert(before.areas@[i].frames@[k].wf());
        }
    }
    assert forall|i: int, j: int| 0 <= i < j < after.areas@.len() implies (
    #[trigger] after.areas@[i]).disjoint_from(
        (#[trigger] after.areas@[j]).start_vpn,
        after.areas@[j].end_vpn,
    ) by {
        assert(after.areas@[i].same_mapping(&before.areas@[i]));
        assert(after.areas@[j].same_mapping(&before.areas@[j]));
        assert(before.areas@[i].disjoint_from(before.areas@[j].start_vpn, before.areas@[j].end_vpn));
    }
    assert forall|vpn: u64| #[trigger]
        after.page_table@.contains_key(vpn) <==> (after.covered(vpn) || (after.trampoline is Some
            && vpn == TRAMPOLINE_VPN)) by {
        if before.covered(vpn) {
            let j = before.area_index(vpn);
            assert(after.areas@[j].same_mapping(&before.areas@[j]));
            assert(after.areas@[j].contains(vpn));
        }
        if after.covered(vpn) {
            let j = after.area_index(vpn);
            assert(after.areas@[j].same_mapping(&before.areas@[j]));
            assert(before.areas@[j].contains(vpn));
        }
    }
    assert forall|i: int, vpn: u64|
        0 <= i < after.areas@.len() && (#[trigger] after.areas@[i]).contains(
            vpn,
        ) implies #[trigger] after.page_table@[vpn] == after.areas@[i].entry_of(vpn) by {
        assert(after.areas@[i].same_mapping(&before.areas@[i]));
        assert(before.areas@[i].contains(vpn));
        if before.areas@[i].map_type == MapType::Framed {
            assert(after.areas@[i].ppns()[vpn - after.areas@[i].start_vpn]
                == before.areas@[i].ppns()[vpn - after.areas@[i].start_vpn]);
        }
    }
}


/// Adding, to a sound address space, a sound area that is clear of the others
/// and of the trampoline page, with its pages bound in the page table and the
/// other bindings kept, gives a sound address space.
pub proof fn lemma_push_area_wf(before: &MemorySet, after: &MemorySet)
    requires
        before.wf(),
        after.areas@.len() == before.areas@.len() + 1,
        after.areas@.drop_last() == before.areas@,
        after.areas@.last().wf(),
        before.clear_of(after.areas@.last().start_vpn, after.areas@.last().end_vpn),
        after.trampoline == before.trampoline,
        after.page_table.root_ppn == before.page_table.root_ppn,
        forall|v: u64| #[trigger]
            after.page_table@.contains_key(v) <==> (before.page_table@.contains_key(v)
                || after.areas@.last().contains(v)),
        forall|v: u64|
            before.page_table@.contains_key(v) && !after.areas@.last().contains(v)
                ==> #[trigger] after.page_table@[v] == before.page_table@[v],
        forall|v: u64|
            after.areas@.last().contains(v) ==> #[trigger] after.page_table@[v]
                == after.areas@.last().entry_of(v),
    ensures
        after.wf(),
{
    let n = before.areas@.len() as int;
    let area = after.areas@.last();
    assert forall|i: int| 0 <= i < n implies after.areas@[i] == before.areas@[i] by {
        assert(after.areas@.drop_last()[i] == after.areas@[i]);
    }
    assert forall|i: int| 0 <= i < after.areas@.len() implies (#[trigger] after.areas@[i]).wf() by {
        if i < n {
            assert(before.areas@[i].wf());
        }
    }
    assert forall|i: int, j: int| 0 <= i < j < after.areas@.len() implies (
    #[trigger] after.areas@[i]).disjoint_from(
        (#[trigger] after.areas@[j]).start_vpn,
        after.areas@[j].end_vpn,
    ) by {
        if j < n {
            assert(before.areas@[i].disjoint_from(before.areas@[j].start_vpn, before.areas@[j].end_vpn));
        } else {
            assert(before.areas@[i].disjoint_from(area.start_vpn, area.end_vpn));
        }
    }
    assert forall|vpn: u64| #[trigger]
        after.page_table@.contains_key(vpn) <==> (after.covered(vpn) || (after.trampoline is Some
            && vpn == TRAMPOLINE_VPN)) by {
        if before.covered(vpn) {
            let j = before.area_index(vpn);
            assert(after.areas@[j].contains(vpn));
        }
        if area.contains(vpn) {
            assert(after.areas@[n].contains(vpn));
        }
        if after.covered(vpn) {
            let j = after.area_index(vpn);
            if j < n {
                assert(before.areas@[j].contains(vpn));
            }
        }
    }
    assert forall|i: int, vpn: u64|
        0 <= i < after.areas@.len() && (#[trigger] after.areas@[i]).contains(
            vpn,
        ) implies #[trigger] after.page_table@[vpn] == after.areas@[i].entry_of(vpn) by {
        if i < n {
            assert(before.areas@[i].contains(vpn));
            assert(before.areas@[i].disjoint_from(area.start_vpn, area.end_vpn));
            assert(before.covered(vpn));
        }
    }
    if before.trampoline is Some {
        assert(!area.contains(TRAMPOLINE_VPN));
        assert(before.page_table@.contains_key(TRAMPOLINE_VPN));
    }
}


/// Gives every frame of `frames` back to the allocator.
pub fn release_frames(allocator: &mut StackFrameAllocator, frames: Vec<FrameTracker>)
    requires
        old(allocator).wf(),
    ensures
        final(allocator).wf(),
        final(allocator).start == old(allocator).start,
        final(allocator).end == old(allocator).end,
        final(allocator)@ == old(allocator)@.difference(
            frames@.map(|k: int, f: FrameTracker| f.ppn.0).to_set(),
        ),
{
    let mut i: usize = 0;
    let ghost ppns = frames@.map(|k: int, f: FrameTracker| f.ppn.0);
    proof {
        assert(allocator@ =~= old(allocator)@.difference(ppns.take(0).to_set()));
    }
    while i < frames.len()
        invariant
            i <= frames@.len(),
            allocator.wf(),
            allocator.start == old(allocator).start,
            allocator.end == old(allocator).end,
            ppns == frames@.map(|k: int, f: FrameTracker| f.ppn.0),
            allocator@ == old(allocator)@.difference(ppns.take(i as int).to_set()),
        decreases frames.len() - i,
    {
        let ghost before = allocator@;
        allocator.dealloc(frames[i].ppn);
        proof {
            let p = ppns[i as int];
            let a = ppns.take(i as int);
            let b = ppns.take(i + 1);
            assert(b =~= a.push(p));
            assert forall|x: u64| b.contains(x) <==> (a.contains(x) || x == p) by {
                if b.contains(x) {
                    let j = choose|j: int| 0 <= j < b.len() && b[j] == x;
                    if j < a.len() {
                        assert(a[j] == x);
                    }
                }
                if a.contains(x) {
                    let j = choose|j: int| 0 <= j < a.len() && a[j] == x;
                    assert(b[j] == x);
                }
                if x == p {
                    assert(b[a.len() as int] == x);
                }
            }
            assert(allocator@ =~= before.remove(p));
            assert(allocator@ =~= old(allocator)@.difference(b.to_set()));
        }
        i += 1;
    }
    proof {
        assert(ppns.take(frames@.len() as int) =~= ppns);
    }
}

/// Taking one area out of a sound address space, with its pages unbound and
/// the other bindings kept, leaves a sound address space.
pub proof fn lemma_remove_area_wf(before: &MemorySet, after: &MemorySet, idx: int)
    requires
        before.wf(),
        0 <= idx < before.areas@.len(),
        after.areas@ == before.areas@.remove(idx),
        after.trampoline == before.trampoline,
        after.page_table.root_ppn == before.page_table.root_ppn,
        forall|v: u64| #[trigger]
            after.page_table@.contains_key(v) <==> (before.page_table@.contains_key(v)
                && !before.areas@[idx].contains(v)),
        forall|v: u64| #[trigger]
            after.page_table@.contains_key(v) ==> after.page_table@[v] == before.page_table@[v],
    ensures
        after.wf(),
{
    let area = before.areas@[idx];
    assert(area.wf());
    assert forall|i: int| 0 <= i < after.areas@.len() implies #[trigger] after.areas@[i]
        == before.areas@[if i < idx { i } else { i + 1 }] by {}
    assert forall|i: int| 0 <= i < after.areas@.len() implies (#[trigger] after.areas@[i]).wf() by {
        assert(before.areas@[if i < idx { i } else { i + 1 }].wf());
    }
    assert forall|i: int, j: int| 0 <= i < j < after.areas@.len() implies (
    #[trigger] after.areas@[i]).disjoint_from(
        (#[trigger] after.areas@[j]).start_vpn,
        after.areas@[j].end_vpn,
    ) by {
        let bi = if i < idx { i } else { i + 1 };
        let bj = if j < idx { j } else { j + 1 };
        assert(before.areas@[bi].disjoint_from(before.areas@[bj].start_vpn, before.areas@[bj].end_vpn));
    }
    assert forall|i: int, vpn: u64|
        0 <= i < after.areas@.len() && #[trigger] after.areas@[i].contains(
            vpn,
        ) implies !area.contains(vpn) && before.covered(vpn) by {
        let bi = if i < idx { i } else { i + 1 };
        assert(before.areas@[bi].contains(vpn));
        if bi < idx {
            assert(before.areas@[bi].disjoint_from(area.start_vpn, area.end_vpn));
        } else {
            assert(before.areas@[idx].disjoint_from(
                before.areas@[bi].start_vpn,
                before.areas@[bi].end_vpn,
            ));
        }
    }
    assert forall|vpn: u64| #[trigger]
        after.page_table@.contains_key(vpn) <==> (after.covered(vpn) || (after.trampoline is Some
            && vpn == TRAMPOLINE_VPN)) by {
        if after.covered(vpn) {
            let j = after.area_index(vpn);
            assert(after.areas@[j].contains(vpn));
        }
        if before.covered(vpn) && !area.contains(vpn) {
            let j = before.area_index(vpn);
            assert(j != idx);
            let aj = if j < idx { j } else { j - 1 };
            assert(after.areas@[aj].contains(vpn));
        }
    }
    assert forall|i: int, vpn: u64|
        0 <= i < after.areas@.len() && (#[trigger] after.areas@[i]).contains(
            vpn,
        ) implies #[trigger] after.page_table@[vpn] == after.areas@[i].entry_of(vpn) by {
        let bi = if i < idx { i } else { i + 1 };
        assert(before.areas@[bi].contains(vpn));
        assert(after.areas@[i].contains(vpn));
        assert(!area.contains(vpn) && before.covered(vpn));
        assert(before.page_table@.contains_key(vpn));
        assert(after.page_table@.contains_key(vpn));
    }
    if before.trampoline is Some {
        assert(!area.contains(TRAMPOLINE_VPN));
        assert(before.page_table@.contains_key(TRAMPOLINE_VPN));
        assert(after.page_table@.contains_key(TRAMPOLINE_VPN));
    }
}


/// Every page of an area of a sound address space translates to the frame
/// that the area holds for it, valid and with the permission of the area: so
/// does every page of a range that was inserted.
pub proof fn lemma_translate_inside(ms: &MemorySet, i: int, vpn: u64)
    requires
        ms.wf(),
        0 <= i < ms.areas@.len(),
        ms.areas@[i].contains(vpn),
    ensures
        ms.page_table@.contains_key(vpn),
        ms.page_table@[vpn].spec_ppn().0 == ms.areas@[i].ppn_of(vpn),
        ms.page_table@[vpn].spec_flags() == (PTEFlags { bits: ms.areas@[i].map_perm.bits | PTE_V }),
        ms.page_table@[vpn].spec_is_valid(),
{
    assert(ms.covered(vpn));
    assert(ms.areas@[i].wf());
    assert(ms.page_table@[vpn] == ms.areas@[i].entry_of(vpn));
    match ms.areas@[i].map_type {
        MapType::Framed => {
            assert(ms.areas@[i].frames@[vpn - ms.areas@[i].start_vpn].wf());
        },
        MapType::Identical => {},
    }
    crate::mm::page_table::lemma_entry_round_trip(
        ms.areas@[i].ppn_of(vpn),
        ms.areas@[i].map_perm.bits | PTE_V,
    );
    crate::mm::page_table::lemma_with_valid(ms.areas@[i].map_perm.bits);
}

/// A page outside every area of a sound address space, other than the
/// trampoline page, is not mapped.
pub proof fn lemma_translate_outside(ms: &MemorySet, vpn: u64)
    requires
        ms.wf(),
        !ms.covered(vpn),
        vpn != TRAMPOLINE_VPN,
    ensures
        !ms.page_table@.contains_key(vpn),
{
}

/// After a range was inserted, every page of the range translates to a frame
/// of its own that was free before, valid and with the permission asked for.
pub proof fn lemma_inserted_translates(
    before: &MemorySet,
    after: &MemorySet,
    allocator: &StackFrameAllocator,
    before_alloc: &StackFrameAllocator,
    start_va: VirtAddr,
    end_va: VirtAddr,
    perm: MapPermission,
    vpn: u64,
)
    requires
        after.wf(),
        after.after_insert(before, allocator, before_alloc, start_va, end_va, perm),
        start_va.spec_floor().0 <= vpn < end_va.spec_ceil().0,
    ensures
        after.page_table@.contains_key(vpn),
        after.page_table@[vpn].spec_is_valid(),
        after.page_table@[vpn].spec_flags() == (PTEFlags { bits: perm.bits | PTE_V }),
        after.page_table@[vpn].spec_ppn() == after.areas@.last().frames@[vpn
            - start_va.spec_floor().0].ppn,
        !before_alloc@.contains(after.page_table@[vpn].spec_ppn().0),
        allocator@.contains(after.page_table@[vpn].spec_ppn().0),
{
    let n = after.areas@.len() - 1;
    let area = after.areas@[n];
    assert(area.wf());
    lemma_translate_inside(after, n, vpn);
    let k = vpn - area.start_vpn;
    assert(area.ppns()[k] == area.frames@[k].ppn.0);
    assert(area.ppns().to_set().contains(area.frames@[k].ppn.0));
}

} // verus!
