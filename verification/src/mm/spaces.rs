//! The address spaces of the kernel: for a program image, for a copy of a
//! process, and for the kernel itself.
use vstd::prelude::*;
use crate::config::{
    MEMORY_END, MMIO_BASE, MMIO_SIZE, PAGE_SIZE, PPN_MASK, TRAMPOLINE, TRAP_CONTEXT,
    USER_STACK_SIZE,
};
use crate::mm::address::{PhysPageNum, VirtAddr};
use crate::mm::builder::{frames_total, placeable, specs, AreaRequest, AreaSpec};
use crate::mm::frame_allocator::StackFrameAllocator;
use crate::mm::memory_set::{MapArea, MapPermission, MapType, MemorySet, MAP_R, MAP_U, MAP_W, MAP_X};

verus! {

/// A copy of `src`.
pub fn copy_bytes(src: &Vec<u8>) -> (out: Vec<u8>)
    ensures
        out@ == src@,
{
    let mut out: Vec<u8> = Vec::new();
    let mut i: usize = 0;
    while i < src.len()
        invariant
            i <= src@.len(),
            out@ == src@.take(i as int),
        decreases src.len() - i,
    {
        out.push(src[i]);
        proof {
            assert(out@ =~= src@.take(i + 1));
        }
        i += 1;
    }
    proof {
        assert(src@.take(src@.len() as int) =~= src@);
    }
    out
}

/// One loadable part of a program image: where it goes, how long it is there,
/// what may be done with it, and the bytes that it starts with.
pub struct Segment {
    pub start_va: u64,
    pub mem_size: u64,
    pub readable: bool,
    pub writable: bool,
    pub executable: bool,
    pub data: Vec<u8>,
}

/// What a [`Segment`] holds, as a mathematical value.
pub struct SegmentSpec {
    pub start_va: u64,
    pub mem_size: u64,
    pub readable: bool,
    pub writable: bool,
    pub executable: bool,
    pub data: Seq<u8>,
}

impl View for Segment {
    type V = SegmentSpec;

    open spec fn view(&self) -> SegmentSpec {
        SegmentSpec {
            start_va: self.start_va,
            mem_size: self.mem_size,
            readable: self.readable,
            writable: self.writable,
            executable: self.executable,
            data: self.data@,
        }
    }
}

impl SegmentSpec {
    /// The permission of the segment's pages: what the segment allows, for user mode.
    pub open spec fn perm(&self) -> MapPermission {
        MapPermission {
            bits: (MAP_U + (if self.readable {
                MAP_R
            } else {
                0u8
            }) + (if self.writable {
                MAP_W
            } else {
                0u8
            }) + (if self.executable {
                MAP_X
            } else {
                0u8
            })) as u8,
        }
    }

    /// The address after the last byte of the segment.
    pub open spec fn end_va(&self) -> int {
        self.start_va + self.mem_size
    }
}

impl Segment {
    /// The permission of the segment's pages: what the segment allows, for user mode.
    pub fn perm(&self) -> (p: MapPermission)
        ensures
            p == self@.perm(),
    {
        let mut bits: u8 = MAP_U;
        if self.readable {
            bits = bits + MAP_R;
        }
        if self.writable {
            bits = bits + MAP_W;
        }
        if self.executable {
            bits = bits + MAP_X;
        }
        MapPermission { bits }
    }
}

/// The page after the last page of the last segment; 0 without segments.
pub open spec fn image_last_end_vpn(segs: Seq<SegmentSpec>) -> int {
    if segs.len() == 0 {
        0
    } else {
        (segs.last().end_va() + PAGE_SIZE - 1) / PAGE_SIZE as int
    }
}

/// The lowest address of the user stack: one unmapped guard page above the
/// last segment.
pub open spec fn image_stack_bottom(segs: Seq<SegmentSpec>) -> int {
    (image_last_end_vpn(segs) + 1) * PAGE_SIZE
}

/// The address after the user stack, where the stack pointer starts.
pub open spec fn image_stack_top(segs: Seq<SegmentSpec>) -> int {
    image_stack_bottom(segs) + USER_STACK_SIZE
}

/// Whether every address of the image fits in a machine word.
pub open spec fn image_representable(segs: Seq<SegmentSpec>) -> bool {
    &&& forall|i: int| 0 <= i < segs.len() ==> (#[trigger] segs[i]).end_va() <= u64::MAX
    &&& image_stack_top(segs) <= u64::MAX
}

/// The areas of the address space of an image: one per segment, then the
/// user stack, readable and writable, then the trap context page.
pub open spec fn image_requests(segs: Seq<SegmentSpec>) -> Seq<AreaSpec> {
    Seq::new(
        segs.len() + 2,
        |i: int|
            if i < segs.len() {
                AreaSpec {
                    start_va: segs[i].start_va,
                    end_va: segs[i].end_va() as u64,
                    map_type: MapType::Framed,
                    perm: segs[i].perm(),
                    data: segs[i].data,
                }
            } else if i == segs.len() {
                AreaSpec {
                    start_va: image_stack_bottom(segs) as u64,
                    end_va: image_stack_top(segs) as u64,
                    map_type: MapType::Framed,
                    perm: MapPermission { bits: 22 },
                    data: Seq::empty(),
                }
            } else {
                AreaSpec {
                    start_va: TRAP_CONTEXT,
                    end_va: TRAMPOLINE,
                    map_type: MapType::Framed,
                    perm: MapPermission { bits: 6 },
                    data: Seq::empty(),
                }
            },
    )
}

/// A program image as the loader hands it over: the segments and the address
/// where execution starts.
pub struct ProgramImage {
    pub entry: u64,
    pub segments: Vec<Segment>,
}

impl ProgramImage {
    /// The segments as mathematical values.
    pub open spec fn segs(&self) -> Seq<SegmentSpec> {
        self.segments@.map_values(|s: Segment| s@)
    }

    /// The address after the user stack, where the stack pointer starts.
    pub open spec fn stack_top(&self) -> int {
        image_stack_top(self.segs())
    }

    /// Whether every address of the image fits in a machine word.
    pub open spec fn representable(&self) -> bool {
        image_representable(self.segs())
    }

    /// The areas of the address space of the image.
    pub open spec fn spec_requests(&self) -> Seq<AreaSpec> {
        image_requests(self.segs())
    }
}

/// Where the parts of the kernel image lie in memory, as the linker placed them.
pub struct KernelLayout {
    pub stext: u64,
    pub etext: u64,
    pub srodata: u64,
    pub erodata: u64,
    pub sdata: u64,
    pub edata: u64,
    pub sbss_with_stack: u64,
    pub ebss: u64,
    pub ekernel: u64,
    pub strampoline: u64,
}

impl KernelLayout {
    /// The areas of the kernel's address space, each mapped to the frames of
    /// its own numbers: code, constants, data, zeroed data, the rest of
    /// physical memory, and the device window.
    pub open spec fn spec_requests(&self) -> Seq<AreaSpec> {
        seq![
            AreaSpec {
                start_va: self.stext,
                end_va: self.etext,
                map_type: MapType::Identical,
                perm: MapPermission { bits: 10 },
                data: Seq::empty(),
            },
            AreaSpec {
                start_va: self.srodata,
                end_va: self.erodata,
                map_type: MapType::Identical,
                perm: MapPermission { bits: 2 },
                data: Seq::empty(),
            },
            AreaSpec {
                start_va: self.sdata,
                end_va: self.edata,
                map_type: MapType::Identical,
                perm: MapPermission { bits: 6 },
                data: Seq::empty(),
            },
            AreaSpec {
                start_va: self.sbss_with_stack,
                end_va: self.ebss,
                map_type: MapType::Identical,
                perm: MapPermission { bits: 6 },
                data: Seq::empty(),
            },
            AreaSpec {
                start_va: self.ekernel,
                end_va: MEMORY_END,
                map_type: MapType::Identical,
                perm: MapPermission { bits: 6 },
                data: Seq::empty(),
            },
            AreaSpec {
                start_va: MMIO_BASE,
                end_va: (MMIO_BASE + MMIO_SIZE) as u64,
                map_type: MapType::Identical,
                perm: MapPermission { bits: 6 },
                data: Seq::empty(),
            },
        ]
    }

    /// The frame of the trampoline code.
    pub open spec fn trampoline_ppn(&self) -> PhysPageNum {
        PhysPageNum(self.strampoline / PAGE_SIZE)
    }
}

/// An identical area over `start..end` with permission bits `bits`.
fn identical(start: u64, end: u64, bits: u8) -> (r: AreaRequest)
    ensures
        r@ == (AreaSpec {
            start_va: start,
            end_va: end,
            map_type: MapType::Identical,
            perm: MapPermission { bits },
            data: Seq::empty(),
        }),
{
    let r = AreaRequest {
        start_va: start,
        end_va: end,
        map_type: MapType::Identical,
        perm: MapPermission { bits },
        data: Vec::new(),
    };
    assert(r.data@ =~= Seq::<u8>::empty());
    r
}

/// A framed area over `start..end` with permission bits `bits` and no bytes given.
fn framed(start: u64, end: u64, bits: u8) -> (r: AreaRequest)
    ensures
        r@ == (AreaSpec {
            start_va: start,
            end_va: end,
            map_type: MapType::Framed,
            perm: MapPermission { bits },
            data: Seq::empty(),
        }),
{
    let r = AreaRequest {
        start_va: start,
        end_va: end,
        map_type: MapType::Framed,
        perm: MapPermission { bits },
        data: Vec::new(),
    };
    assert(r.data@ =~= Seq::<u8>::empty());
    r
}

impl MemorySet {
    /// The address space of the kernel: the areas of `layout`, each page mapped
    /// to the frame of its own number, and the trampoline page.
    pub fn new_kernel(layout: &KernelLayout, allocator: &mut StackFrameAllocator) -> (res: Option<
        MemorySet,
    >)
        requires
            old(allocator).wf(),
        ensures
            final(allocator).wf(),
            final(allocator).start == old(allocator).start,
            final(allocator).end == old(allocator).end,
            res is Some <==> placeable(layout.spec_requests()) && layout.trampoline_ppn().0
                <= PPN_MASK && old(allocator).free_count() >= 1,
            res is None ==> final(allocator)@ == old(allocator)@,
            res matches Some(ms) ==> {
                &&& ms.wf()
                &&& ms.trampoline == Some(layout.trampoline_ppn())
                &&& ms.realizes(layout.spec_requests())
                &&& ms.fresh_for(old(allocator)@)
                &&& ms.held_in(final(allocator)@)
                &&& final(allocator)@ == old(allocator)@.insert(ms.page_table.root_ppn.0)
                &&& old(allocator).free_count() == final(allocator).free_count() + 1
            },
    {
        let mut reqs: Vec<AreaRequest> = Vec::new();
        reqs.push(identical(layout.stext, layout.etext, 10));
        reqs.push(identical(layout.srodata, layout.erodata, 2));
        reqs.push(identical(layout.sdata, layout.edata, 6));
        reqs.push(identical(layout.sbss_with_stack, layout.ebss, 6));
        reqs.push(identical(layout.ekernel, MEMORY_END, 6));
        reqs.push(identical(MMIO_BASE, MMIO_BASE + MMIO_SIZE, 6));
        proof {
            assert(specs(reqs@) =~= layout.spec_requests());
            lemma_identical_total(specs(reqs@), 6);
            assert(specs(reqs@).take(6) =~= specs(reqs@));
        }
        let res = Self::from_requests(&reqs, allocator, Some(PhysPageNum(layout.strampoline / PAGE_SIZE)));
        proof {
            if res is Some {
                let ms = res->0;
                assert forall|p: u64| ms.owned().contains(p) implies p == ms.page_table.root_ppn.0 by {
                    if p != ms.page_table.root_ppn.0 {
                        let i = choose|i: int|
                            0 <= i < ms.areas@.len() && (#[trigger] ms.areas@[i]).ppns().contains(p);
                        assert(Self::area_realizes(&ms.areas@[i], &specs(reqs@)[i]));
                        assert(ms.areas@[i].wf());
                    }
                }
                assert(ms.owned() =~= set![ms.page_table.root_ppn.0]);
                assert(old(allocator)@.union(ms.owned()) =~= old(allocator)@.insert(
                    ms.page_table.root_ppn.0,
                ));
            }
        }
        res
    }
}

impl MemorySet {
    /// The bytes of the frames of `area`, first frame first.
    pub open spec fn area_data(area: &MapArea) -> Seq<u8> {
        Seq::new(
            (area.frames@.len() * PAGE_SIZE) as nat,
            |i: int| area.frames@[i / PAGE_SIZE as int].bytes@[i % PAGE_SIZE as int],
        )
    }

    /// The areas of a copy of this address space: the same pages mapped the
    /// same way, starting with the same bytes.
    pub open spec fn copy_specs(&self) -> Seq<AreaSpec> {
        Seq::new(
            self.areas@.len(),
            |i: int|
                AreaSpec {
                    start_va: (self.areas@[i].start_vpn * PAGE_SIZE) as u64,
                    end_va: (self.areas@[i].end_vpn * PAGE_SIZE) as u64,
                    map_type: self.areas@[i].map_type,
                    perm: self.areas@[i].map_perm,
                    data: Self::area_data(&self.areas@[i]),
                },
        )
    }

    /// How many frames the areas own together.
    pub open spec fn framed_pages(&self) -> nat {
        frames_total(self.copy_specs())
    }

    /// The bytes of the frames of `area`, first frame first.
    pub fn area_bytes(area: &MapArea) -> (out: Vec<u8>)
        requires
            area.wf(),
        ensures
            out@ == Self::area_data(area),
    {
        let mut out: Vec<u8> = Vec::new();
        let mut k: usize = 0;
        while k < area.frames.len()
            invariant
                area.wf(),
                k <= area.frames@.len(),
                out@.len() == k * PAGE_SIZE,
                forall|i: int|
                    0 <= i < out@.len() ==> out@[i] == area.frames@[i / PAGE_SIZE as int].bytes@[i
                        % PAGE_SIZE as int],
            decreases area.frames.len() - k,
        {
            let mut o: usize = 0;
            assert(area.frames@[k as int].wf());
            while o < 4096
                invariant
                    area.wf(),
                    k < area.frames@.len(),
                    area.frames@[k as int].bytes@.len() == PAGE_SIZE,
                    o <= 4096,
                    out@.len() == k * PAGE_SIZE + o,
                    forall|i: int|
                        0 <= i < out@.len() ==> out@[i] == area.frames@[i / PAGE_SIZE as int].bytes@[i
                            % PAGE_SIZE as int],
                decreases 4096 - o,
            {
                out.push(area.frames[k].bytes[o]);
                o += 1;
            }
            k += 1;
        }
        assert(out@ =~= Self::area_data(area));
        out
    }

    /// A deep copy of `user_space`: the same areas with the same permissions
    /// and the same trampoline, over fresh frames that hold the same bytes.
    /// `None` when the allocator has too few frames; then no frame is taken.
    pub fn from_existed_user(user_space: &MemorySet, allocator: &mut StackFrameAllocator) -> (res:
        Option<MemorySet>)
        requires
            user_space.wf(),
            old(allocator).wf(),
        ensures
            final(allocator).wf(),
            final(allocator).start == old(allocator).start,
            final(allocator).end == old(allocator).end,
            res is Some <==> old(allocator).free_count() >= 1 + user_space.framed_pages(),
            res is None ==> final(allocator)@ == old(allocator)@,
            res matches Some(ms) ==> {
                &&& ms.wf()
                &&& ms.trampoline == user_space.trampoline
                &&& ms.realizes(user_space.copy_specs())
                &&& ms.fresh_for(old(allocator)@)
                &&& ms.held_in(final(allocator)@)
                &&& final(allocator)@ == old(allocator)@.union(ms.owned())
                &&& old(allocator).free_count() == final(allocator).free_count() + 1
                    + user_space.framed_pages()
                &&& forall|va: u64| #[trigger] ms.byte_at(va) == user_space.byte_at(va)
                &&& forall|vpn: u64| #[trigger] ms.covered(vpn) == user_space.covered(vpn)
            },
    {
        let mut reqs: Vec<AreaRequest> = Vec::new();
        let mut i: usize = 0;
        while i < user_space.areas.len()
            invariant
                user_space.wf(),
                i <= user_space.areas@.len(),
                reqs@.len() == i,
                specs(reqs@) == user_space.copy_specs().take(i as int),
            decreases user_space.areas.len() - i,
        {
            let area = &user_space.areas[i];
            assert(area.wf());
            let r = AreaRequest {
                start_va: area.start_vpn * PAGE_SIZE,
                end_va: area.end_vpn * PAGE_SIZE,
                map_type: area.map_type,
                perm: area.map_perm,
                data: Self::area_bytes(area),
            };
            let ghost prev = reqs@;
            reqs.push(r);
            proof {
                let target = user_space.copy_specs().take(i + 1);
                assert forall|j: int| 0 <= j < i + 1 implies specs(reqs@)[j] == target[j] by {
                    if j < i {
                        assert(reqs@[j] == prev[j]);
                        assert(specs(prev)[j] == user_space.copy_specs().take(i as int)[j]);
                    }
                }
                assert(specs(reqs@) =~= target);
            }
            i += 1;
        }
        proof {
            assert(user_space.copy_specs().take(user_space.areas@.len() as int)
                =~= user_space.copy_specs());
            lemma_copy_specs_placeable(user_space);
        }
        let res = Self::from_requests(&reqs, allocator, user_space.trampoline);
        proof {
            if res is Some {
                lemma_copy_same_bytes(user_space, &res->0);
            }
        }
        res
    }

    /// The address space of a program image: one framed area per segment with
    /// the segment's bytes, a user stack one guard page above the last segment,
    /// the trap context page, and the trampoline page over frame `trampoline`.
    /// Gives the address space, the initial stack pointer and the entry address.
    /// `None` when the image cannot be laid out or the allocator has too few
    /// frames; then no frame is taken.
    pub fn from_elf(
        image: &ProgramImage,
        allocator: &mut StackFrameAllocator,
        trampoline: PhysPageNum,
    ) -> (res: Option<(MemorySet, u64, u64)>)
        requires
            old(allocator).wf(),
        ensures
            final(allocator).wf(),
            final(allocator).start == old(allocator).start,
            final(allocator).end == old(allocator).end,
            res is Some <==> image.representable() && Self::can_build(
                image.spec_requests(),
                old(allocator),
                Some(trampoline),
            ),
            res is None ==> final(allocator)@ == old(allocator)@,
            res matches Some((ms, user_sp, entry)) ==> {
                &&& ms.wf()
                &&& ms.trampoline == Some(trampoline)
                &&& ms.realizes(image.spec_requests())
                &&& ms.fresh_for(old(allocator)@)
                &&& ms.held_in(final(allocator)@)
                &&& final(allocator)@ == old(allocator)@.union(ms.owned())
                &&& old(allocator).free_count() == final(allocator).free_count() + 1
                    + frames_total(image.spec_requests())
                &&& user_sp == image.stack_top()
                &&& entry == image.entry
            },
    {
        let mut reqs: Vec<AreaRequest> = Vec::new();
        let mut last_end_vpn: u64 = 0;
        let mut i: usize = 0;
        while i < image.segments.len()
            invariant
                allocator.wf(),
                *allocator == *old(allocator),
                i <= image.segments@.len(),
                reqs@.len() == i,
                specs(reqs@) == image.spec_requests().take(i as int),
                forall|j: int| 0 <= j < i ==> (#[trigger] image.segs()[j]).end_va() <= u64::MAX,
                last_end_vpn == if i == 0 {
                    0
                } else {
                    (image.segs()[i - 1].end_va() + PAGE_SIZE - 1) / PAGE_SIZE as int
                },
            decreases image.segments.len() - i,
        {
            let seg = &image.segments[i];
            assert(image.segs()[i as int] == seg@);
            if seg.start_va > u64::MAX - seg.mem_size {
                return None;
            }
            let end_va: u64 = seg.start_va + seg.mem_size;
            let r = AreaRequest {
                start_va: seg.start_va,
                end_va,
                map_type: MapType::Framed,
                perm: seg.perm(),
                data: copy_bytes(&seg.data),
            };
            let ghost prev = reqs@;
            reqs.push(r);
            last_end_vpn = VirtAddr(end_va).ceil().0;
            proof {
                let target = image.spec_requests().take(i + 1);
                assert forall|j: int| 0 <= j < i + 1 implies specs(reqs@)[j] == target[j] by {
                    if j < i {
                        assert(reqs@[j] == prev[j]);
                        assert(specs(prev)[j] == image.spec_requests().take(i as int)[j]);
                    }
                }
                assert(specs(reqs@) =~= target);
            }
            i += 1;
        }
        assert(last_end_vpn == image_last_end_vpn(image.segs()));
        if last_end_vpn > (u64::MAX - USER_STACK_SIZE) / PAGE_SIZE - 1 {
            return None;
        }
        let stack_bottom: u64 = (last_end_vpn + 1) * PAGE_SIZE;
        let stack_top: u64 = stack_bottom + USER_STACK_SIZE;
        let ghost prev = reqs@;
        reqs.push(framed(stack_bottom, stack_top, 22));
        reqs.push(framed(TRAP_CONTEXT, TRAMPOLINE, 6));
        proof {
            let n = image.segments@.len() as int;
            let target = image.spec_requests();
            assert(target.take(n).len() == n);
            assert forall|j: int| 0 <= j < n + 2 implies specs(reqs@)[j] == target[j] by {
                if j < n {
                    assert(reqs@[j] == prev[j]);
                    assert(specs(prev)[j] == target.take(n)[j]);
                }
            }
            assert(specs(reqs@) =~= target);
        }
        match Self::from_requests(&reqs, allocator, Some(trampoline)) {
            None => None,
            Some(ms) => Some((ms, stack_top, image.entry)),
        }
    }
}

/// The areas of a sound address space can be laid out again as they are.
pub proof fn lemma_copy_specs_placeable(ms: &MemorySet)
    requires
        ms.wf(),
    ensures
        placeable(ms.copy_specs()),
        ms.trampoline matches Some(p) ==> p.0 <= PPN_MASK,
        forall|i: int|
            0 <= i < ms.areas@.len() ==> {
                &&& (#[trigger] ms.copy_specs()[i]).start_vpn() == ms.areas@[i].start_vpn
                &&& ms.copy_specs()[i].end_vpn() == ms.areas@[i].end_vpn
            },
{
    let sp = ms.copy_specs();
    assert forall|i: int| 0 <= i < ms.areas@.len() implies {
        &&& (#[trigger] sp[i]).start_vpn() == ms.areas@[i].start_vpn
        &&& sp[i].end_vpn() == ms.areas@[i].end_vpn
        &&& sp[i].well_formed()
    } by {
        assert(ms.areas@[i].wf());
    }
    assert forall|i: int, j: int| 0 <= i < j < sp.len() implies #[trigger] sp[i].disjoint_from(
        &sp[j],
    ) by {
        assert(sp[i].start_vpn() == ms.areas@[i].start_vpn);
        assert(sp[j].start_vpn() == ms.areas@[j].start_vpn);
        assert(ms.areas@[i].disjoint_from(ms.areas@[j].start_vpn, ms.areas@[j].end_vpn));
    }
}

/// A copy of an address space covers the same pages and holds the same byte
/// at every address.
pub proof fn lemma_copy_same_bytes(orig: &MemorySet, copy: &MemorySet)
    requires
        orig.wf(),
        copy.wf(),
        copy.realizes(orig.copy_specs()),
    ensures
        forall|va: u64| #[trigger] copy.byte_at(va) == orig.byte_at(va),
        forall|vpn: u64| #[trigger] copy.covered(vpn) == orig.covered(vpn),
{
    lemma_copy_specs_placeable(orig);
    let sp = orig.copy_specs();
    assert forall|vpn: u64| #[trigger] copy.covered(vpn) == orig.covered(vpn) && (orig.covered(vpn)
        ==> copy.area_index(vpn) == orig.area_index(vpn)) by {
        if orig.covered(vpn) {
            let j = orig.area_index(vpn);
            assert(MemorySet::area_realizes(&copy.areas@[j], &sp[j]));
            assert(copy.areas@[j].contains(vpn));
            copy.lemma_area_unique(j, vpn);
        }
        if copy.covered(vpn) {
            let j = copy.area_index(vpn);
            assert(MemorySet::area_realizes(&copy.areas@[j], &sp[j]));
            assert(orig.areas@[j].contains(vpn));
        }
    }
    assert forall|va: u64| #[trigger] copy.byte_at(va) == orig.byte_at(va) by {
        let vpn = va / PAGE_SIZE;
        assert(copy.covered(vpn) == orig.covered(vpn));
        if orig.covered(vpn) {
            let j = orig.area_index(vpn);
            assert(copy.area_index(vpn) == j);
            assert(MemorySet::area_realizes(&copy.areas@[j], &sp[j]));
            assert(orig.areas@[j].wf());
            assert(copy.areas@[j].wf());
            if orig.areas@[j].map_type == MapType::Framed {
                let k = vpn - orig.areas@[j].start_vpn;
                let o = (va % PAGE_SIZE) as int;
                assert(copy.areas@[j].frames@[k].bytes@[o] == sp[j].initial_byte(k * PAGE_SIZE + o));
                assert((k * PAGE_SIZE + o) / PAGE_SIZE as int == k);
                assert((k * PAGE_SIZE + o) % PAGE_SIZE as int == o);
            }
        }
    }
}

/// Identical areas take no frame.
pub proof fn lemma_identical_total(reqs: Seq<AreaSpec>, n: int)
    requires
        0 <= n <= reqs.len(),
        forall|i: int| 0 <= i < n ==> (#[trigger] reqs[i]).map_type == MapType::Identical,
    ensures
        frames_total(reqs.take(n)) == 0,
    decreases n,
{
    if n > 0 {
        lemma_identical_total(reqs, n - 1);
        assert(reqs.take(n).drop_last() =~= reqs.take(n - 1));
    }
    if n == reqs.len() {
        assert(reqs.take(n) =~= reqs);
    }
}

} // verus!
