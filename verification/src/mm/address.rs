//! Physical and virtual addresses and page numbers.
use vstd::prelude::*;
use crate::config::{PAGE_SIZE, MAX_PAGE_NUM};

verus! {

/// A physical byte address.
#[derive(Clone, Copy, Debug, PartialEq, Eq, Structural)]
pub struct PhysAddr(pub u64);

/// A virtual byte address.
#[derive(Clone, Copy, Debug, PartialEq, Eq, Structural)]
pub struct VirtAddr(pub u64);

/// The number of a physical frame.
#[derive(Clone, Copy, Debug, PartialEq, Eq, Structural)]
pub struct PhysPageNum(pub u64);

/// The number of a virtual page.
#[derive(Clone, Copy, Debug, PartialEq, Eq, Structural)]
pub struct VirtPageNum(pub u64);

impl VirtAddr {
    /// The page that holds this address.
    pub open spec fn spec_floor(self) -> VirtPageNum {
        VirtPageNum(self.0 / PAGE_SIZE)
    }

    /// The first page that starts at or after this address.
    pub open spec fn spec_ceil(self) -> VirtPageNum {
        VirtPageNum(((self.0 + PAGE_SIZE - 1) / PAGE_SIZE as int) as u64)
    }

    /// The distance of this address from the start of its page.
    pub open spec fn spec_page_offset(self) -> u64 {
        self.0 % PAGE_SIZE
    }

    #[verifier::when_used_as_spec(spec_floor)]
    pub fn floor(self) -> (vpn: VirtPageNum)
        ensures
            vpn == self.spec_floor(),
            vpn.0 <= MAX_PAGE_NUM,
    {
        VirtPageNum(self.0 / PAGE_SIZE)
    }

    #[verifier::when_used_as_spec(spec_ceil)]
    pub fn ceil(self) -> (vpn: VirtPageNum)
        ensures
            vpn == self.spec_ceil(),
            vpn.0 <= MAX_PAGE_NUM + 1,
            vpn.0 * PAGE_SIZE >= self.0,
    {
        if self.0 % PAGE_SIZE == 0 {
            VirtPageNum(self.0 / PAGE_SIZE)
        } else {
            VirtPageNum(self.0 / PAGE_SIZE + 1)
        }
    }

    #[verifier::when_used_as_spec(spec_page_offset)]
    pub fn page_offset(self) -> (off: u64)
        ensures
            off == self.spec_page_offset(),
            off < PAGE_SIZE,
    {
        self.0 % PAGE_SIZE
    }

    /// Whether this address is the first of its page.
    pub open spec fn spec_aligned(self) -> bool {
        self.0 % PAGE_SIZE == 0
    }

    #[verifier::when_used_as_spec(spec_aligned)]
    pub fn aligned(self) -> (b: bool)
        ensures
            b == self.spec_aligned(),
    {
        self.0 % PAGE_SIZE == 0
    }
}

impl VirtPageNum {
    /// The first address of this page.
    pub open spec fn spec_start(self) -> VirtAddr {
        VirtAddr((self.0 * PAGE_SIZE) as u64)
    }

    #[verifier::when_used_as_spec(spec_start)]
    pub fn start(self) -> (va: VirtAddr)
        requires
            self.0 <= MAX_PAGE_NUM,
        ensures
            va == self.spec_start(),
            va.0 == self.0 * PAGE_SIZE,
    {
        VirtAddr(self.0 * PAGE_SIZE)
    }
}

impl PhysAddr {
    /// The frame that holds this address.
    pub open spec fn spec_floor(self) -> PhysPageNum {
        PhysPageNum(self.0 / PAGE_SIZE)
    }

    /// The distance of this address from the start of its frame.
    pub open spec fn spec_page_offset(self) -> u64 {
        self.0 % PAGE_SIZE
    }

    #[verifier::when_used_as_spec(spec_floor)]
    pub fn floor(self) -> (ppn: PhysPageNum)
        ensures
            ppn == self.spec_floor(),
            ppn.0 <= MAX_PAGE_NUM,
    {
        PhysPageNum(self.0 / PAGE_SIZE)
    }

    #[verifier::when_used_as_spec(spec_page_offset)]
    pub fn page_offset(self) -> (off: u64)
        ensures
            off == self.spec_page_offset(),
            off < PAGE_SIZE,
    {
        self.0 % PAGE_SIZE
    }
}

impl PhysPageNum {
    /// The first address of this frame.
    pub open spec fn spec_start(self) -> PhysAddr {
        PhysAddr((self.0 * PAGE_SIZE) as u64)
    }

    #[verifier::when_used_as_spec(spec_start)]
    pub fn start(self) -> (pa: PhysAddr)
        requires
            self.0 <= MAX_PAGE_NUM,
        ensures
            pa == self.spec_start(),
            pa.0 == self.0 * PAGE_SIZE,
    {
        PhysAddr(self.0 * PAGE_SIZE)
    }
}

/// An address splits into its page and its offset, and the two give it back.
pub proof fn lemma_floor_offset(va: VirtAddr)
    ensures
        va.spec_floor().0 * PAGE_SIZE + va.spec_page_offset() == va.0,
        va.spec_floor().0 <= MAX_PAGE_NUM,
        va.spec_floor().spec_start().spec_floor() == va.spec_floor(),
{
}

/// Rounding up reaches the same page as rounding down exactly on page starts.
pub proof fn lemma_ceil_floor(va: VirtAddr)
    ensures
        va.spec_aligned() ==> va.spec_ceil() == va.spec_floor(),
        !va.spec_aligned() ==> va.spec_ceil().0 == va.spec_floor().0 + 1,
{
}

} // verus!
