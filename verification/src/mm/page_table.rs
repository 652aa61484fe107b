//! Page table entries and the page table of one address space.
use vstd::prelude::*;
use std::collections::HashMap;
use crate::config::PPN_MASK;
use crate::mm::address::{PhysPageNum, VirtPageNum};

verus! {

broadcast use vstd::std_specs::hash::group_hash_axioms;

/// The flag byte of a page table entry: a set of the eight flags below.
#[derive(Clone, Copy, Debug, PartialEq, Eq, Structural)]
pub struct PTEFlags {
    pub bits: u8,
}

/// The entry is in use.
pub const PTE_V: u8 = 1;

/// Loads from the page are allowed.
pub const PTE_R: u8 = 2;

/// Stores to the page are allowed.
pub const PTE_W: u8 = 4;

/// Instruction fetches from the page are allowed.
pub const PTE_X: u8 = 8;

/// User mode may access the page.
pub const PTE_U: u8 = 16;

/// The mapping is global.
pub const PTE_G: u8 = 32;

/// The page was accessed.
pub const PTE_A: u8 = 64;

/// The page was written.
pub const PTE_D: u8 = 128;

/// The addressing-mode tag of a page table token: three-level paging.
pub const SATP_MODE_SV39: u64 = 0x8000_0000_0000_0000;

impl PTEFlags {
    /// Whether every flag of `other` is in this set.
    pub open spec fn spec_contains(self, other: u8) -> bool {
        self.bits & other == other
    }

    #[verifier::when_used_as_spec(spec_contains)]
    pub fn contains(self, other: u8) -> (b: bool)
        ensures
            b == self.spec_contains(other),
    {
        self.bits & other == other
    }

    /// This set with the flags of `other` added.
    pub open spec fn spec_with(self, other: u8) -> PTEFlags {
        PTEFlags { bits: self.bits | other }
    }

    #[verifier::when_used_as_spec(spec_with)]
    pub fn with(self, other: u8) -> (f: PTEFlags)
        ensures
            f == self.spec_with(other),
    {
        PTEFlags { bits: self.bits | other }
    }
}

/// One entry of a page table: a frame number above a flag byte.
#[derive(Clone, Copy, Debug, PartialEq, Eq, Structural)]
pub struct PageTableEntry {
    pub bits: u64,
}

impl PageTableEntry {
    /// The entry for frame `ppn` with the flags `flags`.
    pub open spec fn spec_new(ppn: PhysPageNum, flags: PTEFlags) -> PageTableEntry {
        PageTableEntry { bits: (ppn.0 << 10) | (flags.bits as u64) }
    }

    /// The frame that the entry names.
    pub open spec fn spec_ppn(self) -> PhysPageNum {
        PhysPageNum((self.bits >> 10) & PPN_MASK)
    }

    /// The flags of the entry.
    pub open spec fn spec_flags(self) -> PTEFlags {
        PTEFlags { bits: (self.bits & 0xff) as u8 }
    }

    /// Whether the entry is in use.
    pub open spec fn spec_is_valid(self) -> bool {
        self.spec_flags().spec_contains(PTE_V)
    }

    /// Whether loads are allowed.
    pub open spec fn spec_readable(self) -> bool {
        self.spec_flags().spec_contains(PTE_R)
    }

    /// Whether stores are allowed.
    pub open spec fn spec_writable(self) -> bool {
        self.spec_flags().spec_contains(PTE_W)
    }

    /// Whether instruction fetches are allowed.
    pub open spec fn spec_executable(self) -> bool {
        self.spec_flags().spec_contains(PTE_X)
    }

    #[verifier::when_used_as_spec(spec_new)]
    pub fn new(ppn: PhysPageNum, flags: PTEFlags) -> (pte: PageTableEntry)
        requires
            ppn.0 <= PPN_MASK,
        ensures
            pte == Self::spec_new(ppn, flags),
            pte.spec_ppn() == ppn,
            pte.spec_flags() == flags,
    {
        proof {
            lemma_entry_round_trip(ppn.0, flags.bits);
        }
        PageTableEntry { bits: (ppn.0 << 10) | (flags.bits as u64) }
    }

    /// The entry that names no frame and has no flag.
    pub fn empty() -> (pte: PageTableEntry)
        ensures
            pte.bits == 0,
            !pte.spec_is_valid(),
    {
        assert((((0u64 & 0xff) as u8) & 1u8) != 1u8) by (bit_vector);
        PageTableEntry { bits: 0 }
    }

    #[verifier::when_used_as_spec(spec_ppn)]
    pub fn ppn(self) -> (ppn: PhysPageNum)
        ensures
            ppn == self.spec_ppn(),
            ppn.0 <= PPN_MASK,
    {
        let b = self.bits;
        assert(((b >> 10) & 0xfff_ffff_ffff) <= 0xfff_ffff_ffff) by (bit_vector);
        PhysPageNum((self.bits >> 10) & PPN_MASK)
    }

    #[verifier::when_used_as_spec(spec_flags)]
    pub fn flags(self) -> (flags: PTEFlags)
        ensures
            flags == self.spec_flags(),
    {
        PTEFlags { bits: (self.bits & 0xff) as u8 }
    }

    #[verifier::when_used_as_spec(spec_is_valid)]
    pub fn is_valid(self) -> (b: bool)
        ensures
            b == self.spec_is_valid(),
    {
        self.flags().contains(PTE_V)
    }

    #[verifier::when_used_as_spec(spec_readable)]
    pub fn readable(self) -> (b: bool)
        ensures
            b == self.spec_readable(),
    {
        self.flags().contains(PTE_R)
    }

    #[verifier::when_used_as_spec(spec_writable)]
    pub fn writable(self) -> (b: bool)
        ensures
            b == self.spec_writable(),
    {
        self.flags().contains(PTE_W)
    }

    #[verifier::when_used_as_spec(spec_executable)]
    pub fn executable(self) -> (b: bool)
        ensures
            b == self.spec_executable(),
    {
        self.flags().contains(PTE_X)
    }
}

/// Packing a frame number of at most 44 bits with a flag byte loses neither.
pub proof fn lemma_entry_round_trip(ppn: u64, flags: u8)
    requires
        ppn <= PPN_MASK,
    ensures
        PageTableEntry::spec_new(PhysPageNum(ppn), PTEFlags { bits: flags }).spec_ppn()
            == PhysPageNum(ppn),
        PageTableEntry::spec_new(PhysPageNum(ppn), PTEFlags { bits: flags }).spec_flags()
            == (PTEFlags { bits: flags }),
{
    assert((((ppn << 10) | (flags as u64)) >> 10) & 0xfff_ffff_ffff == ppn) by (bit_vector)
        requires
            ppn <= 0xfff_ffff_ffff,
    ;
    assert(((((ppn << 10) | (flags as u64)) & 0xff) as u8) == flags) by (bit_vector);
}

/// Adding the valid flag to a flag byte makes it valid and keeps each of the
/// read, write, execute and user flags as it was.
pub proof fn lemma_with_valid(flags: u8)
    ensures
        (PTEFlags { bits: flags }).spec_with(PTE_V).spec_contains(PTE_V),
        (PTEFlags { bits: flags }).spec_with(PTE_V).spec_contains(PTE_R) == (PTEFlags {
            bits: flags,
        }).spec_contains(PTE_R),
        (PTEFlags { bits: flags }).spec_with(PTE_V).spec_contains(PTE_W) == (PTEFlags {
            bits: flags,
        }).spec_contains(PTE_W),
        (PTEFlags { bits: flags }).spec_with(PTE_V).spec_contains(PTE_X) == (PTEFlags {
            bits: flags,
        }).spec_contains(PTE_X),
        (PTEFlags { bits: flags }).spec_with(PTE_V).spec_contains(PTE_U) == (PTEFlags {
            bits: flags,
        }).spec_contains(PTE_U),
{
    assert((flags | 1u8) & 1u8 == 1u8) by (bit_vector);
    assert(((flags | 1u8) & 2u8 == 2u8) == (flags & 2u8 == 2u8)) by (bit_vector);
    assert(((flags | 1u8) & 4u8 == 4u8) == (flags & 4u8 == 4u8)) by (bit_vector);
    assert(((flags | 1u8) & 8u8 == 8u8) == (flags & 8u8 == 8u8)) by (bit_vector);
    assert(((flags | 1u8) & 16u8 == 16u8) == (flags & 16u8 == 16u8)) by (bit_vector);
}

/// The page table of one address space: which page is bound to which entry,
/// and the frame that holds the table's root.
pub struct PageTable {
    pub root_ppn: PhysPageNum,
    pub entries: HashMap<u64, PageTableEntry>,
}

impl PageTable {
    /// The bindings of the table, by page number.
    pub open spec fn view(&self) -> Map<u64, PageTableEntry> {
        self.entries@
    }

    /// The identifier that the hardware loads to walk this table.
    pub open spec fn spec_token(&self) -> u64 {
        SATP_MODE_SV39 | self.root_ppn.0
    }

    /// An empty table rooted in frame `root_ppn`.
    pub fn new(root_ppn: PhysPageNum) -> (pt: PageTable)
        ensures
            pt.root_ppn == root_ppn,
            pt@ == Map::<u64, PageTableEntry>::empty(),
    {
        PageTable { root_ppn, entries: HashMap::new() }
    }

    /// Binds page `vpn` to frame `ppn` with `flags` and the valid flag.
    pub fn map(&mut self, vpn: VirtPageNum, ppn: PhysPageNum, flags: PTEFlags)
        requires
            !old(self)@.contains_key(vpn.0),
            ppn.0 <= PPN_MASK,
        ensures
            final(self).root_ppn == old(self).root_ppn,
            final(self)@ == old(self)@.insert(
                vpn.0,
                PageTableEntry::spec_new(ppn, flags.spec_with(PTE_V)),
            ),
    {
        let pte = PageTableEntry::new(ppn, flags.with(PTE_V));
        self.entries.insert(vpn.0, pte);
    }

    /// Removes the binding of page `vpn`.
    pub fn unmap(&mut self, vpn: VirtPageNum)
        requires
            old(self)@.contains_key(vpn.0),
        ensures
            final(self).root_ppn == old(self).root_ppn,
            final(self)@ == old(self)@.remove(vpn.0),
    {
        self.entries.remove(&vpn.0);
    }

    /// The entry that page `vpn` is bound to, if it is bound.
    pub fn translate(&self, vpn: VirtPageNum) -> (res: Option<PageTableEntry>)
        ensures
            res == if self@.contains_key(vpn.0) {
                Some(self@[vpn.0])
            } else {
                None
            },
    {
        match self.entries.get(&vpn.0) {
            Some(pte) => Some(*pte),
            None => None,
        }
    }

    #[verifier::when_used_as_spec(spec_token)]
    pub fn token(&self) -> (t: u64)
        ensures
            t == self.spec_token(),
    {
        SATP_MODE_SV39 | self.root_ppn.0
    }
}

/// A token gives back the root frame that it was made from.
pub proof fn lemma_token_root(root: u64)
    requires
        root <= PPN_MASK,
    ensures
        (SATP_MODE_SV39 | root) & PPN_MASK == root,
        (SATP_MODE_SV39 | root) >> 60 == 8,
{
    assert((0x8000_0000_0000_0000u64 | root) & 0xfff_ffff_ffffu64 == root) by (bit_vector)
        requires
            root <= 0xfff_ffff_ffffu64,
    ;
    assert((0x8000_0000_0000_0000u64 | root) >> 60 == 8) by (bit_vector)
        requires
            root <= 0xfff_ffff_ffffu64,
    ;
}

} // verus!
