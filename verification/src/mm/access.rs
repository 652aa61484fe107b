//! Reading and writing runs of bytes of an address space by virtual address.
use vstd::prelude::*;
use crate::config::PAGE_SIZE;
use crate::mm::address::{VirtAddr, VirtPageNum};
use crate::mm::memory_set::{MapType, MemorySet};

verus! {

impl MemorySet {
    /// Whether a framed area holds page `vpn`.
    pub open spec fn page_framed(&self, vpn: u64) -> bool {
        self.covered(vpn) && self.areas@[self.area_index(vpn)].map_type == MapType::Framed
    }

    /// Whether the `len` bytes from `va` on do not run past the last address
    /// and each lies in a framed area.
    pub open spec fn range_mapped(&self, va: u64, len: nat) -> bool {
        &&& va + len <= u64::MAX + 1
        &&& forall|a: u64| va <= a < va + len ==> (#[trigger] self.byte_at(a)) is Some
    }

    /// The `len` bytes from `va` on, where the range is mapped.
    pub open spec fn bytes_at(&self, va: u64, len: nat) -> Seq<u8> {
        Seq::new(len, |i: int| self.byte_at((va + i) as u64).unwrap())
    }

    /// Whether the `len` bytes from `va` on do not run past the last address
    /// and each lies in a framed area.
    pub fn check_range(&self, va: VirtAddr, len: usize) -> (ok: bool)
        requires
            self.wf(),
        ensures
            ok == self.range_mapped(va.0, len as nat),
    {
        if len == 0 {
            return true;
        }
        if va.0 > u64::MAX - (len as u64 - 1) {
            return false;
        }
        let last: u64 = va.0 + (len as u64 - 1);
        let last_vpn: u64 = last / PAGE_SIZE;
        let mut vpn: u64 = va.0 / PAGE_SIZE;
        while vpn <= last_vpn
            invariant
                self.wf(),
                len >= 1,
                last == va.0 + len - 1,
                last_vpn == last / PAGE_SIZE,
                va.0 / PAGE_SIZE <= vpn <= last_vpn + 1,
                forall|a: u64| va.0 <= a <= last && a / PAGE_SIZE < vpn ==> (#[trigger] self.byte_at(a)) is Some,
            decreases last_vpn + 1 - vpn,
        {
            let framed = match self.find_area(VirtPageNum(vpn)) {
                None => false,
                Some(i) => match self.areas[i].map_type {
                    MapType::Framed => true,
                    MapType::Identical => false,
                },
            };
            if !framed {
                proof {
                    assert(last_vpn * 4096 <= last);
                    assert(vpn * 4096 <= last_vpn * 4096);
                    assert((va.0 / 4096 + 1) * 4096 > va.0);
                    let a: u64 = if vpn == va.0 / PAGE_SIZE { va.0 } else { (vpn * PAGE_SIZE) as u64 };
                    assert(a / PAGE_SIZE == vpn);
                    assert(va.0 <= a <= last);
                    assert(self.byte_at(a) is None);
                }
                return false;
            }
            vpn = vpn + 1;
        }
        true
    }

    /// The `len` bytes from `va` on, or `None` where some byte of the range
    /// lies in no framed area.
    pub fn read_bytes(&self, va: VirtAddr, len: usize) -> (res: Option<Vec<u8>>)
        requires
            self.wf(),
        ensures
            res is Some <==> self.range_mapped(va.0, len as nat),
            res matches Some(v) ==> v@ == self.bytes_at(va.0, len as nat),
    {
        if !self.check_range(va, len) {
            return None;
        }
        let mut out: Vec<u8> = Vec::new();
        let mut i: usize = 0;
        while i < len
            invariant
                self.wf(),
                self.range_mapped(va.0, len as nat),
                i <= len,
                out@.len() == i,
                forall|j: int| 0 <= j < i ==> out@[j] == self.byte_at((va.0 + j) as u64).unwrap(),
            decreases len - i,
        {
            let a: u64 = va.0 + i as u64;
            assert(self.byte_at(a) is Some);
            out.push(self.read_byte(VirtAddr(a)).unwrap());
            i += 1;
        }
        assert(out@ =~= self.bytes_at(va.0, len as nat));
        Some(out)
    }

    /// Stores `data` at `va` and the addresses after it. Where some byte of
    /// the range lies in no framed area, nothing changes and the answer is `false`.
    pub fn write_bytes(&mut self, va: VirtAddr, data: &Vec<u8>) -> (done: bool)
        requires
            old(self).wf(),
        ensures
            final(self).wf(),
            final(self).same_mappings(old(self)),
            done == old(self).range_mapped(va.0, data@.len()),
            !done ==> *final(self) == *old(self),
            done ==> forall|a: u64|
                #[trigger] final(self).byte_at(a) == if va.0 <= a < va.0 + data@.len() {
                    Some(data@[a - va.0])
                } else {
                    old(self).byte_at(a)
                },
    {
        if !self.check_range(va, data.len()) {
            return false;
        }
        let mut i: usize = 0;
        while i < data.len()
            invariant
                self.wf(),
                self.same_mappings(old(self)),
                old(self).range_mapped(va.0, data@.len()),
                i <= data@.len(),
                forall|a: u64|
                    #[trigger] self.byte_at(a) == if va.0 <= a < va.0 + i {
                        Some(data@[a - va.0])
                    } else {
                        old(self).byte_at(a)
                    },
            decreases data.len() - i,
        {
            let a: u64 = va.0 + i as u64;
            assert(old(self).byte_at(a) is Some);
            assert(self.byte_at(a) == old(self).byte_at(a));
            let ghost prev = *self;
            self.write_byte(VirtAddr(a), data[i]);
            proof {
                assert forall|k: int| 0 <= k < self.areas@.len() implies (#[trigger] self.areas@[k]).same_mapping(
                    &old(self).areas@[k],
                ) by {
                    assert(self.areas@[k].same_mapping(&prev.areas@[k]));
                    assert(prev.areas@[k].same_mapping(&old(self).areas@[k]));
                }
            }
            i += 1;
        }
        true
    }
}

/// What was stored by `write_bytes` is what `read_bytes` gives back: after a
/// run of bytes is stored at a mapped range, the range holds those bytes.
pub proof fn lemma_write_then_read(before: &MemorySet, after: &MemorySet, va: u64, data: Seq<u8>)
    requires
        before.range_mapped(va, data.len()),
        forall|a: u64|
            #[trigger] after.byte_at(a) == if va <= a < va + data.len() {
                Some(data[a - va])
            } else {
                before.byte_at(a)
            },
    ensures
        after.range_mapped(va, data.len()),
        after.bytes_at(va, data.len()) == data,
{
    assert forall|i: int| 0 <= i < data.len() implies after.bytes_at(va, data.len())[i] == data[i] by {
        let a = (va + i) as u64;
        assert(after.byte_at(a) == Some(data[a - va]));
    }
    assert(after.bytes_at(va, data.len()) =~= data);
}

} // verus!
