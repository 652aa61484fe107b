//! Access to the memory of a process by the addresses that the process uses.
use vstd::prelude::*;
use crate::config::PAGE_SIZE;
use crate::kernel::{lemma_task_at, lemma_update_keeps, Kernel};
use crate::mm::address::{PhysPageNum, VirtAddr, VirtPageNum};
use crate::mm::memory_set::MemorySet;
use crate::task::task::TaskInner;

verus! {

/// Calls `String::push` of std: the character is added at the end.
#[verifier::external_body]
fn string_push(s: &mut String, c: char)
    ensures
        final(s)@ == old(s)@.push(c),
{
    s.push(c);
}

/// The `n` low bytes of `x`, lowest first.
pub open spec fn le_seq(x: int, n: nat) -> Seq<u8>
    decreases n,
{
    if n == 0 {
        Seq::empty()
    } else {
        seq![(x % 256) as u8] + le_seq(x / 256, (n - 1) as nat)
    }
}

/// The low bytes of a number are as many as were asked for.
pub proof fn lemma_le_seq_len(x: int, n: nat)
    ensures
        le_seq(x, n).len() == n,
    decreases n,
{
    if n > 0 {
        lemma_le_seq_len(x / 256, (n - 1) as nat);
    }
}

/// The `n` low bytes of `x`, lowest first, after the bytes of `out`.
pub fn push_le(out: &mut Vec<u8>, x: u64, n: usize)
    ensures
        final(out)@ == old(out)@ + le_seq(x as int, n as nat),
{
    let mut v: u64 = x;
    let mut k: usize = 0;
    proof {
        assert(out@ =~= old(out)@ + le_seq(x as int, 0));
    }
    while k < n
        invariant
            k <= n,
            out@ + le_seq(v as int, (n - k) as nat) == old(out)@ + le_seq(x as int, n as nat),
        decreases n - k,
    {
        let ghost before = out@;
        out.push((v % 256) as u8);
        proof {
            assert(before + le_seq(v as int, (n - k) as nat) =~= out@ + le_seq(
                (v / 256) as int,
                (n - k - 1) as nat,
            ));
        }
        v = v / 256;
        k += 1;
    }
    proof {
        assert(out@ + le_seq(v as int, 0) =~= out@);
    }
}

/// The 32 bits of `v` as a number without sign.
pub open spec fn i32_bits(v: i32) -> int {
    if v >= 0 {
        v as int
    } else {
        v + 0x1_0000_0000
    }
}

/// The four bytes of `v`, lowest first.
pub fn i32_le_bytes(v: i32) -> (out: Vec<u8>)
    ensures
        out@ == le_seq(i32_bits(v), 4),
{
    let bits: u64 = if v >= 0 {
        v as u64
    } else {
        (v as i64 + 0x1_0000_0000) as u64
    };
    let mut out: Vec<u8> = Vec::new();
    push_le(&mut out, bits, 4);
    assert(out@ =~= le_seq(i32_bits(v), 4));
    out
}

/// The text from `va` up to the first zero byte, each byte one character;
/// `None` where a byte before the end lies in no framed area.
pub open spec fn cstring_at(ms: &MemorySet, va: u64) -> Option<Seq<char>>
    decreases u64::MAX - va,
{
    match ms.byte_at(va) {
        None => None,
        Some(b) => if b == 0 {
            Some(Seq::empty())
        } else if va == u64::MAX {
            None
        } else {
            match cstring_at(ms, (va + 1) as u64) {
                None => None,
                Some(rest) => Some(seq![b as char] + rest),
            }
        },
    }
}

/// Reads the text that starts at `user_addr` in the address space and ends
/// before the first zero byte. `None` where the text runs into memory that
/// is not mapped.
pub fn from_user_cstring(ms: &MemorySet, user_addr: u64) -> (res: Option<String>)
    requires
        ms.wf(),
    ensures
        res is Some <==> cstring_at(ms, user_addr) is Some,
        res matches Some(s) ==> Some(s@) == cstring_at(ms, user_addr),
{
    let mut s = String::new();
    let mut va: u64 = user_addr;
    proof {
        assert(Seq::<char>::empty() + cstring_at(ms, va).unwrap_or(Seq::empty()) =~= cstring_at(
            ms,
            va,
        ).unwrap_or(Seq::empty()));
    }
    loop
        invariant
            ms.wf(),
            cstring_at(ms, user_addr) is Some <==> cstring_at(ms, va) is Some,
            cstring_at(ms, va) matches Some(rest) ==> cstring_at(ms, user_addr) == Some(s@ + rest),
        decreases u64::MAX - va,
    {
        match ms.read_byte(VirtAddr(va)) {
            None => {
                return None;
            },
            Some(val) => {
                if val == 0 {
                    proof {
                        assert(s@ + Seq::<char>::empty() =~= s@);
                    }
                    return Some(s);
                }
                if va == u64::MAX {
                    return None;
                }
                let ghost before = s@;
                string_push(&mut s, val as char);
                proof {
                    if let Some(rest) = cstring_at(ms, (va + 1) as u64) {
                        assert(before + (seq![val as char] + rest) =~= s@ + rest);
                    }
                }
                va = va + 1;
            },
        }
    }
}

/// One piece of a buffer of a process: the bytes `start..end` of frame `ppn`.
#[derive(Clone, Copy, Debug, PartialEq, Eq, Structural)]
pub struct BufferPiece {
    pub ppn: PhysPageNum,
    pub start: u64,
    pub end: u64,
}

/// How many pages the `len` bytes from `ptr` on touch.
pub open spec fn pages_touched(ptr: u64, len: nat) -> int {
    if len == 0 {
        0
    } else {
        (ptr + len - 1) / PAGE_SIZE as int - (ptr / PAGE_SIZE) as int + 1
    }
}

/// Piece `k` of the buffer of `len` bytes from `ptr` on: its page, where the
/// piece starts in the page and where it ends.
pub open spec fn piece_of(ms: &MemorySet, ptr: u64, len: nat, k: int) -> BufferPiece {
    let vpn = (ptr / PAGE_SIZE + k) as u64;
    BufferPiece {
        ppn: ms.page_table@[vpn].spec_ppn(),
        start: if k == 0 {
            ptr % PAGE_SIZE
        } else {
            0
        },
        end: if k == pages_touched(ptr, len) - 1 {
            ((ptr + len - 1) % PAGE_SIZE as int + 1) as u64
        } else {
            PAGE_SIZE
        },
    }
}

/// Whether every page that the `len` bytes from `ptr` on touch is mapped,
/// and the bytes do not run past the last address.
pub open spec fn buffer_mapped(ms: &MemorySet, ptr: u64, len: nat) -> bool {
    &&& ptr + len <= u64::MAX + 1
    &&& forall|k: int|
        0 <= k < pages_touched(ptr, len) ==> ms.page_table@.contains_key(
            #[trigger] ((ptr / PAGE_SIZE + k) as u64),
        )
}

/// Splits the buffer of `len` bytes from `ptr` on into its pieces, one per
/// page, in address order. `None` where a page of the buffer is not mapped.
pub fn translated_byte_buffer(ms: &MemorySet, ptr: u64, len: usize) -> (res: Option<Vec<BufferPiece>>)
    requires
        ms.wf(),
    ensures
        res is Some <==> buffer_mapped(ms, ptr, len as nat),
        res matches Some(v) ==> {
            &&& v@.len() == pages_touched(ptr, len as nat)
            &&& forall|k: int| 0 <= k < v@.len() ==> #[trigger] v@[k] == piece_of(ms, ptr, len as nat, k)
        },
{
    let mut v: Vec<BufferPiece> = Vec::new();
    if len == 0 {
        return Some(v);
    }
    if ptr > u64::MAX - (len as u64 - 1) {
        return None;
    }
    let last: u64 = ptr + (len as u64 - 1);
    let first_vpn: u64 = ptr / PAGE_SIZE;
    let last_vpn: u64 = last / PAGE_SIZE;
    let mut vpn: u64 = first_vpn;
    while vpn <= last_vpn
        invariant
            ms.wf(),
            len >= 1,
            last == ptr + len - 1,
            first_vpn == ptr / PAGE_SIZE,
            last_vpn == last / PAGE_SIZE,
            first_vpn <= vpn <= last_vpn + 1,
            v@.len() == vpn - first_vpn,
            forall|k: int|
                0 <= k < v@.len() ==> ms.page_table@.contains_key(
                    #[trigger] ((ptr / PAGE_SIZE + k) as u64),
                ),
            forall|k: int| 0 <= k < v@.len() ==> #[trigger] v@[k] == piece_of(ms, ptr, len as nat, k),
        decreases last_vpn + 1 - vpn,
    {
        let ppn = match ms.translate(VirtPageNum(vpn)) {
            None => {
                proof {
                    let k = vpn - first_vpn;
                    assert(((ptr / PAGE_SIZE + k) as u64) == vpn);
                }
                return None;
            },
            Some(pte) => pte.ppn(),
        };
        let start: u64 = if vpn == first_vpn { ptr % PAGE_SIZE } else { 0 };
        let end: u64 = if vpn == last_vpn { last % PAGE_SIZE + 1 } else { PAGE_SIZE };
        v.push(BufferPiece { ppn, start, end });
        vpn = vpn + 1;
    }
    Some(v)
}

/// Stores `bytes` at `addr` in the address space. `Err`, with nothing
/// changed, where some byte of the range lies in no framed area.
pub fn write_user(ms: &mut MemorySet, addr: u64, bytes: &Vec<u8>) -> (res: Result<(), ()>)
    requires
        old(ms).wf(),
    ensures
        final(ms).wf(),
        final(ms).same_mappings(old(ms)),
        res is Ok <==> old(ms).range_mapped(addr, bytes@.len()),
        res is Err ==> *final(ms) == *old(ms),
        res is Ok ==> forall|a: u64|
            #[trigger] final(ms).byte_at(a) == if addr <= a < addr + bytes@.len() {
                Some(bytes@[a - addr])
            } else {
                old(ms).byte_at(a)
            },
{
    if ms.write_bytes(VirtAddr(addr), bytes) {
        Ok(())
    } else {
        Err(())
    }
}

impl Kernel {
    /// Whether this kernel is what `before` becomes when `bytes` are stored
    /// at `addr` in the memory of the live process `task`: those bytes of its
    /// memory changed and nothing else.
    pub open spec fn wrote(&self, before: &Kernel, task: usize, addr: u64, bytes: Seq<u8>) -> bool {
        let was = before.task(task);
        let now = self.task(task);
        &&& self.only_inner_changed(before, task)
        &&& self.frames == before.frames
        &&& self.live(task)
        &&& now.inner == (TaskInner { addr_space: now.inner.addr_space, ..was.inner })
        &&& now.inner.addr_space.same_mappings(&was.inner.addr_space)
        &&& forall|a: u64|
            #[trigger] now.inner.addr_space.byte_at(a) == if addr <= a < addr + bytes.len() {
                Some(bytes[a - addr])
            } else {
                was.inner.addr_space.byte_at(a)
            }
    }
}

/// Stores `bytes` at `addr` in the memory of process `task`. `Err`, with
/// nothing changed, where the process is not live or some byte of the range
/// lies in no framed area.
pub fn copy_out(kernel: &mut Kernel, task: usize, addr: u64, bytes: &Vec<u8>) -> (res: Result<(), ()>)
    requires
        old(kernel).wf(),
    ensures
        final(kernel).wf(),
        res is Ok <==> old(kernel).live(task) && old(kernel).task(task).inner.addr_space.range_mapped(
            addr,
            bytes@.len(),
        ),
        res is Err ==> final(kernel).unchanged(old(kernel)),
        res is Ok ==> final(kernel).wrote(old(kernel), task, addr, bytes@),
{
    let idx = match kernel.find(task) {
        None => {
            return Err(());
        },
        Some(idx) => idx,
    };
    proof {
        assert(old(kernel).task_ok(&old(kernel).tasks@[idx as int]));
    }
    match write_user(&mut kernel.tasks[idx].inner.addr_space, addr, bytes) {
        Err(_) => {
            proof {
                assert(kernel.tasks@ =~= old(kernel).tasks@);
            }
            Err(())
        },
        Ok(_) => {
            proof {
                assert(kernel.tasks@ =~= old(kernel).tasks@.update(idx as int, kernel.tasks@[idx as int]));
                lemma_update_keeps(old(kernel), kernel, idx as int);
                crate::frames::lemma_frames_ok_update(old(kernel), kernel, idx as int);
                assert(kernel.all_live(kernel.manager.task_list@) == old(kernel).all_live(
                    kernel.manager.task_list@,
                ));
                assert(kernel.all_live(kernel.batch@) == old(kernel).all_live(kernel.batch@));
                lemma_task_at(kernel.tasks@, idx as int);
            }
            Ok(())
        },
    }
}

/// The `len` bytes at `addr` in the memory of process `task`; `None` where
/// the process is not live or some byte of the range lies in no framed area.
pub fn copy_in(kernel: &Kernel, task: usize, addr: u64, len: usize) -> (res: Option<Vec<u8>>)
    requires
        kernel.wf(),
    ensures
        res is Some <==> kernel.live(task) && kernel.task(task).inner.addr_space.range_mapped(
            addr,
            len as nat,
        ),
        res matches Some(v) ==> v@ == kernel.task(task).inner.addr_space.bytes_at(addr, len as nat),
{
    match kernel.find(task) {
        None => None,
        Some(idx) => {
            assert(kernel.task_ok(&kernel.tasks@[idx as int]));
            kernel.tasks[idx].inner.addr_space.read_bytes(VirtAddr(addr), len)
        },
    }
}

/// The text at `addr` in the memory of process `task`, up to the first zero
/// byte; `None` where the process is not live or the text runs into memory
/// that is not mapped.
pub fn user_cstring(kernel: &Kernel, task: usize, addr: u64) -> (res: Option<String>)
    requires
        kernel.wf(),
    ensures
        res is Some <==> kernel.live(task) && cstring_at(
            &kernel.task(task).inner.addr_space,
            addr,
        ) is Some,
        res matches Some(s) ==> Some(s@) == cstring_at(&kernel.task(task).inner.addr_space, addr),
{
    match kernel.find(task) {
        None => None,
        Some(idx) => {
            assert(kernel.task_ok(&kernel.tasks@[idx as int]));
            from_user_cstring(&kernel.tasks[idx].inner.addr_space, addr)
        },
    }
}

/// What one process stores in its memory no other process sees: after a
/// store by `writer`, every other live process is as it was, and so is every
/// byte of its memory. After a fork this holds of parent and child, either way.
pub proof fn lemma_write_is_private(
    before: &Kernel,
    after: &Kernel,
    writer: usize,
    other: usize,
    addr: u64,
    bytes: Seq<u8>,
)
    requires
        before.tasks_wf(),
        after.wrote(before, writer, addr, bytes),
        before.live(writer),
        before.live(other),
        other != writer,
    ensures
        after.live(other),
        after.task(other) == before.task(other),
        forall|a: u64| #[trigger]
            after.task(other).inner.addr_space.byte_at(a) == before.task(
                other,
            ).inner.addr_space.byte_at(a),
{
    let idx = crate::task::task::task_index(before.tasks@, writer);
    crate::task::task::lemma_task_index(before.tasks@, writer);
    crate::task::task::lemma_task_index(before.tasks@, other);
    crate::kernel::lemma_live_update(before.tasks@, idx, after.tasks@[idx]);
}

} // verus!
