//! Reading a program image from the bytes of a 64-bit little-endian ELF file.
use vstd::prelude::*;
use crate::mm::spaces::{ProgramImage, Segment, SegmentSpec};

verus! {

/// Size of the file header.
pub const ELF_HEADER_SIZE: usize = 64;

/// Smallest size of a program header.
pub const ELF_PH_SIZE: usize = 56;

/// The type of a program header that is loaded.
pub const PT_LOAD: u64 = 1;

/// The little-endian number in the `n` bytes of `b` from `at` on.
pub open spec fn le_num(b: Seq<u8>, at: int, n: nat) -> int
    decreases n,
{
    if n == 0 {
        0
    } else {
        b[at] + 256 * le_num(b, at + 1, (n - 1) as nat)
    }
}

/// The little-endian numbers of 2, 4 and 8 bytes fit 16, 32 and 64 bits.
pub proof fn lemma_le_num_bound(b: Seq<u8>, at: int)
    ensures
        0 <= le_num(b, at, 2) < 0x1_0000,
        0 <= le_num(b, at, 4) < 0x1_0000_0000,
        0 <= le_num(b, at, 8) < 0x1_0000_0000_0000_0000,
        le_num(b, at, 2) == b[at] + 256 * b[at + 1],
        le_num(b, at, 4) == le_num(b, at, 2) + 0x1_0000 * le_num(b, at + 2, 2),
        le_num(b, at, 8) == le_num(b, at, 4) + 0x1_0000_0000 * le_num(b, at + 4, 4),
{
    reveal_with_fuel(le_num, 9);
}

/// The number in the two bytes from `at` on.
pub fn read_u16(b: &Vec<u8>, at: usize) -> (v: u64)
    requires
        at + 2 <= b@.len(),
    ensures
        v == le_num(b@, at as int, 2),
        v < 0x1_0000,
{
    proof {
        lemma_le_num_bound(b@, at as int);
    }
    let _ = b.len();
    b[at] as u64 + 256 * (b[at + 1] as u64)
}

/// The number in the four bytes from `at` on.
pub fn read_u32(b: &Vec<u8>, at: usize) -> (v: u64)
    requires
        at + 4 <= b@.len(),
    ensures
        v == le_num(b@, at as int, 4),
        v < 0x1_0000_0000,
{
    proof {
        lemma_le_num_bound(b@, at as int);
    }
    let _ = b.len();
    read_u16(b, at) + 0x1_0000 * read_u16(b, at + 2)
}

/// The number in the eight bytes from `at` on.
pub fn read_u64(b: &Vec<u8>, at: usize) -> (v: u64)
    requires
        at + 8 <= b@.len(),
    ensures
        v == le_num(b@, at as int, 8),
{
    proof {
        lemma_le_num_bound(b@, at as int);
    }
    let _ = b.len();
    read_u32(b, at) + 0x1_0000_0000 * read_u32(b, at + 4)
}

/// Whether `b` starts with a sound file header: long enough, with the magic
/// number, and with program headers of a usable size that lie inside the file.
pub open spec fn elf_header_ok(b: Seq<u8>) -> bool {
    &&& b.len() >= ELF_HEADER_SIZE
    &&& b[0] == 0x7f && b[1] == 0x45 && b[2] == 0x4c && b[3] == 0x46
    &&& elf_phentsize(b) >= ELF_PH_SIZE
    &&& elf_phoff(b) + elf_phnum(b) * elf_phentsize(b) <= b.len()
}

/// The address where execution starts.
pub open spec fn elf_entry(b: Seq<u8>) -> int {
    le_num(b, 24, 8)
}

/// The offset of the first program header in the file.
pub open spec fn elf_phoff(b: Seq<u8>) -> int {
    le_num(b, 32, 8)
}

/// The size of one program header.
pub open spec fn elf_phentsize(b: Seq<u8>) -> int {
    le_num(b, 54, 2)
}

/// The number of program headers.
pub open spec fn elf_phnum(b: Seq<u8>) -> int {
    le_num(b, 56, 2)
}

/// The offset of program header `i` in the file.
pub open spec fn elf_ph(b: Seq<u8>, i: int) -> int {
    elf_phoff(b) + i * elf_phentsize(b)
}

/// Whether program header `i` is loaded.
pub open spec fn ph_is_load(b: Seq<u8>, i: int) -> bool {
    le_num(b, elf_ph(b, i), 4) == PT_LOAD
}

/// Whether the bytes of program header `i` lie inside the file.
pub open spec fn ph_data_ok(b: Seq<u8>, i: int) -> bool {
    le_num(b, elf_ph(b, i) + 8, 8) + le_num(b, elf_ph(b, i) + 32, 8) <= b.len()
}

/// The segment that program header `i` describes.
pub open spec fn ph_segment(b: Seq<u8>, i: int) -> SegmentSpec {
    let ph = elf_ph(b, i);
    let flags = le_num(b, ph + 4, 4);
    let offset = le_num(b, ph + 8, 8);
    SegmentSpec {
        start_va: le_num(b, ph + 16, 8) as u64,
        mem_size: le_num(b, ph + 40, 8) as u64,
        readable: (flags / 4) % 2 == 1,
        writable: (flags / 2) % 2 == 1,
        executable: flags % 2 == 1,
        data: b.subrange(offset, offset + le_num(b, ph + 32, 8)),
    }
}

/// Whether the bytes of every loaded header among the first `n` lie inside the file.
pub open spec fn elf_data_ok(b: Seq<u8>, n: int) -> bool {
    forall|i: int| 0 <= i < n && ph_is_load(b, i) ==> #[trigger] ph_data_ok(b, i)
}

/// The segments of the loaded headers among the first `n`, in file order.
pub open spec fn elf_segments(b: Seq<u8>, n: int) -> Seq<SegmentSpec>
    decreases n,
{
    if n <= 0 {
        Seq::empty()
    } else if ph_is_load(b, n - 1) {
        elf_segments(b, n - 1).push(ph_segment(b, n - 1))
    } else {
        elf_segments(b, n - 1)
    }
}

/// Whether `b` is a program image that can be read.
pub open spec fn elf_ok(b: Seq<u8>) -> bool {
    elf_header_ok(b) && elf_data_ok(b, elf_phnum(b))
}

/// The bytes `from..to` of `b`.
pub fn copy_range(b: &Vec<u8>, from: usize, to: usize) -> (out: Vec<u8>)
    requires
        from <= to <= b@.len(),
    ensures
        out@ == b@.subrange(from as int, to as int),
{
    let mut out: Vec<u8> = Vec::new();
    let mut i: usize = from;
    while i < to
        invariant
            from <= i <= to <= b@.len(),
            out@ == b@.subrange(from as int, i as int),
        decreases to - i,
    {
        out.push(b[i]);
        proof {
            assert(out@ =~= b@.subrange(from as int, i + 1));
        }
        i += 1;
    }
    out
}

/// Reads the program image in the bytes `b` of an ELF file: the entry address
/// and one segment for each loaded program header, in file order. `None`
/// where the header is not sound or a segment's bytes run past the file.
pub fn parse_elf(b: &Vec<u8>) -> (res: Option<ProgramImage>)
    ensures
        res is Some <==> elf_ok(b@),
        res matches Some(image) ==> {
            &&& image.entry == elf_entry(b@)
            &&& image.segs() == elf_segments(b@, elf_phnum(b@))
        },
{
    if b.len() < ELF_HEADER_SIZE {
        return None;
    }
    if b[0] != 0x7f || b[1] != 0x45 || b[2] != 0x4c || b[3] != 0x46 {
        return None;
    }
    let entry = read_u64(b, 24);
    let phoff = read_u64(b, 32);
    let phentsize = read_u16(b, 54);
    let phnum = read_u16(b, 56);
    if phentsize < ELF_PH_SIZE as u64 {
        return None;
    }
    let len = b.len() as u64;
    assert(phnum * phentsize < 0x1_0000_0000) by (nonlinear_arith)
        requires
            phnum < 0x1_0000,
            phentsize < 0x1_0000,
    ;
    if phoff > len || phnum * phentsize > len - phoff {
        return None;
    }
    let mut segments: Vec<Segment> = Vec::new();
    let mut i: u64 = 0;
    while i < phnum
        invariant
            elf_header_ok(b@),
            len == b@.len(),
            b@.len() <= usize::MAX,
            phoff == elf_phoff(b@),
            phentsize == elf_phentsize(b@),
            phnum == elf_phnum(b@),
            phnum < 0x1_0000,
            phentsize < 0x1_0000,
            i <= phnum,
            elf_data_ok(b@, i as int),
            segments@.map_values(|s: Segment| s@) == elf_segments(b@, i as int),
        decreases phnum - i,
    {
        assert(i * phentsize + phentsize <= phnum * phentsize) by (nonlinear_arith)
            requires
                i < phnum,
                phentsize >= 0,
        ;
        let ph: u64 = phoff + i * phentsize;
        assert(ph + phentsize <= len);
        let at: usize = ph as usize;
        let p_type = read_u32(b, at);
        let ghost prev = segments@;
        if p_type == PT_LOAD {
            let flags = read_u32(b, at + 4);
            let offset = read_u64(b, at + 8);
            let vaddr = read_u64(b, at + 16);
            let filesz = read_u64(b, at + 32);
            let memsz = read_u64(b, at + 40);
            if offset > len || filesz > len - offset {
                proof {
                    assert(ph_is_load(b@, i as int));
                    assert(!ph_data_ok(b@, i as int));
                    assert(!elf_data_ok(b@, phnum as int));
                }
                return None;
            }
            let data = copy_range(b, offset as usize, (offset + filesz) as usize);
            segments.push(
                Segment {
                    start_va: vaddr,
                    mem_size: memsz,
                    readable: (flags / 4) % 2 == 1,
                    writable: (flags / 2) % 2 == 1,
                    executable: flags % 2 == 1,
                    data,
                },
            );
            proof {
                assert(segments@.map_values(|s: Segment| s@) =~= prev.map_values(|s: Segment| s@).push(
                    ph_segment(b@, i as int),
                ));
            }
        }
        proof {
            assert(ph_is_load(b@, i as int) ==> ph_data_ok(b@, i as int));
        }
        i += 1;
    }
    Some(ProgramImage { entry, segments })
}

} // verus!
