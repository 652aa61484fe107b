use os_core::config::{PAGE_SIZE, TRAMPOLINE, TRAP_CONTEXT};
use os_core::loader::{
    _get_app_elf, efs_get_app_elf, get_appid_by_name, get_num_app, list_apps, Loader,
};
use os_core::mm::address::{PhysPageNum, VirtAddr};
use os_core::mm::elf::{parse_elf, read_u16, read_u32, read_u64};
use os_core::mm::frame_allocator::StackFrameAllocator;
use os_core::mm::memory_set::{MapPermission, MemorySet};
use os_core::mm::spaces::{ProgramImage, Segment};
use os_core::syscall::pointer::{
    from_user_cstring, i32_le_bytes, push_le, translated_byte_buffer, write_user, BufferPiece,
};
use os_core::syscall::{as_low_signed, as_reg, as_signed, Syscall};
use os_core::task::kernel_stack::{alloc_kernel_stack, kernel_stack_position, KernelStack};
use os_core::task::pid::PidHandle;
use os_core::task::task::TaskState;
use os_core::trap::context::TrapContext;
use os_core::trap::handler::{classify, TrapKind};

fn le(v: u64, n: usize) -> Vec<u8> {
    (0..n).map(|i| (v >> (8 * i)) as u8).collect()
}

fn elf(entry: u64, segs: &[(u32, u32, u64, Vec<u8>, u64)]) -> Vec<u8> {
    let mut out = vec![0u8; 64];
    out[0..4].copy_from_slice(&[0x7f, b'E', b'L', b'F']);
    out[24..32].copy_from_slice(&le(entry, 8));
    out[32..40].copy_from_slice(&le(64, 8));
    out[54..56].copy_from_slice(&le(56, 2));
    out[56..58].copy_from_slice(&le(segs.len() as u64, 2));
    let mut offset = 64 + 56 * segs.len() as u64;
    let mut data: Vec<u8> = Vec::new();
    for (kind, flags, vaddr, bytes, memsz) in segs {
        out.extend(le(*kind as u64, 4));
        out.extend(le(*flags as u64, 4));
        out.extend(le(offset, 8));
        out.extend(le(*vaddr, 8));
        out.extend(le(*vaddr, 8));
        out.extend(le(bytes.len() as u64, 8));
        out.extend(le(*memsz, 8));
        out.extend(le(0x1000, 8));
        offset += bytes.len() as u64;
        data.extend(bytes.iter());
    }
    out.extend(data);
    out
}

#[test]
fn little_endian_numbers_are_read() {
    let b = vec![0x01, 0x02, 0x03, 0x04, 0x05, 0x06, 0x07, 0x08, 0xff];
    assert_eq!(read_u16(&b, 0), 0x0201);
    assert_eq!(read_u16(&b, 7), 0xff08);
    assert_eq!(read_u32(&b, 1), 0x05040302);
    assert_eq!(read_u64(&b, 0), 0x0807060504030201);
    assert_eq!(read_u64(&b, 1), 0xff08070605040302);
}

#[test]
fn an_elf_image_gives_its_entry_and_loaded_segments() {
    let bytes = elf(
        0x10abc,
        &[
            (1, 5, 0x10000, vec![1, 2, 3], 0x1000),
            (6, 4, 0x500, vec![9, 9], 0x10),
            (1, 6, 0x20000, vec![], 0x3000),
            (1, 7, 0x30000, vec![7; 10], 10),
        ],
    );
    let image = parse_elf(&bytes).unwrap();
    assert_eq!(image.entry, 0x10abc);
    assert_eq!(image.segments.len(), 3);
    let s = &image.segments[0];
    assert_eq!((s.start_va, s.mem_size), (0x10000, 0x1000));
    assert_eq!((s.readable, s.writable, s.executable), (true, false, true));
    assert_eq!(s.data, vec![1, 2, 3]);
    assert_eq!(s.perm().bits, 16 + 2 + 8);
    let s = &image.segments[1];
    assert_eq!((s.start_va, s.mem_size), (0x20000, 0x3000));
    assert_eq!((s.readable, s.writable, s.executable), (true, true, false));
    assert!(s.data.is_empty());
    assert_eq!(s.perm().bits, 16 + 2 + 4);
    let s = &image.segments[2];
    assert_eq!((s.readable, s.writable, s.executable), (true, true, true));
    assert_eq!(s.data, vec![7; 10]);
    assert_eq!(s.perm().bits, 30);
    let none = parse_elf(&elf(5, &[])).unwrap();
    assert_eq!(none.entry, 5);
    assert!(none.segments.is_empty());
}

#[test]
fn a_broken_elf_image_is_refused() {
    let good = elf(0x10000, &[(1, 5, 0x10000, vec![1, 2, 3], 0x1000)]);
    assert!(parse_elf(&good).is_some());
    assert!(parse_elf(&vec![]).is_none());
    assert!(parse_elf(&good[..63].to_vec()).is_none());
    let mut bad = good.clone();
    bad[1] = b'F';
    assert!(parse_elf(&bad).is_none());
    // the program header table runs past the file
    assert!(parse_elf(&good[..100].to_vec()).is_none());
    let mut bad = good.clone();
    bad[56] = 2;
    assert!(parse_elf(&bad).is_none());
    let mut bad = good.clone();
    bad[32..40].copy_from_slice(&le(u64::MAX, 8));
    assert!(parse_elf(&bad).is_none());
    // program headers that are too small
    let mut bad = good.clone();
    bad[54] = 55;
    assert!(parse_elf(&bad).is_none());
    // the bytes of the segment run past the file
    let mut bad = good.clone();
    bad.pop();
    assert!(parse_elf(&bad).is_none());
    let mut bad = good.clone();
    bad[64 + 8..64 + 16].copy_from_slice(&le(u64::MAX, 8));
    assert!(parse_elf(&bad).is_none());
    // a header that is not loaded may say what it likes
    let mut odd = good.clone();
    odd[64] = 2;
    odd[64 + 8..64 + 16].copy_from_slice(&le(u64::MAX, 8));
    assert_eq!(parse_elf(&odd).unwrap().segments.len(), 0);
}

fn image(segs: Vec<(u64, u64, Vec<u8>)>) -> ProgramImage {
    ProgramImage {
        entry: 0x10000,
        segments: segs
            .into_iter()
            .map(|(start_va, mem_size, data)| Segment {
                start_va,
                mem_size,
                readable: true,
                writable: true,
                executable: false,
                data,
            })
            .collect(),
    }
}

#[test]
fn an_image_that_cannot_be_laid_out_takes_no_frame() {
    let tramp = PhysPageNum(0x80201);
    let cases = vec![
        // not on a page boundary
        image(vec![(0x10001, 0x1000, vec![])]),
        // segments that share a page
        image(vec![(0x10000, 0x1001, vec![]), (0x11000, 0x1000, vec![])]),
        // more bytes than room
        image(vec![(0x10000, 0x1000, vec![0; 0x1001])]),
        // the end does not fit a word
        image(vec![(0xffff_ffff_ffff_0000, 0x10000, vec![])]),
        // the stack does not fit below the trap context
        image(vec![(TRAP_CONTEXT - 0x14000, 0x1000, vec![])]),
        // the stack lands on an earlier segment
        image(vec![(0x13000, 0x1000, vec![]), (0x10000, 0x1000, vec![])]),
    ];
    for (i, img) in cases.iter().enumerate() {
        let mut a = StackFrameAllocator::new(PhysPageNum(0), PhysPageNum(100));
        assert!(MemorySet::from_elf(img, &mut a, tramp).is_none(), "case {}", i);
        assert_eq!(a.available(), 100);
    }
    let ok = image(vec![(0x10000, 0x1001, vec![5; 0x1001]), (0x12000, 0, vec![])]);
    let mut a = StackFrameAllocator::new(PhysPageNum(0), PhysPageNum(100));
    let (ms, sp, entry) = MemorySet::from_elf(&ok, &mut a, tramp).unwrap();
    assert_eq!(entry, 0x10000);
    // the stack starts a guard page above the last segment, which is empty
    assert_eq!(sp, 0x13000 + 0x14000);
    assert_eq!(ms.areas.len(), 4);
    assert_eq!(ms.read_byte(VirtAddr(0x11000)), Some(5));
    assert_eq!(ms.read_byte(VirtAddr(0x11001)), Some(0));
    assert_eq!(ms.read_byte(VirtAddr(0x12000)), None);
    assert_eq!(ms.read_byte(VirtAddr(0x13000)), Some(0));
    assert_eq!(a.available(), 100 - 1 - 2 - 20 - 1);
    // one frame too few
    let mut a = StackFrameAllocator::new(PhysPageNum(0), PhysPageNum(23));
    assert!(MemorySet::from_elf(&ok, &mut a, tramp).is_none());
    assert_eq!(a.available(), 23);
    // a trampoline frame that no page table entry can hold
    let mut a = StackFrameAllocator::new(PhysPageNum(0), PhysPageNum(100));
    assert!(MemorySet::from_elf(&ok, &mut a, PhysPageNum(1 << 44)).is_none());
    // without segments the stack starts at the second page
    let mut a = StackFrameAllocator::new(PhysPageNum(0), PhysPageNum(100));
    let (_, sp, _) = MemorySet::from_elf(&image(vec![]), &mut a, tramp).unwrap();
    assert_eq!(sp, 0x1000 + 0x14000);
}

#[test]
fn the_loader_finds_programs_by_name() {
    let mut l = Loader::new();
    assert_eq!(get_num_app(&l), 0);
    assert_eq!(get_appid_by_name(&l, "a"), Err(()));
    l.add_app("a", vec![1]);
    l.add_app("b", vec![2, 2]);
    l.add_app("a", vec![3, 3, 3]);
    assert_eq!(get_num_app(&l), 3);
    assert_eq!(get_appid_by_name(&l, "a"), Ok(0));
    assert_eq!(get_appid_by_name(&l, "b"), Ok(1));
    assert_eq!(get_appid_by_name(&l, "c"), Err(()));
    assert_eq!(get_appid_by_name(&l, ""), Err(()));
    assert_eq!(_get_app_elf(&l, "a"), Ok(vec![1]));
    assert_eq!(efs_get_app_elf(&l, "b"), Ok(vec![2, 2]));
    assert_eq!(efs_get_app_elf(&l, "ab"), Err(()));
    assert_eq!(list_apps(&l), vec!["a".to_string(), "b".to_string(), "a".to_string()]);
}

#[test]
fn kernel_stacks_go_down_from_the_trampoline() {
    assert_eq!(kernel_stack_position(0), (TRAMPOLINE - 0xf000, TRAMPOLINE));
    assert_eq!(kernel_stack_position(1), (0xffff_ffff_fffe_0000, 0xffff_ffff_fffe_f000));
    assert_eq!(kernel_stack_position(2), (0xffff_ffff_fffd_0000, 0xffff_ffff_fffd_f000));
    assert_eq!(
        kernel_stack_position(0xffff_ffff),
        (0xffff_0000_0000_0000, 0xffff_0000_0000_f000)
    );
    for pid in 1..50usize {
        let (bottom, top) = kernel_stack_position(pid);
        let (next_bottom, next_top) = kernel_stack_position(pid + 1);
        assert_eq!(top - bottom, 15 * PAGE_SIZE);
        assert_eq!(bottom - next_top, PAGE_SIZE);
        assert!(next_bottom < next_top);
    }
    assert_eq!(KernelStack { pid: 3 }.position(), kernel_stack_position(3));
}

#[test]
fn a_kernel_stack_is_mapped_and_unmapped() {
    let mut a = StackFrameAllocator::new(PhysPageNum(0x100), PhysPageNum(0x120));
    let mut ks = MemorySet::new_bare(&mut a).unwrap();
    let free = a.available();
    let stack = alloc_kernel_stack(&mut ks, &mut a, PidHandle(3)).unwrap();
    assert_eq!(stack.pid, 3);
    assert_eq!(a.available(), free - 15);
    let (bottom, top) = stack.position();
    assert_eq!(ks.areas[0].start_vpn, bottom / 4096);
    assert_eq!(ks.areas[0].end_vpn, top / 4096);
    assert_eq!(ks.areas[0].map_perm, MapPermission { bits: 6 });
    assert!(ks.write_byte(VirtAddr(top - 1), 1));
    assert!(!ks.write_byte(VirtAddr(top), 1));
    assert!(!ks.write_byte(VirtAddr(bottom - 1), 1));
    // the same slot cannot be mapped twice, and a process id past the last slot has none
    assert!(alloc_kernel_stack(&mut ks, &mut a, PidHandle(3)).is_none());
    assert!(alloc_kernel_stack(&mut ks, &mut a, PidHandle(0x1_0000_0000)).is_none());
    assert_eq!(a.available(), free - 15);
    // too few frames
    let other = alloc_kernel_stack(&mut ks, &mut a, PidHandle(4)).unwrap();
    assert!(alloc_kernel_stack(&mut ks, &mut a, PidHandle(5)).is_none());
    assert_eq!(ks.areas.len(), 2);
    assert_eq!(stack.release(&mut ks, &mut a), Ok(()));
    assert_eq!(a.available(), free - 15);
    assert_eq!(ks.areas.len(), 1);
    assert_eq!(KernelStack { pid: 3 }.release(&mut ks, &mut a), Err(()));
    assert_eq!(other.release(&mut ks, &mut a), Ok(()));
    assert_eq!(a.available(), free);
}

#[test]
fn a_trap_context_is_prepared_for_user_mode() {
    let mut cx = TrapContext::zeroed();
    cx.x[5] = 55;
    cx.init(0x7000, 0x10000, 0xffff_0000, 0x8000_0000_0008_0000, 0x8020_0400, 0xffff_ffff_ffff_ffff);
    assert_eq!(cx.sepc, 0x10000);
    assert_eq!(cx.x[2], 0x7000);
    assert_eq!(cx.x[5], 55);
    assert_eq!(cx.kernel_sp, 0xffff_0000);
    assert_eq!(cx.kernel_satp, 0x8000_0000_0008_0000);
    assert_eq!(cx.trap_handler, 0x8020_0400);
    // the writable status bits without the previous-privilege bit
    assert_eq!(cx.sstatus, 0x8000_0003_000d_e662);
    cx.init(0, 0, 0, 0, 0, 0x100);
    assert_eq!(cx.sstatus, 0);
    cx.init(0, 0, 0, 0, 0, 0x122);
    assert_eq!(cx.sstatus, 0x22);
    cx.init(0, 0, 0, 0, 0, 0x1);
    assert_eq!(cx.sstatus, 0);
    assert_eq!(cx.reg_a(0), 0);
    cx.set_reg_a(0, 17);
    cx.set_reg_a(7, 93);
    assert_eq!(cx.x[10], 17);
    assert_eq!(cx.x[17], 93);
    assert_eq!(cx.reg_a(7), 93);
    assert_eq!(cx.reg_a(21), 0);
    assert_eq!(TrapContext::get_user_ptr(0x8765_4000), TRAP_CONTEXT);
    assert_eq!(TrapContext::get_user_ptr(0x8765_4128), TRAP_CONTEXT + 0x128);
}

#[test]
fn trap_causes_are_told_apart() {
    assert_eq!(classify(8), TrapKind::Syscall);
    assert_eq!(classify(13), TrapKind::PageFault);
    assert_eq!(classify(15), TrapKind::PageFault);
    assert_eq!(classify(5), TrapKind::AccessFault);
    assert_eq!(classify(7), TrapKind::AccessFault);
    assert_eq!(classify(2), TrapKind::IllegalInstruction);
    assert_eq!(classify((1 << 63) | 5), TrapKind::Timer);
    for other in [0u64, 1, 3, 4, 6, 9, 10, 11, 12, 14, 16, 1 << 62, (1 << 62) | 8] {
        assert_eq!(classify(other), TrapKind::Other, "{}", other);
    }
    for other in [1u64, 8, 9, 13, 0, 2] {
        assert_eq!(classify((1 << 63) | other), TrapKind::Other);
    }
}

#[test]
fn system_call_numbers() {
    let known = [
        (35u64, Syscall::UnLinkAt),
        (37, Syscall::LinkAt),
        (56, Syscall::OpenAt),
        (57, Syscall::Close),
        (63, Syscall::Read),
        (64, Syscall::Write),
        (80, Syscall::FStat),
        (93, Syscall::Exit),
        (124, Syscall::Yield),
        (140, Syscall::SetPriority),
        (169, Syscall::GetTimeOfDay),
        (172, Syscall::GetPid),
        (215, Syscall::Munmap),
        (220, Syscall::Fork),
        (221, Syscall::Exec),
        (222, Syscall::Mmap),
        (260, Syscall::WaitPid),
        (400, Syscall::Spawn),
        (410, Syscall::TaskInfo),
    ];
    for n in 0..600u64 {
        match known.iter().find(|(k, _)| *k == n) {
            Some((_, call)) => assert_eq!(Syscall::from(n), Ok(*call)),
            None => assert_eq!(Syscall::from(n), Err(())),
        }
    }
    assert_eq!(Syscall::from(u64::MAX), Err(()));
}

#[test]
fn registers_are_read_with_sign() {
    assert_eq!(as_signed(0), 0);
    assert_eq!(as_signed(u64::MAX), -1);
    assert_eq!(as_signed(1 << 63), i64::MIN);
    assert_eq!(as_signed((1 << 63) - 1), i64::MAX);
    assert_eq!(as_low_signed(7), 7);
    assert_eq!(as_low_signed(0xffff_ffff), -1);
    assert_eq!(as_low_signed(0x1_0000_0002), 2);
    assert_eq!(as_low_signed(0x8000_0000), i32::MIN);
    assert_eq!(as_low_signed(u64::MAX), -1);
    assert_eq!(as_reg(0), 0);
    assert_eq!(as_reg(-1), u64::MAX);
    assert_eq!(as_reg(-2), u64::MAX - 1);
    assert_eq!(as_reg(i64::MIN), 1 << 63);
    assert_eq!(as_reg(i64::MAX), (1 << 63) - 1);
}

#[test]
fn numbers_are_stored_lowest_byte_first() {
    let mut out = vec![0xaa];
    push_le(&mut out, 0x0102_0304_0506_0708, 8);
    push_le(&mut out, 0x1234, 4);
    push_le(&mut out, 0x1234, 1);
    push_le(&mut out, 7, 0);
    assert_eq!(out, vec![0xaa, 8, 7, 6, 5, 4, 3, 2, 1, 0x34, 0x12, 0, 0, 0x34]);
    assert_eq!(i32_le_bytes(7), vec![7, 0, 0, 0]);
    assert_eq!(i32_le_bytes(-1), vec![0xff; 4]);
    assert_eq!(i32_le_bytes(i32::MIN), vec![0, 0, 0, 0x80]);
    assert_eq!(i32_le_bytes(0x0102_0304), vec![4, 3, 2, 1]);
}

fn space() -> (MemorySet, StackFrameAllocator) {
    let mut a = StackFrameAllocator::new(PhysPageNum(0x500), PhysPageNum(0x520));
    let mut ms = MemorySet::new_bare(&mut a).unwrap();
    ms.map_trampoline(PhysPageNum(0x80201));
    ms.insert_framed_area(&mut a, VirtAddr(0x10000), VirtAddr(0x13000), MapPermission { bits: 22 })
        .unwrap();
    (ms, a)
}

#[test]
fn text_is_read_up_to_the_zero_byte() {
    let (mut ms, _a) = space();
    assert_eq!(write_user(&mut ms, 0x10ffd, &b"hello\0x".to_vec()), Ok(()));
    assert_eq!(from_user_cstring(&ms, 0x10ffd), Some("hello".to_string()));
    assert_eq!(from_user_cstring(&ms, 0x11000), Some("lo".to_string()));
    assert_eq!(from_user_cstring(&ms, 0x11002), Some(String::new()));
    assert_eq!(from_user_cstring(&ms, 0x11003), Some("x".to_string()));
    // a byte above 127 is one character
    ms.write_byte(VirtAddr(0x10000), 0xe9);
    assert_eq!(from_user_cstring(&ms, 0x10000), Some("\u{e9}".to_string()));
    // text that runs into memory that is not mapped
    assert_eq!(write_user(&mut ms, 0x12ffe, &b"ab".to_vec()), Ok(()));
    assert_eq!(from_user_cstring(&ms, 0x12ffe), None);
    assert_eq!(from_user_cstring(&ms, 0x13000), None);
    assert_eq!(from_user_cstring(&ms, u64::MAX), None);
    assert_eq!(write_user(&mut ms, 0x12fff, &b"ab".to_vec()), Err(()));
    assert_eq!(ms.read_byte(VirtAddr(0x12fff)), Some(b'b'));
}

#[test]
fn a_buffer_is_split_at_page_boundaries() {
    let (ms, _a) = space();
    let ppn = |i: usize| ms.areas[0].frames[i].ppn;
    assert_eq!(translated_byte_buffer(&ms, 0x10000, 0), Some(vec![]));
    assert_eq!(
        translated_byte_buffer(&ms, 0x10010, 0x20),
        Some(vec![BufferPiece { ppn: ppn(0), start: 0x10, end: 0x30 }])
    );
    assert_eq!(
        translated_byte_buffer(&ms, 0x10ff0, 0x1020),
        Some(vec![
            BufferPiece { ppn: ppn(0), start: 0xff0, end: 0x1000 },
            BufferPiece { ppn: ppn(1), start: 0, end: 0x1000 },
            BufferPiece { ppn: ppn(2), start: 0, end: 0x10 },
        ])
    );
    assert_eq!(
        translated_byte_buffer(&ms, 0x11000, 0x1000),
        Some(vec![BufferPiece { ppn: ppn(1), start: 0, end: 0x1000 }])
    );
    assert_eq!(translated_byte_buffer(&ms, 0x12ff0, 0x11), None);
    assert_eq!(translated_byte_buffer(&ms, 0xf000, 0x1001), None);
    assert_eq!(translated_byte_buffer(&ms, u64::MAX, 2), None);
    // the trampoline page is mapped, though it holds no bytes of the process
    assert_eq!(
        translated_byte_buffer(&ms, TRAMPOLINE + 4, 4),
        Some(vec![BufferPiece { ppn: PhysPageNum(0x80201), start: 4, end: 8 }])
    );
}

#[test]
fn the_default_state_is_uninitialised() {
    assert_eq!(TaskState::default(), TaskState::UnInit);
}
