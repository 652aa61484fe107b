use os_core::config::{PAGE_SIZE, TRAMPOLINE, TRAMPOLINE_VPN, TRAP_CONTEXT};
use os_core::mm::address::{PhysAddr, PhysPageNum, VirtAddr, VirtPageNum};
use os_core::mm::frame_allocator::{frame_alloc, frame_dealloc, StackFrameAllocator};
use os_core::mm::memory_set::{MapPermission, MapType, MemorySet, MAP_R, MAP_U, MAP_W, MAP_X};
use os_core::mm::page_table::{PTEFlags, PageTable, PageTableEntry, PTE_R, PTE_V, PTE_W, PTE_X};

fn pool(n: u64) -> StackFrameAllocator {
    StackFrameAllocator::new(PhysPageNum(0x1000), PhysPageNum(0x1000 + n))
}

#[test]
fn address_rounding() {
    assert_eq!(VirtAddr(0x1234).floor(), VirtPageNum(1));
    assert_eq!(VirtAddr(0x1234).ceil(), VirtPageNum(2));
    assert_eq!(VirtAddr(0x2000).floor(), VirtPageNum(2));
    assert_eq!(VirtAddr(0x2000).ceil(), VirtPageNum(2));
    assert_eq!(VirtAddr(0).ceil(), VirtPageNum(0));
    assert_eq!(VirtAddr(0x1234).page_offset(), 0x234);
    assert!(VirtAddr(0x3000).aligned());
    assert!(!VirtAddr(0x3001).aligned());
    assert_eq!(VirtPageNum(3).start(), VirtAddr(0x3000));
    assert_eq!(PhysPageNum(0x80200).start(), PhysAddr(0x8020_0000));
    assert_eq!(PhysAddr(0x8020_0123).floor(), PhysPageNum(0x80200));
    assert_eq!(PhysAddr(0x8020_0123).page_offset(), 0x123);
    assert_eq!(VirtAddr(u64::MAX).floor(), VirtPageNum(TRAMPOLINE_VPN));
    assert_eq!(VirtAddr(u64::MAX).ceil().0, TRAMPOLINE_VPN + 1);
    assert_eq!(TRAMPOLINE / PAGE_SIZE, TRAMPOLINE_VPN);
    assert_eq!(TRAP_CONTEXT + PAGE_SIZE, TRAMPOLINE);
}

#[test]
fn frames_come_lowest_first_and_returned_frames_come_back_first() {
    let mut a = pool(4);
    assert_eq!(a.available(), 4);
    assert_eq!(a.allocate(), Some(PhysPageNum(0x1000)));
    assert_eq!(a.allocate(), Some(PhysPageNum(0x1001)));
    assert_eq!(a.allocate(), Some(PhysPageNum(0x1002)));
    assert!(a.dealloc(PhysPageNum(0x1000)));
    assert!(a.dealloc(PhysPageNum(0x1002)));
    assert_eq!(a.available(), 3);
    assert_eq!(a.allocate(), Some(PhysPageNum(0x1002)));
    assert_eq!(a.allocate(), Some(PhysPageNum(0x1000)));
    assert_eq!(a.allocate(), Some(PhysPageNum(0x1003)));
    assert_eq!(a.allocate(), None);
    assert_eq!(a.available(), 0);
}

#[test]
fn frames_that_are_not_handed_out_are_not_taken_back() {
    let mut a = pool(4);
    assert!(!a.dealloc(PhysPageNum(0x1000)));
    let p = a.allocate().unwrap();
    assert!(!a.dealloc(PhysPageNum(0x0fff)));
    assert!(!a.dealloc(PhysPageNum(0x1001)));
    assert!(a.dealloc(p));
    assert!(!a.dealloc(p));
    assert_eq!(a.available(), 4);
    assert_eq!(a.recycled, vec![0x1000]);
}

#[test]
fn an_allocator_with_end_below_start_is_empty() {
    let mut a = StackFrameAllocator::new(PhysPageNum(10), PhysPageNum(5));
    assert_eq!(a.available(), 0);
    assert_eq!(a.allocate(), None);
    let b = StackFrameAllocator::new(PhysPageNum(u64::MAX), PhysPageNum(u64::MAX));
    assert_eq!(b.start, 1 << 44);
    assert_eq!(b.end, 1 << 44);
}

#[test]
fn a_fresh_frame_is_zeroed() {
    let mut a = pool(2);
    let mut f = frame_alloc(&mut a).unwrap();
    assert_eq!(f.ppn, PhysPageNum(0x1000));
    assert_eq!(f.bytes.len(), 4096);
    assert!(f.bytes.iter().all(|b| *b == 0));
    f.bytes[7] = 9;
    assert!(frame_dealloc(&mut a, f));
    let g = frame_alloc(&mut a).unwrap();
    assert_eq!(g.ppn, PhysPageNum(0x1000));
    assert!(g.bytes.iter().all(|b| *b == 0));
}

#[test]
fn page_table_entry_packs_frame_and_flags() {
    let pte = PageTableEntry::new(PhysPageNum(0x12345), PTEFlags { bits: PTE_V | PTE_R | PTE_W });
    assert_eq!(pte.bits, (0x12345 << 10) | 7);
    assert_eq!(pte.ppn(), PhysPageNum(0x12345));
    assert_eq!(pte.flags(), PTEFlags { bits: 7 });
    assert!(pte.is_valid());
    assert!(pte.readable());
    assert!(pte.writable());
    assert!(!pte.executable());
    assert!(!PageTableEntry::empty().is_valid());
    let top = PageTableEntry::new(PhysPageNum(0xfff_ffff_ffff), PTEFlags { bits: PTE_X });
    assert_eq!(top.ppn(), PhysPageNum(0xfff_ffff_ffff));
    assert_eq!(top.flags().bits, PTE_X);
    assert!(PTEFlags { bits: 6 }.contains(PTE_R));
    assert!(!PTEFlags { bits: 6 }.contains(PTE_X));
    assert_eq!(PTEFlags { bits: 6 }.with(PTE_V).bits, 7);
}

#[test]
fn page_table_maps_translates_and_unmaps() {
    let mut pt = PageTable::new(PhysPageNum(0x80000));
    assert_eq!(pt.token(), 0x8000_0000_0008_0000);
    assert_eq!(pt.translate(VirtPageNum(5)), None);
    pt.map(VirtPageNum(5), PhysPageNum(0x77), PTEFlags { bits: PTE_R });
    let pte = pt.translate(VirtPageNum(5)).unwrap();
    assert_eq!(pte.ppn(), PhysPageNum(0x77));
    assert_eq!(pte.flags().bits, PTE_R | PTE_V);
    assert_eq!(pt.translate(VirtPageNum(6)), None);
    pt.unmap(VirtPageNum(5));
    assert_eq!(pt.translate(VirtPageNum(5)), None);
}

fn bare(a: &mut StackFrameAllocator) -> MemorySet {
    MemorySet::new_bare(a).unwrap()
}

#[test]
fn every_page_of_an_inserted_range_translates_and_no_other() {
    let mut a = pool(16);
    let mut ms = bare(&mut a);
    let perm = MapPermission { bits: MAP_R | MAP_W | MAP_U };
    assert_eq!(ms.insert_framed_area(&mut a, VirtAddr(0x10000), VirtAddr(0x12001), perm), Ok(()));
    assert_eq!(ms.areas.len(), 1);
    assert_eq!(ms.areas[0].start_vpn, 0x10);
    assert_eq!(ms.areas[0].end_vpn, 0x13);
    assert_eq!(ms.areas[0].map_type, MapType::Framed);
    for vpn in 0x10..0x13u64 {
        let pte = ms.translate(VirtPageNum(vpn)).unwrap();
        assert!(pte.is_valid());
        assert_eq!(pte.flags().bits, MAP_R | MAP_W | MAP_U | PTE_V);
        assert_eq!(pte.ppn(), ms.areas[0].frames[(vpn - 0x10) as usize].ppn);
    }
    assert_eq!(ms.translate(VirtPageNum(0xf)), None);
    assert_eq!(ms.translate(VirtPageNum(0x13)), None);
    assert_eq!(ms.translate(VirtPageNum(0)), None);
    assert_eq!(ms.translate(VirtPageNum(TRAMPOLINE_VPN)), None);
    // the root frame and three data frames, lowest first
    assert_eq!(ms.page_table.root_ppn, PhysPageNum(0x1000));
    let ppns: Vec<u64> = ms.areas[0].frames.iter().map(|f| f.ppn.0).collect();
    assert_eq!(ppns, vec![0x1001, 0x1002, 0x1003]);
    assert_eq!(a.available(), 12);
}

#[test]
fn an_insert_that_cannot_be_done_changes_nothing() {
    let mut a = pool(6);
    let mut ms = bare(&mut a);
    let perm = MapPermission { bits: MAP_R | MAP_U };
    assert_eq!(ms.insert_framed_area(&mut a, VirtAddr(0x10000), VirtAddr(0x12000), perm), Ok(()));
    let free = a.available();
    // start not on a page boundary
    assert_eq!(ms.insert_framed_area(&mut a, VirtAddr(0x20001), VirtAddr(0x21000), perm), Err(()));
    // overlap with the area, on either side and inside
    assert_eq!(ms.insert_framed_area(&mut a, VirtAddr(0x11000), VirtAddr(0x13000), perm), Err(()));
    assert_eq!(ms.insert_framed_area(&mut a, VirtAddr(0xf000), VirtAddr(0x10001), perm), Err(()));
    // range that runs backwards
    assert_eq!(ms.insert_framed_area(&mut a, VirtAddr(0x30000), VirtAddr(0x2f000), perm), Err(()));
    // too few frames: three are left, four are asked for
    assert_eq!(ms.insert_framed_area(&mut a, VirtAddr(0x40000), VirtAddr(0x44000), perm), Err(()));
    // into the trampoline page
    assert_eq!(
        ms.insert_framed_area(&mut a, VirtAddr(TRAMPOLINE), VirtAddr(u64::MAX), perm),
        Err(())
    );
    assert_eq!(a.available(), free);
    assert_eq!(ms.areas.len(), 1);
    assert_eq!(ms.translate(VirtPageNum(0x40)), None);
    // a neighbour that touches but does not overlap is fine
    assert_eq!(ms.insert_framed_area(&mut a, VirtAddr(0x12000), VirtAddr(0x13000), perm), Ok(()));
    assert_eq!(ms.insert_framed_area(&mut a, VirtAddr(0xf000), VirtAddr(0x10000), perm), Ok(()));
    assert_eq!(a.available(), free - 2);
}

#[test]
fn removing_an_area_gives_its_frames_back() {
    let mut a = pool(8);
    let mut ms = bare(&mut a);
    let perm = MapPermission { bits: MAP_R | MAP_W };
    ms.insert_framed_area(&mut a, VirtAddr(0x10000), VirtAddr(0x12000), perm).unwrap();
    ms.insert_framed_area(&mut a, VirtAddr(0x20000), VirtAddr(0x21000), perm).unwrap();
    assert_eq!(a.available(), 4);
    assert_eq!(ms.remove_area_with_start_vpn(&mut a, VirtPageNum(0x11)), Err(()));
    assert_eq!(ms.remove_area_with_start_vpn(&mut a, VirtPageNum(0x10)), Ok(()));
    assert_eq!(a.available(), 6);
    assert_eq!(ms.translate(VirtPageNum(0x10)), None);
    assert_eq!(ms.translate(VirtPageNum(0x11)), None);
    assert!(ms.translate(VirtPageNum(0x20)).is_some());
    assert_eq!(ms.areas.len(), 1);
    assert_eq!(ms.areas[0].start_vpn, 0x20);
    assert_eq!(ms.remove_area_with_start_vpn(&mut a, VirtPageNum(0x10)), Err(()));
}

#[test]
fn only_the_exact_range_that_was_inserted_can_be_unmapped() {
    let mut a = pool(8);
    let mut ms = bare(&mut a);
    let perm = MapPermission { bits: MAP_R | MAP_W | MAP_U };
    ms.insert_framed_area(&mut a, VirtAddr(0x10000), VirtAddr(0x13000), perm).unwrap();
    let free = a.available();
    // a part of the range
    assert_eq!(ms.unmap_area(&mut a, VirtAddr(0x10000), VirtAddr(0x12000)), Err(()));
    assert_eq!(ms.unmap_area(&mut a, VirtAddr(0x11000), VirtAddr(0x13000)), Err(()));
    // a range that was never mapped
    assert_eq!(ms.unmap_area(&mut a, VirtAddr(0x50000), VirtAddr(0x51000)), Err(()));
    assert_eq!(a.available(), free);
    assert!(ms.translate(VirtPageNum(0x12)).is_some());
    assert_eq!(ms.unmap_area(&mut a, VirtAddr(0x10000), VirtAddr(0x13000)), Ok(()));
    assert_eq!(a.available(), free + 3);
    assert_eq!(ms.translate(VirtPageNum(0x10)), None);
    assert_eq!(ms.unmap_area(&mut a, VirtAddr(0x10000), VirtAddr(0x13000)), Err(()));
}

#[test]
fn bytes_written_are_read_back_across_pages() {
    let mut a = pool(8);
    let mut ms = bare(&mut a);
    let perm = MapPermission { bits: MAP_R | MAP_W | MAP_U };
    ms.insert_framed_area(&mut a, VirtAddr(0x10000), VirtAddr(0x12000), perm).unwrap();
    assert_eq!(ms.read_byte(VirtAddr(0x10000)), Some(0));
    assert_eq!(ms.read_byte(VirtAddr(0x12000)), None);
    assert!(ms.write_byte(VirtAddr(0x11fff), 0xab));
    assert!(!ms.write_byte(VirtAddr(0x12000), 0xab));
    assert_eq!(ms.read_byte(VirtAddr(0x11fff)), Some(0xab));
    let data: Vec<u8> = (0..100u8).collect();
    assert!(ms.write_bytes(VirtAddr(0x10fd0), &data));
    assert_eq!(ms.read_bytes(VirtAddr(0x10fd0), 100), Some(data.clone()));
    assert_eq!(ms.read_byte(VirtAddr(0x10fff)), Some(47));
    assert_eq!(ms.read_byte(VirtAddr(0x11000)), Some(48));
    assert_eq!(ms.areas[0].frames[0].bytes[0xfd0], 0);
    assert_eq!(ms.areas[0].frames[0].bytes[0xfff], 47);
    assert_eq!(ms.areas[0].frames[1].bytes[0], 48);
    // a range that leaves the area is refused as a whole
    assert!(!ms.write_bytes(VirtAddr(0x11fd0), &data));
    assert_eq!(ms.read_byte(VirtAddr(0x11fd0)), Some(0));
    assert_eq!(ms.read_bytes(VirtAddr(0x11fd0), 100), None);
    assert!(ms.check_range(VirtAddr(0x10000), 0x2000));
    assert!(!ms.check_range(VirtAddr(0x10000), 0x2001));
    assert!(ms.check_range(VirtAddr(0x50000), 0));
    assert!(!ms.check_range(VirtAddr(u64::MAX), 2));
    assert_eq!(ms.read_bytes(VirtAddr(0x10000), 0), Some(vec![]));
}

#[test]
fn identical_areas_map_each_page_to_the_frame_of_its_number() {
    let mut a = pool(2);
    let mut ms = bare(&mut a);
    let perm = MapPermission { bits: MAP_R | MAP_X };
    assert_eq!(ms.push_identical(VirtAddr(0x80200123), VirtAddr(0x80202001), perm), Ok(()));
    assert_eq!(ms.areas[0].start_vpn, 0x80200);
    assert_eq!(ms.areas[0].end_vpn, 0x80203);
    assert_eq!(a.available(), 1);
    for vpn in 0x80200..0x80203u64 {
        let pte = ms.translate(VirtPageNum(vpn)).unwrap();
        assert_eq!(pte.ppn(), PhysPageNum(vpn));
        assert_eq!(pte.flags().bits, MAP_R | MAP_X | PTE_V);
    }
    assert_eq!(ms.read_byte(VirtAddr(0x80200123)), None);
    assert!(!ms.write_byte(VirtAddr(0x80200123), 1));
    assert_eq!(ms.push_identical(VirtAddr(0x80202000), VirtAddr(0x80204000), perm), Err(()));
    assert_eq!(ms.push_identical(VirtAddr(1 << 60), VirtAddr((1 << 60) + 1), perm), Err(()));
}

#[test]
fn trampoline_is_mapped_readable_and_executable() {
    let mut a = pool(2);
    let mut ms = bare(&mut a);
    ms.map_trampoline(PhysPageNum(0x80201));
    let pte = ms.translate(VirtPageNum(TRAMPOLINE_VPN)).unwrap();
    assert_eq!(pte.ppn(), PhysPageNum(0x80201));
    assert!(pte.is_valid() && pte.readable() && pte.executable() && !pte.writable());
    assert_eq!(ms.token(), 0x8000_0000_0000_1000);
}

#[test]
fn recycling_gives_every_frame_back() {
    let mut a = pool(8);
    let mut ms = bare(&mut a);
    let perm = MapPermission { bits: MAP_R };
    ms.insert_framed_area(&mut a, VirtAddr(0x10000), VirtAddr(0x12000), perm).unwrap();
    ms.insert_framed_area(&mut a, VirtAddr(0x20000), VirtAddr(0x23000), perm).unwrap();
    assert_eq!(a.available(), 2);
    ms.recycle(&mut a);
    assert_eq!(a.available(), 8);
}

#[test]
fn a_copy_holds_the_same_bytes_in_frames_of_its_own() {
    let mut a = pool(16);
    let mut parent = bare(&mut a);
    parent.map_trampoline(PhysPageNum(0x80201));
    let perm = MapPermission { bits: MAP_R | MAP_W | MAP_U };
    parent.insert_framed_area(&mut a, VirtAddr(0x10000), VirtAddr(0x12000), perm).unwrap();
    parent
        .insert_framed_area(&mut a, VirtAddr(0x30000), VirtAddr(0x31000), MapPermission { bits: MAP_R | MAP_U })
        .unwrap();
    let data: Vec<u8> = (0..=255u8).cycle().take(5000).collect();
    assert!(parent.write_bytes(VirtAddr(0x10100), &data));
    assert!(parent.write_byte(VirtAddr(0x30fff), 0x5a));
    let free = a.available();
    let mut child = MemorySet::from_existed_user(&parent, &mut a).unwrap();
    assert_eq!(a.available(), free - 4);
    assert_eq!(child.trampoline, parent.trampoline);
    assert_eq!(child.areas.len(), 2);
    for i in 0..2 {
        assert_eq!(child.areas[i].start_vpn, parent.areas[i].start_vpn);
        assert_eq!(child.areas[i].end_vpn, parent.areas[i].end_vpn);
        assert_eq!(child.areas[i].map_perm, parent.areas[i].map_perm);
        for k in 0..child.areas[i].frames.len() {
            assert_eq!(child.areas[i].frames[k].bytes, parent.areas[i].frames[k].bytes);
            for other in parent.areas.iter() {
                for f in other.frames.iter() {
                    assert_ne!(child.areas[i].frames[k].ppn, f.ppn);
                }
            }
        }
    }
    assert_ne!(child.page_table.root_ppn, parent.page_table.root_ppn);
    assert_eq!(child.read_bytes(VirtAddr(0x10100), 5000), Some(data.clone()));
    assert_eq!(child.read_byte(VirtAddr(0x30fff)), Some(0x5a));
    assert_eq!(
        child.translate(VirtPageNum(0x30)).unwrap().flags().bits,
        MAP_R | MAP_U | PTE_V
    );
    // a write on one side is not seen on the other
    assert!(child.write_byte(VirtAddr(0x10100), 0xee));
    assert!(parent.write_byte(VirtAddr(0x10101), 0xdd));
    assert_eq!(parent.read_byte(VirtAddr(0x10100)), Some(0));
    assert_eq!(child.read_byte(VirtAddr(0x10100)), Some(0xee));
    assert_eq!(child.read_byte(VirtAddr(0x10101)), Some(1));
    assert_eq!(parent.read_byte(VirtAddr(0x10101)), Some(0xdd));
    // too few frames: nothing is taken
    let mut small = pool(3);
    assert!(MemorySet::from_existed_user(&parent, &mut small).is_none());
    assert_eq!(small.available(), 3);
    let mut exact = pool(4);
    assert!(MemorySet::from_existed_user(&parent, &mut exact).is_some());
    assert_eq!(exact.available(), 0);
}
