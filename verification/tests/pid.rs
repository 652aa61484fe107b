use os_core::task::pid::{alloc_pid, PidAllocator, PidHandle};

#[test]
fn pids_start_at_one_and_rise() {
    let mut a = PidAllocator::new();
    assert!(!a.exhausted());
    let first = alloc_pid(&mut a);
    let second = alloc_pid(&mut a);
    let third = a.allocate();
    assert_eq!(first.0, 1);
    assert_eq!(second.0, 2);
    assert_eq!(third.0, 3);
    assert!(first < second);
    assert_eq!(first, PidHandle(1));
    assert_eq!(a.dealloc().0, 0);
    assert_eq!(a.current, 3);
    assert_eq!(alloc_pid(&mut a).0, 4);
}

#[test]
fn the_allocator_knows_when_it_is_exhausted() {
    let mut a = PidAllocator { current: usize::MAX - 1 };
    assert!(!a.exhausted());
    assert_eq!(a.allocate().0, usize::MAX);
    assert!(a.exhausted());
}
