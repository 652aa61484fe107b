use os_core::kernel::{IdlePolicy, Kernel, Machine};
use os_core::mm::address::VirtAddr;
use os_core::mm::spaces::KernelLayout;
use os_core::syscall::fs::{
    finish_fstat, finish_open, finish_path_op, finish_read, finish_write, sys_close, sys_fstat,
    sys_link_at, sys_open_at, sys_read, sys_unlink_at, sys_write, InodeInfo, IoRequest, Stat,
};
use os_core::syscall::proc::{
    sys_exit, sys_getpid, sys_gettimeofday, sys_taskinfo, sys_yield, TaskInfo, TimeVal,
};
use os_core::syscall::{set_return, syscall_handler, Syscall, SyscallOutcome};
use os_core::task::schedule::{add_task, run_next_task, Dispatch};
use os_core::task::task::{OpenFile, Task, TaskState};
use os_core::trap::handler::{trap_handler, TrapOutcome};

fn layout() -> KernelLayout {
    KernelLayout {
        stext: 0x8020_0000,
        etext: 0x8020_2000,
        srodata: 0x8020_2000,
        erodata: 0x8020_3000,
        sdata: 0x8020_3000,
        edata: 0x8020_4000,
        sbss_with_stack: 0x8020_4000,
        ebss: 0x8020_6000,
        ekernel: 0x87f0_0000,
        strampoline: 0x8020_1000,
    }
}

fn le(v: u64, n: usize) -> Vec<u8> {
    (0..n).map(|i| (v >> (8 * i)) as u8).collect()
}

fn hello() -> Vec<u8> {
    let text = b"/a/b\0new\0".to_vec();
    let mut out = vec![0u8; 64];
    out[0..4].copy_from_slice(&[0x7f, b'E', b'L', b'F']);
    out[24..32].copy_from_slice(&le(0x10000, 8));
    out[32..40].copy_from_slice(&le(64, 8));
    out[54..56].copy_from_slice(&le(56, 2));
    out[56..58].copy_from_slice(&le(1, 2));
    out.extend(le(1, 4));
    out.extend(le(6, 4));
    out.extend(le(64 + 56, 8));
    out.extend(le(0x10000, 8));
    out.extend(le(0x10000, 8));
    out.extend(le(text.len() as u64, 8));
    out.extend(le(0x3000, 8));
    out.extend(le(0x1000, 8));
    out.extend(text);
    out
}

fn machine() -> Machine {
    Machine { scause: 8, stval: 0, sstatus: 0, time_ms: 1500, time_us: 2_000_123 }
}

fn start() -> Kernel {
    let mut k = Kernel::new(&layout(), 0x8020_0400, 0x8020_1abc, IdlePolicy::Halt).unwrap();
    k.loader.add_app("hello", hello());
    let pid = Task::new(&mut k, "hello", &Machine { time_ms: 1000, ..machine() }).unwrap();
    add_task(&mut k, pid);
    run_next_task(&mut k);
    k
}

fn read(k: &Kernel, addr: u64, len: usize) -> Vec<u8> {
    k.tasks[0].inner.addr_space.read_bytes(VirtAddr(addr), len).unwrap()
}

const STDIN: OpenFile = OpenFile { file: 0, readable: true, writable: false };
const STDOUT: OpenFile = OpenFile { file: 1, readable: false, writable: true };

#[test]
fn task_info_is_stored_in_the_memory_of_the_process() {
    let mut k = start();
    k.tasks[0].inner.syscall_times[0] = 0x0102_0304;
    k.tasks[0].inner.syscall_times[410] = 7;
    k.tasks[0].inner.syscall_times[499] = u32::MAX;
    assert_eq!(sys_taskinfo(&mut k, 1, 0x11000, &machine()), Ok(0));
    let b = read(&k, 0x11000, 2016);
    // running
    assert_eq!(&b[0..4], &[2, 0, 0, 0]);
    assert_eq!(&b[4..8], &[4, 3, 2, 1]);
    assert_eq!(&b[8..12], &[0, 0, 0, 0]);
    assert_eq!(&b[4 + 4 * 410..8 + 4 * 410], &[7, 0, 0, 0]);
    assert_eq!(&b[4 + 4 * 499..8 + 4 * 499], &[0xff; 4]);
    assert_eq!(&b[2004..2008], &[0; 4]);
    // 1500 ms now, made at 1000 ms
    assert_eq!(&b[2008..2016], &le(500, 8)[..]);
    let info = TaskInfo { state: TaskState::Exited, syscall_times: [1; 500], exec_time: 0x0a0b };
    let bytes = info.to_bytes();
    assert_eq!(bytes.len(), 2016);
    assert_eq!(&bytes[0..8], &[3, 0, 0, 0, 1, 0, 0, 0]);
    assert_eq!(&bytes[2008..2010], &[0x0b, 0x0a]);
    // a clock before the start gives 0
    assert_eq!(sys_taskinfo(&mut k, 1, 0x11000, &Machine { time_ms: 10, ..machine() }), Ok(0));
    assert_eq!(&read(&k, 0x11000, 2016)[2008..2016], &[0; 8]);
    // a range that is not mapped whole, and a process that is not live
    assert_eq!(sys_taskinfo(&mut k, 1, 0x13000 - 2015, &machine()), Err(()));
    assert_eq!(sys_taskinfo(&mut k, 1, 0x13000 - 2016, &machine()), Ok(0));
    assert_eq!(sys_taskinfo(&mut k, 2, 0x11000, &machine()), Err(()));
}

#[test]
fn the_time_of_day_is_stored_in_seconds_and_microseconds() {
    let mut k = start();
    assert_eq!(sys_gettimeofday(&mut k, 1, 0x10100, 0, &machine()), Ok(0));
    let b = read(&k, 0x10100, 16);
    assert_eq!(&b[0..8], &le(2, 8)[..]);
    assert_eq!(&b[8..16], &le(123, 8)[..]);
    assert_eq!(TimeVal::from_micros(59_999_999), TimeVal { sec: 59, usec: 999_999 });
    assert_eq!(TimeVal { sec: 1, usec: 2 }.to_bytes(), [le(1, 8), le(2, 8)].concat());
    assert_eq!(sys_gettimeofday(&mut k, 1, 0x13000 - 15, 0, &machine()), Err(()));
    assert_eq!(sys_gettimeofday(&mut k, 3, 0x10100, 0, &machine()), Err(()));
    assert_eq!(sys_getpid(&k, 1), Ok(1));
    assert_eq!(sys_getpid(&k, 3), Err(()));
}

#[test]
fn file_calls_say_what_the_file_layer_is_asked() {
    let k = start();
    match sys_write(&k, 1, 1, 0x10000, 4) {
        Ok(IoRequest::Write { file, data }) => {
            assert_eq!(file, STDOUT);
            assert_eq!(data, b"/a/b".to_vec());
        },
        _ => panic!(),
    }
    // the call does not ask whether the file may be written
    assert!(matches!(sys_write(&k, 1, 0, 0x10000, 0), Ok(IoRequest::Write { file: STDIN, .. })));
    assert!(sys_write(&k, 1, 2, 0x10000, 4).is_err());
    assert!(sys_write(&k, 1, usize::MAX, 0x10000, 4).is_err());
    assert!(sys_write(&k, 1, 1, 0x12ffd, 4).is_err());
    assert!(sys_write(&k, 2, 1, 0x10000, 4).is_err());
    match sys_read(&k, 1, 0, 0x12000, 0x1000) {
        Ok(IoRequest::Read { file, buf, len }) => {
            assert_eq!((file, buf, len), (STDIN, 0x12000, 0x1000));
        },
        _ => panic!(),
    }
    assert!(sys_read(&k, 1, 0, 0x12000, 0x1001).is_err());
    assert!(sys_read(&k, 1, 5, 0x12000, 1).is_err());
    assert!(sys_read(&k, 7, 0, 0x12000, 1).is_err());
    match sys_fstat(&k, 1, 1, 0x11000) {
        Ok(IoRequest::Stat { file, st_user }) => assert_eq!((file, st_user), (STDOUT, 0x11000)),
        _ => panic!(),
    }
    assert!(sys_fstat(&k, 1, 2, 0x11000).is_err());
    assert!(sys_fstat(&k, 1, -1, 0x11000).is_err());
    assert!(sys_fstat(&k, 1, i32::MIN, 0x11000).is_err());
    assert!(sys_fstat(&k, 1, 1, 0x13000 - 79).is_err());
    assert!(sys_fstat(&k, 1, 1, 0x13000 - 80).is_ok());
    match sys_link_at(&k, 1, -100, 0x10000, -100, 0x10005, 0) {
        Ok(IoRequest::Link { old_path, new_path }) => {
            assert_eq!((old_path.as_str(), new_path.as_str()), ("/a/b", "new"));
        },
        _ => panic!(),
    }
    assert!(sys_link_at(&k, 1, -100, 0x13000, -100, 0x10005, 0).is_err());
    assert!(sys_link_at(&k, 1, -100, 0x10000, -100, 0x13000, 0).is_err());
    match sys_unlink_at(&k, 1, -100, 0x10002, 0) {
        Ok(IoRequest::Unlink { path }) => assert_eq!(path, "/b"),
        _ => panic!(),
    }
    assert!(sys_unlink_at(&k, 2, -100, 0x10002, 0).is_err());
    for flags in [0u32, 1, 2, 0x200, 0x400, 0x603, 0x201] {
        match sys_open_at(&k, 1, 0, 0x10005, flags, 0) {
            Ok(IoRequest::Open { path, flags: f }) => {
                assert_eq!(path, "new");
                assert_eq!(f, flags);
            },
            _ => panic!(),
        }
    }
    for flags in [4u32, 8, 0x100, 0x800, 0x604, u32::MAX] {
        assert!(sys_open_at(&k, 1, 0, 0x10005, flags, 0).is_err());
    }
    assert!(sys_open_at(&k, 1, 0, 0x13000, 0, 0).is_err());
}

#[test]
fn the_answers_of_the_file_layer_are_taken() {
    let mut k = start();
    assert_eq!(finish_write(5), Ok(5));
    assert_eq!(finish_write(0), Ok(0));
    assert_eq!(finish_write(usize::MAX), Err(()));
    assert_eq!(finish_path_op(true), Ok(0));
    assert_eq!(finish_path_op(false), Err(()));
    // a read: as many bytes as the buffer holds
    assert_eq!(finish_read(&mut k, 1, 0x12000, 8, &vec![1, 2, 3]), Ok(3));
    assert_eq!(read(&k, 0x12000, 4), vec![1, 2, 3, 0]);
    assert_eq!(finish_read(&mut k, 1, 0x12100, 2, &vec![9, 8, 7]), Ok(2));
    assert_eq!(read(&k, 0x12100, 3), vec![9, 8, 0]);
    assert_eq!(finish_read(&mut k, 1, 0x12200, 8, &vec![]), Ok(0));
    assert_eq!(finish_read(&mut k, 1, 0x12fff, 8, &vec![1, 2]), Err(()));
    assert_eq!(read(&k, 0x12fff, 1), vec![0]);
    assert_eq!(finish_read(&mut k, 4, 0x12000, 8, &vec![1]), Err(()));
    // a stat record
    let inode = InodeInfo { inode_id: 0x0102, is_dir: false, link_cnt: 3 };
    assert_eq!(finish_fstat(&mut k, 1, 0x11000, Some(inode)), Ok(0));
    let b = read(&k, 0x11000, 80);
    assert_eq!(&b[0..8], &[0; 8]);
    assert_eq!(&b[8..16], &le(0x0102, 8)[..]);
    assert_eq!(&b[16..20], &le(0o100000, 4)[..]);
    assert_eq!(&b[20..24], &le(3, 4)[..]);
    assert_eq!(&b[24..80], &[0; 56]);
    let dir = InodeInfo { inode_id: 0, is_dir: true, link_cnt: 1 };
    assert_eq!(Stat::new(dir).mode.bits, 0o040000);
    assert_eq!(Stat::new(dir).to_bytes().len(), 80);
    assert_eq!(finish_fstat(&mut k, 1, 0x11100, Some(dir)), Ok(0));
    assert_eq!(&read(&k, 0x11100, 24)[16..20], &le(0o040000, 4)[..]);
    assert_eq!(finish_fstat(&mut k, 1, 0x11000, None), Err(()));
    assert_eq!(finish_fstat(&mut k, 1, 0x13000 - 79, Some(inode)), Err(()));
    assert_eq!(finish_fstat(&mut k, 2, 0x11000, Some(inode)), Err(()));
    // open and close
    let f = OpenFile { file: 9, readable: true, writable: true };
    assert_eq!(finish_open(&mut k, 1, Some(f)), Ok(2));
    assert_eq!(finish_open(&mut k, 1, Some(f)), Ok(3));
    assert_eq!(finish_open(&mut k, 1, None), Err(()));
    assert_eq!(finish_open(&mut k, 2, Some(f)), Err(()));
    assert_eq!(k.tasks[0].inner.fd_table, vec![Some(STDIN), Some(STDOUT), Some(f), Some(f)]);
    assert_eq!(sys_close(&mut k, 1, 4), Err(()));
    assert_eq!(sys_close(&mut k, 2, 0), Err(()));
    assert_eq!(k.tasks[0].inner.fd_table.len(), 4);
    // the slot leaves the table and the slots after it move down
    assert_eq!(sys_close(&mut k, 1, 1), Ok(0));
    assert_eq!(k.tasks[0].inner.fd_table, vec![Some(STDIN), Some(f), Some(f)]);
    k.tasks[0].inner.fd_table[0] = None;
    assert_eq!(sys_close(&mut k, 1, 0), Err(()));
    assert_eq!(k.tasks[0].inner.fd_table, vec![Some(f), Some(f)]);
}

#[test]
fn a_refused_file_call_puts_minus_one_in_the_return_register() {
    let mut k = start();
    let cx = &mut k.tasks[0].inner.trap_cx;
    cx.x[17] = 63;
    cx.x[10] = 7;
    cx.x[11] = 0x12000;
    cx.x[12] = 4;
    match syscall_handler(&mut k, 1, &machine()) {
        SyscallOutcome::Done(res) => assert_eq!(res, Err(())),
        _ => panic!(),
    }
    assert_eq!(k.tasks[0].inner.trap_cx.x[10], u64::MAX);
    assert_eq!(k.tasks[0].inner.syscall_times[63], 1);
    // link: the new name comes from argument register 3
    let cx = &mut k.tasks[0].inner.trap_cx;
    cx.x[17] = 37;
    cx.x[11] = 0x10000;
    cx.x[13] = 0x10005;
    match trap_handler(&mut k, &machine()) {
        TrapOutcome::Io { task, request: IoRequest::Link { old_path, new_path } } => {
            assert_eq!(task, 1);
            assert_eq!((old_path.as_str(), new_path.as_str()), ("/a/b", "new"));
        },
        _ => panic!(),
    }
    // open: the flags are the low half of the third argument
    match Syscall::OpenAt.handle(&mut k, 1, 0, 0x10005, 0xff_0000_0201, &machine()) {
        SyscallOutcome::Io(IoRequest::Open { path, flags }) => {
            assert_eq!(path, "new");
            assert_eq!(flags, 0x201);
        },
        _ => panic!(),
    }
    match Syscall::Close.handle(&mut k, 1, 1, 0, 0, &machine()) {
        SyscallOutcome::Done(res) => assert_eq!(res, Ok(0)),
        _ => panic!(),
    }
    assert_eq!(k.tasks[0].inner.trap_cx.x[10], 0);
    assert_eq!(k.tasks[0].inner.fd_table.len(), 1);
    match Syscall::FStat.handle(&mut k, 1, 0xffff_ffff, 0x11000, 0, &machine()) {
        SyscallOutcome::Done(res) => assert_eq!(res, Err(())),
        _ => panic!(),
    }
    set_return(&mut k, 1, Ok(-5));
    assert_eq!(k.tasks[0].inner.trap_cx.x[10], (-5i64) as u64);
    set_return(&mut k, 1, Err(()));
    assert_eq!(k.tasks[0].inner.trap_cx.x[10], u64::MAX);
    set_return(&mut k, 2, Ok(1));
    assert_eq!(k.tasks[0].inner.trap_cx.x[10], u64::MAX);
}

#[test]
fn a_call_counter_stops_at_the_largest_number() {
    let mut k = start();
    k.tasks[0].inner.syscall_times[172] = u32::MAX - 1;
    for _ in 0..3 {
        k.tasks[0].inner.trap_cx.x[17] = 172;
        syscall_handler(&mut k, 1, &machine());
    }
    assert_eq!(k.tasks[0].inner.syscall_times[172], u32::MAX);
    assert!(matches!(
        syscall_handler(&mut k, 9, &machine()),
        SyscallOutcome::Switched(Dispatch::NoSuchTask)
    ));
}

#[test]
fn exit_and_yield_of_a_process_that_is_not_live_do_nothing() {
    let mut k = start();
    assert_eq!(sys_exit(&mut k, 5, 1), Dispatch::NoSuchTask);
    assert_eq!(sys_yield(&mut k, 5), Dispatch::NoSuchTask);
    assert_eq!(k.tasks[0].inner.state, TaskState::Running);
    assert_eq!(k.tasks.len(), 1);
}

#[test]
fn the_resume_address_wraps_at_the_end_of_the_address_space() {
    let mut k = start();
    k.tasks[0].inner.trap_cx.sepc = u64::MAX - 1;
    k.tasks[0].inner.trap_cx.x[17] = 172;
    trap_handler(&mut k, &machine());
    assert_eq!(k.tasks[0].inner.trap_cx.sepc, 2);
    assert_eq!(k.tasks[0].inner.trap_cx.x[10], 1);
}
