use os_core::config::{BIG_STRIDE, TRAMPOLINE, TRAP_CONTEXT, TRAP_CONTEXT_VPN};
use os_core::kernel::{IdlePolicy, Kernel, Machine};
use os_core::mm::address::{VirtAddr, VirtPageNum};
use os_core::mm::spaces::KernelLayout;
use os_core::syscall::fs::IoRequest;
use os_core::task::kernel_stack::kernel_stack_position;
use os_core::task::schedule::{
    add_initproc, add_task, fetch_ready_task, pop_cur_task, run_next_task, run_task, switch_task,
    weak_cur_task, Dispatch,
};
use os_core::task::task::{OpenFile, Task, TaskState};
use os_core::trap::handler::{finish_syscall, trap_handler, TrapOutcome};
use os_core::trap::restore::restore;
use os_core::{run_target_task, run_usertest};

const SYS_YIELD: u64 = 124;
const SYS_EXIT: u64 = 93;
const SYS_FORK: u64 = 220;
const SYS_WAITPID: u64 = 260;
const SYS_GETPID: u64 = 172;
const SYS_SET_PRIORITY: u64 = 140;
const SYS_MMAP: u64 = 222;
const SYS_MUNMAP: u64 = 215;
const SYS_EXEC: u64 = 221;
const SYS_SPAWN: u64 = 400;
const SYS_WRITE: u64 = 64;
const TIMER: u64 = (1 << 63) | 5;
const ECALL: u64 = 8;

fn layout() -> KernelLayout {
    KernelLayout {
        stext: 0x8020_0000,
        etext: 0x8020_2000,
        srodata: 0x8020_2000,
        erodata: 0x8020_3000,
        sdata: 0x8020_3000,
        edata: 0x8020_4000,
        sbss_with_stack: 0x8020_4000,
        ebss: 0x8020_6000,
        ekernel: 0x87f0_0000,
        strampoline: 0x8020_1000,
    }
}

fn le(v: u64, n: usize) -> Vec<u8> {
    (0..n).map(|i| (v >> (8 * i)) as u8).collect()
}

/// A 64-bit ELF image with the given loadable segments: address, flags
/// (1 execute, 2 write, 4 read), bytes in the file, size in memory.
fn elf(entry: u64, segs: &[(u64, u32, Vec<u8>, u64)]) -> Vec<u8> {
    let mut out = vec![0u8; 64];
    out[0..4].copy_from_slice(&[0x7f, b'E', b'L', b'F']);
    out[24..32].copy_from_slice(&le(entry, 8));
    out[32..40].copy_from_slice(&le(64, 8));
    out[54..56].copy_from_slice(&le(56, 2));
    out[56..58].copy_from_slice(&le(segs.len() as u64, 2));
    let mut offset = 64 + 56 * segs.len() as u64;
    let mut data: Vec<u8> = Vec::new();
    for (vaddr, flags, bytes, memsz) in segs {
        out.extend(le(1, 4));
        out.extend(le(*flags as u64, 4));
        out.extend(le(offset, 8));
        out.extend(le(*vaddr, 8));
        out.extend(le(*vaddr, 8));
        out.extend(le(bytes.len() as u64, 8));
        out.extend(le(*memsz, 8));
        out.extend(le(0x1000, 8));
        offset += bytes.len() as u64;
        data.extend(bytes.iter());
    }
    out.extend(data);
    out
}

fn hello() -> Vec<u8> {
    elf(
        0x10000,
        &[
            (0x10000, 5, vec![0x13, 0x00, 0x00, 0x00], 0x1000),
            (0x11000, 6, b"/bin/other\0hello\0".to_vec(), 0x2000),
        ],
    )
}

fn machine(scause: u64) -> Machine {
    Machine { scause, stval: 0, sstatus: 0x122, time_ms: 1500, time_us: 2_000_123 }
}

fn boot(policy: IdlePolicy) -> Kernel {
    let mut k = Kernel::new(&layout(), 0x8020_0400, 0x8020_1abc, policy).unwrap();
    k.loader.add_app("hello", hello());
    k.loader.add_app("ch5_usertest", hello());
    k.loader.add_app("ch5b_initproc", hello());
    k.loader.add_app("other", elf(0x40_0000, &[(0x40_0000, 7, vec![1, 2, 3], 0x3000)]));
    k.loader.add_app("broken", vec![1, 2, 3]);
    k
}

fn task(k: &Kernel, pid: usize) -> &Task {
    k.tasks.iter().find(|t| t.pid.0 == pid).unwrap()
}

fn task_mut(k: &mut Kernel, pid: usize) -> &mut Task {
    k.tasks.iter_mut().find(|t| t.pid.0 == pid).unwrap()
}

/// The running process makes system call `num` with the given arguments.
fn syscall(k: &mut Kernel, num: u64, args: [u64; 3]) -> TrapOutcome {
    let cur = k.processor.cur_task.unwrap();
    let cx = &mut task_mut(k, cur).inner.trap_cx;
    cx.x[17] = num;
    cx.x[10] = args[0];
    cx.x[11] = args[1];
    cx.x[12] = args[2];
    trap_handler(k, &machine(ECALL))
}

fn a0(k: &Kernel, pid: usize) -> i64 {
    task(k, pid).inner.trap_cx.x[10] as i64
}

fn next_pid(out: &TrapOutcome) -> usize {
    match out {
        TrapOutcome::Next { dispatch: Dispatch::Run(entry), .. } => entry.pid,
        _ => panic!("no process was dispatched"),
    }
}

/// Lets processes yield until `pid` is the running process.
fn run_until(k: &mut Kernel, pid: usize) {
    for _ in 0..1000 {
        if k.processor.cur_task == Some(pid) {
            return;
        }
        syscall(k, SYS_YIELD, [0, 0, 0]);
    }
    panic!("process {} never ran", pid);
}

fn start(policy: IdlePolicy) -> Kernel {
    let mut k = boot(policy);
    let pid = Task::new(&mut k, "hello", &machine(0)).unwrap();
    assert!(add_task(&mut k, pid));
    match run_next_task(&mut k) {
        Dispatch::Run(entry) => assert_eq!(entry.pid, pid),
        _ => panic!("the first process did not start"),
    }
    k
}

#[test]
fn boot_builds_the_kernel_address_space() {
    let k = boot(IdlePolicy::Halt);
    assert_eq!(k.frames.start, 0x87f00);
    assert_eq!(k.frames.end, 0x88000);
    assert_eq!(k.frames.available(), 0x100 - 1);
    assert_eq!(k.kernel_space.page_table.root_ppn.0, 0x87f00);
    assert_eq!(k.kernel_space.areas.len(), 6);
    assert_eq!(k.trampoline.0, 0x80201);
    let text = k.kernel_space.translate(VirtPageNum(0x80200)).unwrap();
    assert_eq!(text.ppn().0, 0x80200);
    assert!(text.readable() && text.executable() && !text.writable());
    let rodata = k.kernel_space.translate(VirtPageNum(0x80202)).unwrap();
    assert!(rodata.readable() && !rodata.executable() && !rodata.writable());
    let data = k.kernel_space.translate(VirtPageNum(0x80203)).unwrap();
    assert!(data.readable() && data.writable() && !data.executable());
    let mem = k.kernel_space.translate(VirtPageNum(0x87fff)).unwrap();
    assert_eq!(mem.ppn().0, 0x87fff);
    assert!(mem.readable() && mem.writable());
    assert!(k.kernel_space.translate(VirtPageNum(0x88000)).is_none());
    let mmio = k.kernel_space.translate(VirtPageNum(0x10001)).unwrap();
    assert_eq!(mmio.ppn().0, 0x10001);
    let tramp = k.kernel_space.translate(VirtPageNum(TRAMPOLINE / 4096)).unwrap();
    assert_eq!(tramp.ppn().0, 0x80201);
    assert!(tramp.executable());
    assert!(k.tasks.is_empty());
    assert_eq!(k.processor.cur_task, None);
}

#[test]
fn boot_fails_where_the_kernel_image_overlaps_itself() {
    let mut l = layout();
    l.srodata = 0x8020_1000;
    assert!(Kernel::new(&l, 0, 0, IdlePolicy::Halt).is_none());
    let mut l = layout();
    l.ekernel = 0x8800_0000;
    assert!(Kernel::new(&l, 0, 0, IdlePolicy::Halt).is_none());
}

#[test]
fn a_new_process_is_ready_to_enter_its_program() {
    let mut k = boot(IdlePolicy::Halt);
    let free = k.frames.available();
    let pid = Task::new(&mut k, "hello", &machine(0)).unwrap();
    assert_eq!(pid, 1);
    assert_eq!(k.pids.current, 1);
    let t = task(&k, 1);
    assert_eq!(t.start_time_ms, 1500);
    assert_eq!(t.inner.name, "hello");
    assert_eq!(t.inner.state, TaskState::Ready);
    assert_eq!(t.inner.priority, 16);
    assert_eq!(t.inner.pass, 0);
    assert_eq!(t.inner.exit_code, 0);
    assert!(t.inner.children.is_empty());
    assert_eq!(
        t.inner.fd_table,
        vec![
            Some(OpenFile { file: 0, readable: true, writable: false }),
            Some(OpenFile { file: 1, readable: false, writable: true }),
        ]
    );
    assert!(t.inner.syscall_times.iter().all(|n| *n == 0));
    // registers
    let cx = &t.inner.trap_cx;
    assert_eq!(cx.sepc, 0x10000);
    assert_eq!(cx.x[2], 0x28000);
    for r in 0..32 {
        if r != 2 {
            assert_eq!(cx.x[r], 0);
        }
    }
    assert_eq!(cx.sstatus, 0x22);
    assert_eq!(cx.kernel_satp, k.kernel_space.token());
    assert_eq!(cx.kernel_sp, 0xffff_ffff_fffe_f000);
    assert_eq!(cx.trap_handler, 0x8020_0400);
    // address space: two segments, the stack above a guard page, the trap context
    let ms = &t.inner.addr_space;
    assert_eq!(ms.areas.len(), 4);
    assert_eq!((ms.areas[0].start_vpn, ms.areas[0].end_vpn), (0x10, 0x11));
    assert_eq!(ms.areas[0].map_perm.bits, 16 + 2 + 8);
    assert_eq!((ms.areas[1].start_vpn, ms.areas[1].end_vpn), (0x11, 0x13));
    assert_eq!(ms.areas[1].map_perm.bits, 16 + 2 + 4);
    assert_eq!((ms.areas[2].start_vpn, ms.areas[2].end_vpn), (0x14, 0x28));
    assert_eq!(ms.areas[2].map_perm.bits, 16 + 2 + 4);
    assert_eq!((ms.areas[3].start_vpn, ms.areas[3].end_vpn), (TRAP_CONTEXT_VPN, TRAP_CONTEXT_VPN + 1));
    assert_eq!(ms.areas[3].map_perm.bits, 2 + 4);
    assert!(ms.translate(VirtPageNum(0x13)).is_none());
    assert_eq!(ms.read_bytes(VirtAddr(0x10000), 5), Some(vec![0x13, 0, 0, 0, 0]));
    assert_eq!(ms.read_bytes(VirtAddr(0x11000), 11), Some(b"/bin/other\0".to_vec()));
    assert_eq!(ms.read_byte(VirtAddr(0x12fff)), Some(0));
    assert_eq!(t.inner.trap_ctx_ppn, ms.translate(VirtPageNum(TRAP_CONTEXT_VPN)).unwrap().ppn());
    assert_eq!(ms.translate(VirtPageNum(TRAMPOLINE / 4096)).unwrap().ppn().0, 0x80201);
    // frames: root, 1 + 2 + 20 + 1 pages, and 15 of the kernel stack
    assert_eq!(k.frames.available(), free - 25 - 15);
    let ks = k.kernel_space.areas.last().unwrap();
    assert_eq!(ks.start_vpn * 4096, 0xffff_ffff_fffe_0000);
    assert_eq!(ks.end_vpn * 4096, 0xffff_ffff_fffe_f000);
    assert_eq!(ks.map_perm.bits, 6);
    assert_eq!(t.kernel_stack.position(), (0xffff_ffff_fffe_0000, 0xffff_ffff_fffe_f000));
    // the process is in no queue
    assert!(k.manager.task_list.is_empty());
}

#[test]
fn a_process_cannot_be_made_from_a_missing_or_broken_program() {
    let mut k = boot(IdlePolicy::Halt);
    let free = k.frames.available();
    assert_eq!(Task::new(&mut k, "nothing", &machine(0)), None);
    assert_eq!(Task::new(&mut k, "broken", &machine(0)), None);
    assert_eq!(Task::spawn(&mut k, "nothing", &machine(0)), Err(()));
    assert_eq!(k.frames.available(), free);
    assert_eq!(k.pids.current, 0);
    assert!(k.tasks.is_empty());
    assert_eq!(k.kernel_space.areas.len(), 6);
    assert_eq!(Task::spawn(&mut k, "hello", &machine(0)), Ok(1));
}

#[test]
fn a_process_cannot_be_made_without_frames() {
    let mut k = boot(IdlePolicy::Halt);
    // leave 39 frames: the process needs 25 and its kernel stack 15
    while k.frames.available() > 39 {
        k.frames.allocate();
    }
    assert_eq!(Task::new(&mut k, "hello", &machine(0)), None);
    assert_eq!(k.frames.available(), 39);
    assert_eq!(k.pids.current, 0);
    assert_eq!(k.kernel_space.areas.len(), 6);
    let mut k = boot(IdlePolicy::Halt);
    while k.frames.available() > 40 {
        k.frames.allocate();
    }
    assert_eq!(Task::new(&mut k, "hello", &machine(0)), Some(1));
    assert_eq!(k.frames.available(), 0);
}

#[test]
fn the_scheduler_runs_the_smallest_pass_first_in_queue_among_equals() {
    let mut k = boot(IdlePolicy::Halt);
    for _ in 0..4 {
        let pid = Task::new(&mut k, "hello", &machine(0)).unwrap();
        add_task(&mut k, pid);
    }
    task_mut(&mut k, 1).inner.pass = 30;
    task_mut(&mut k, 2).inner.pass = 10;
    task_mut(&mut k, 3).inner.pass = 10;
    task_mut(&mut k, 4).inner.pass = 20;
    assert_eq!(fetch_ready_task(&mut k), Some(2));
    assert_eq!(k.manager.task_list, vec![1, 3, 4]);
    assert_eq!(fetch_ready_task(&mut k), Some(3));
    assert_eq!(fetch_ready_task(&mut k), Some(4));
    assert_eq!(fetch_ready_task(&mut k), Some(1));
    assert_eq!(fetch_ready_task(&mut k), None);
    assert!(!add_task(&mut k, 99));
    assert!(k.manager.task_list.is_empty());
}

#[test]
fn giving_up_the_core_advances_the_pass_by_the_stride() {
    let mut k = start(IdlePolicy::Halt);
    let second = Task::new(&mut k, "hello", &machine(0)).unwrap();
    add_task(&mut k, second);
    task_mut(&mut k, second).inner.priority = 4;
    let cur = pop_cur_task(&mut k).unwrap();
    assert_eq!(cur, 1);
    match switch_task(&mut k, 1) {
        Dispatch::Run(entry) => assert_eq!(entry.pid, 2),
        _ => panic!(),
    }
    assert_eq!(task(&k, 1).inner.pass, (BIG_STRIDE / 16) as u64);
    assert_eq!(task(&k, 1).inner.pass, 31250);
    assert_eq!(k.manager.task_list, vec![1]);
    assert_eq!(k.processor.cur_task, Some(2));
    assert_eq!(task(&k, 2).inner.state, TaskState::Running);
    pop_cur_task(&mut k);
    switch_task(&mut k, 2);
    assert_eq!(task(&k, 2).inner.pass, 125000);
    // the pass stops at the largest number
    task_mut(&mut k, 1).inner.pass = u64::MAX - 5;
    let cur = pop_cur_task(&mut k).unwrap();
    switch_task(&mut k, cur);
    assert_eq!(task(&k, 1).inner.pass, u64::MAX);
    assert_eq!(switch_task(&mut k, 77), Dispatch::NoSuchTask);
}

#[test]
fn processes_are_selected_in_proportion_to_their_priority() {
    let mut k = boot(IdlePolicy::Halt);
    let prios = [2u64, 4, 8, 16];
    for p in prios {
        let pid = Task::new(&mut k, "hello", &machine(0)).unwrap();
        task_mut(&mut k, pid).inner.priority = p;
        add_task(&mut k, pid);
    }
    let mut runs = [0u64; 5];
    let mut last = 0usize;
    let mut d = run_next_task(&mut k);
    for _ in 0..3000 {
        let pid = match d {
            Dispatch::Run(entry) => entry.pid,
            _ => panic!(),
        };
        // never twice in a row while a process with a smaller pass waits
        if pid == last {
            let mine = task(&k, pid).inner.pass;
            for w in k.manager.task_list.iter() {
                assert!(task(&k, *w).inner.pass >= mine);
            }
        }
        // the selected process has the smallest pass of all
        for w in k.manager.task_list.iter() {
            assert!(task(&k, *w).inner.pass >= task(&k, pid).inner.pass);
        }
        runs[pid] += 1;
        last = pid;
        let out = trap_handler(&mut k, &machine(TIMER));
        d = match out {
            TrapOutcome::Next { dispatch, rearm_timer } => {
                assert!(rearm_timer);
                dispatch
            },
            _ => panic!(),
        };
    }
    // runs are proportional to the priority: 2 : 4 : 8 : 16
    assert_eq!(runs[1..].iter().sum::<u64>(), 3000);
    for i in 1..=4 {
        let expect = 3000 * prios[i - 1] / 30;
        assert!(runs[i] + 2 >= expect && runs[i] <= expect + 2, "{:?}", runs);
    }
}

#[test]
fn with_no_process_ready_the_policy_decides() {
    let mut k = boot(IdlePolicy::Halt);
    assert_eq!(run_target_task(&mut k, &["hello", "other"], &machine(0)), Ok(()));
    assert_eq!(fetch_ready_task(&mut k), Some(1));
    assert_eq!(fetch_ready_task(&mut k), Some(2));
    assert_eq!(k.batch, vec![1, 2]);
    assert_eq!(run_next_task(&mut k), Dispatch::Halt);
    assert!(k.batch.is_empty());
    assert_eq!(k.tasks.len(), 2);
    let mut k = boot(IdlePolicy::Wait);
    assert_eq!(run_target_task(&mut k, &["hello"], &machine(0)), Ok(()));
    assert_eq!(fetch_ready_task(&mut k), Some(1));
    assert_eq!(run_next_task(&mut k), Dispatch::Idle);
    assert_eq!(k.batch, vec![1]);
    assert_eq!(fetch_ready_task(&mut k), None);
    assert_eq!(k.batch, vec![1]);
}

#[test]
fn batch_processes_are_made_kept_and_queued() {
    let mut k = boot(IdlePolicy::Halt);
    assert_eq!(run_target_task(&mut k, &["hello", "other"], &machine(0)), Ok(()));
    assert_eq!(k.batch, vec![1, 2]);
    assert_eq!(k.manager.task_list, vec![1, 2]);
    assert_eq!(task(&k, 2).inner.name, "other");
    assert_eq!(task(&k, 2).inner.trap_cx.sepc, 0x40_0000);
    // a program that is missing stops the work: what was made stays on the
    // batch list, and nothing more is queued
    assert_eq!(run_target_task(&mut k, &["hello", "nothing", "other"], &machine(0)), Err(()));
    assert_eq!(k.batch, vec![1, 2, 3]);
    assert_eq!(k.manager.task_list, vec![1, 2]);
    assert_eq!(k.tasks.len(), 3);
    let mut k = boot(IdlePolicy::Halt);
    assert_eq!(run_usertest(&mut k, &machine(0)), Ok(()));
    assert_eq!(task(&k, 1).inner.name, "ch5_usertest");
    assert_eq!(k.manager.task_list, vec![1]);
    assert_eq!(add_initproc(&mut k, &machine(0)), Some(2));
    assert_eq!(task(&k, 2).inner.name, "ch5b_initproc");
    assert_eq!(k.manager.task_list, vec![1, 2]);
    assert_eq!(k.batch, vec![1]);
    k.loader.names.clear();
    k.loader.images.clear();
    assert_eq!(add_initproc(&mut k, &machine(0)), None);
    assert_eq!(run_usertest(&mut k, &machine(0)), Err(()));
}

#[test]
fn the_core_holds_one_process_or_none() {
    let mut k = start(IdlePolicy::Halt);
    assert_eq!(weak_cur_task(&mut k), Some(1));
    assert_eq!(k.processor.cur_task, Some(1));
    assert_eq!(task(&k, 1).inner.state, TaskState::Running);
    assert_eq!(pop_cur_task(&mut k), Some(1));
    assert_eq!(pop_cur_task(&mut k), None);
    assert_eq!(weak_cur_task(&mut k), None);
    assert_eq!(run_task(&mut k, 9), Dispatch::NoSuchTask);
    assert_eq!(k.processor.cur_task, None);
    match run_task(&mut k, 1) {
        Dispatch::Run(entry) => {
            assert_eq!(entry.pid, 1);
            assert_eq!(entry.trap_cx_ptr, TRAP_CONTEXT);
            assert_eq!(entry.user_token, task(&k, 1).inner.addr_space.token());
            assert_eq!(entry.restore_va, TRAMPOLINE + 0xabc);
            assert_eq!(entry.stvec, TRAMPOLINE);
            assert_eq!(Some(entry), restore(&k, 1));
        },
        _ => panic!(),
    }
    assert_eq!(restore(&k, 2), None);
}

#[test]
fn fork_wait_and_exit_work_together() {
    let mut k = start(IdlePolicy::Halt);
    let free = k.frames.available();
    task_mut(&mut k, 1).inner.trap_cx.x[9] = 0x1234;
    task_mut(&mut k, 1).inner.addr_space.write_byte(VirtAddr(0x27000), 0x77);
    // fork: the parent gets the id of the child, the child gets 0
    let out = syscall(&mut k, SYS_FORK, [0, 0, 0]);
    assert_eq!(next_pid(&out), 1);
    assert_eq!(a0(&k, 1), 2);
    assert!(a0(&k, 1) > 1);
    assert_eq!(a0(&k, 2), 0);
    assert_eq!(task(&k, 1).inner.children, vec![2]);
    assert_eq!(k.manager.task_list, vec![2]);
    assert_eq!(k.frames.available(), free - 25 - 15);
    let parent = task(&k, 1);
    let child = task(&k, 2);
    assert_eq!(child.inner.state, TaskState::Ready);
    assert_eq!(child.inner.name, "hello");
    assert_eq!(child.inner.trap_cx.sepc, 0x10004);
    assert_eq!(parent.inner.trap_cx.sepc, 0x10004);
    assert_eq!(child.inner.trap_cx.x[9], 0x1234);
    assert_eq!(child.inner.trap_cx.x[17], SYS_FORK);
    assert_eq!(child.inner.trap_cx.kernel_sp, kernel_stack_position(2).1);
    assert_eq!(child.inner.trap_cx.kernel_sp, 0xffff_ffff_fffd_f000);
    assert_eq!(parent.inner.trap_cx.kernel_sp, 0xffff_ffff_fffe_f000);
    assert_eq!(child.inner.fd_table, parent.inner.fd_table);
    assert_eq!(child.inner.priority, 16);
    assert_eq!(child.inner.addr_space.read_byte(VirtAddr(0x27000)), Some(0x77));
    // a write by the child is not seen by the parent, and the other way round
    task_mut(&mut k, 2).inner.addr_space.write_byte(VirtAddr(0x27000), 0x11);
    task_mut(&mut k, 1).inner.addr_space.write_byte(VirtAddr(0x27001), 0x22);
    assert_eq!(task(&k, 1).inner.addr_space.read_byte(VirtAddr(0x27000)), Some(0x77));
    assert_eq!(task(&k, 2).inner.addr_space.read_byte(VirtAddr(0x27001)), Some(0));
    // the child has not exited yet
    let out = syscall(&mut k, SYS_WAITPID, [2, 0x27ff0, 0]);
    assert_eq!(next_pid(&out), 1);
    assert_eq!(a0(&k, 1), -2);
    assert_eq!(task(&k, 1).inner.children, vec![2]);
    // the parent yields, the child runs and exits with 7
    let out = syscall(&mut k, SYS_YIELD, [0, 0, 0]);
    assert_eq!(next_pid(&out), 2);
    let out = syscall(&mut k, SYS_EXIT, [7, 0, 0]);
    assert_eq!(next_pid(&out), 1);
    assert_eq!(task(&k, 2).inner.state, TaskState::Exited);
    assert_eq!(task(&k, 2).inner.exit_code, 7);
    // its memory is still there
    assert_eq!(k.frames.available(), free - 25 - 15);
    // now the parent collects it
    let out = syscall(&mut k, SYS_WAITPID, [2, 0x27ff0, 0]);
    assert_eq!(next_pid(&out), 1);
    assert_eq!(a0(&k, 1), 2);
    assert_eq!(
        task(&k, 1).inner.addr_space.read_bytes(VirtAddr(0x27ff0), 4),
        Some(vec![7, 0, 0, 0])
    );
    assert!(task(&k, 1).inner.children.is_empty());
    assert_eq!(k.tasks.len(), 1);
    assert_eq!(k.frames.available(), free);
    assert_eq!(k.kernel_space.areas.len(), 7);
    // the id is not handed out again
    syscall(&mut k, SYS_FORK, [0, 0, 0]);
    assert_eq!(a0(&k, 1), 3);
}

#[test]
fn wait_without_children_finds_none() {
    let mut k = start(IdlePolicy::Halt);
    syscall(&mut k, SYS_WAITPID, [u64::MAX, 0x27ff0, 0]);
    assert_eq!(a0(&k, 1), -1);
    syscall(&mut k, SYS_WAITPID, [5, 0x27ff0, 0]);
    assert_eq!(a0(&k, 1), -1);
    syscall(&mut k, SYS_FORK, [0, 0, 0]);
    // a child exists, but the wait asks for another
    syscall(&mut k, SYS_WAITPID, [5, 0x27ff0, 0]);
    assert_eq!(a0(&k, 1), -1);
    syscall(&mut k, SYS_WAITPID, [1, 0x27ff0, 0]);
    assert_eq!(a0(&k, 1), -1);
}

#[test]
fn wait_with_children_that_run_says_not_yet() {
    let mut k = start(IdlePolicy::Halt);
    syscall(&mut k, SYS_FORK, [0, 0, 0]);
    syscall(&mut k, SYS_FORK, [0, 0, 0]);
    syscall(&mut k, SYS_WAITPID, [u64::MAX, 0x27ff0, 0]);
    assert_eq!(a0(&k, 1), -2);
    syscall(&mut k, SYS_WAITPID, [3, 0x27ff0, 0]);
    assert_eq!(a0(&k, 1), -2);
    assert_eq!(task(&k, 1).inner.children, vec![2, 3]);
    assert_eq!(k.tasks.len(), 3);
}

#[test]
fn wait_collects_the_first_exited_child_in_list_order() {
    let mut k = start(IdlePolicy::Halt);
    for _ in 0..4 {
        syscall(&mut k, SYS_FORK, [0, 0, 0]);
    }
    assert_eq!(task(&k, 1).inner.children, vec![2, 3, 4, 5]);
    // the children exit in the order 5, 3, 4; child 2 keeps running
    for (pid, code) in [(5usize, 50u64), (3, 30), (4, (-4i64) as u64)] {
        run_until(&mut k, pid);
        syscall(&mut k, SYS_EXIT, [code, 0, 0]);
    }
    run_until(&mut k, 1);
    // any child: the first in the list that has exited is 3
    syscall(&mut k, SYS_WAITPID, [u64::MAX, 0x27ff0, 0]);
    assert_eq!(a0(&k, 1), 3);
    assert_eq!(
        task(&k, 1).inner.addr_space.read_bytes(VirtAddr(0x27ff0), 4),
        Some(vec![30, 0, 0, 0])
    );
    assert_eq!(task(&k, 1).inner.children, vec![2, 4, 5]);
    // a named child
    syscall(&mut k, SYS_WAITPID, [5, 0x27ff4, 0]);
    assert_eq!(a0(&k, 1), 5);
    assert_eq!(
        task(&k, 1).inner.addr_space.read_bytes(VirtAddr(0x27ff0), 8),
        Some(vec![30, 0, 0, 0, 50, 0, 0, 0])
    );
    // a negative exit code is stored in two's complement
    syscall(&mut k, SYS_WAITPID, [u64::MAX, 0x27ff0, 0]);
    assert_eq!(a0(&k, 1), 4);
    assert_eq!(
        task(&k, 1).inner.addr_space.read_bytes(VirtAddr(0x27ff0), 4),
        Some(vec![0xfc, 0xff, 0xff, 0xff])
    );
    syscall(&mut k, SYS_WAITPID, [u64::MAX, 0x27ff0, 0]);
    assert_eq!(a0(&k, 1), -2);
    assert_eq!(task(&k, 1).inner.children, vec![2]);
    assert_eq!(k.tasks.len(), 2);
}

#[test]
fn wait_with_a_bad_address_is_refused_and_changes_nothing() {
    let mut k = start(IdlePolicy::Halt);
    syscall(&mut k, SYS_FORK, [0, 0, 0]);
    run_until(&mut k, 2);
    syscall(&mut k, SYS_EXIT, [9, 0, 0]);
    assert_eq!(k.processor.cur_task, Some(1));
    syscall(&mut k, SYS_WAITPID, [2, 0x13000, 0]);
    assert_eq!(a0(&k, 1), -1);
    assert_eq!(task(&k, 1).inner.children, vec![2]);
    assert_eq!(k.tasks.len(), 2);
    // the last three bytes of the stack and one byte past it
    syscall(&mut k, SYS_WAITPID, [2, 0x27ffd, 0]);
    assert_eq!(a0(&k, 1), -1);
    syscall(&mut k, SYS_WAITPID, [2, 0x27ffc, 0]);
    assert_eq!(a0(&k, 1), 2);
}

#[test]
fn a_child_that_someone_else_holds_outlives_the_wait() {
    let mut k = start(IdlePolicy::Halt);
    syscall(&mut k, SYS_FORK, [0, 0, 0]);
    run_until(&mut k, 2);
    syscall(&mut k, SYS_EXIT, [1, 0, 0]);
    k.batch.push(2);
    syscall(&mut k, SYS_WAITPID, [2, 0x27ff0, 0]);
    assert_eq!(a0(&k, 1), 2);
    assert!(task(&k, 1).inner.children.is_empty());
    assert_eq!(k.tasks.len(), 2);
    assert!(k.is_referenced(2));
    assert!(!k.is_referenced(1) || k.processor.cur_task == Some(1));
}

#[test]
fn exit_of_the_last_process_halts_or_idles() {
    let mut k = start(IdlePolicy::Halt);
    match syscall(&mut k, SYS_EXIT, [3, 0, 0]) {
        TrapOutcome::Next { dispatch, rearm_timer } => {
            assert_eq!(dispatch, Dispatch::Halt);
            assert!(!rearm_timer);
        },
        _ => panic!(),
    }
    assert_eq!(task(&k, 1).inner.state, TaskState::Exited);
    assert_eq!(task(&k, 1).inner.exit_code, 3);
    assert_eq!(k.processor.cur_task, None);
    let mut k = start(IdlePolicy::Wait);
    match syscall(&mut k, SYS_EXIT, [0x1_0000_0002, 0, 0]) {
        TrapOutcome::Next { dispatch, .. } => assert_eq!(dispatch, Dispatch::Idle),
        _ => panic!(),
    }
    assert_eq!(task(&k, 1).inner.exit_code, 2);
}

#[test]
fn getpid_and_set_priority() {
    let mut k = start(IdlePolicy::Halt);
    syscall(&mut k, SYS_GETPID, [0, 0, 0]);
    assert_eq!(a0(&k, 1), 1);
    syscall(&mut k, SYS_SET_PRIORITY, [5, 0, 0]);
    assert_eq!(a0(&k, 1), 5);
    assert_eq!(task(&k, 1).inner.priority, 5);
    syscall(&mut k, SYS_SET_PRIORITY, [2, 0, 0]);
    assert_eq!(a0(&k, 1), 2);
    assert_eq!(task(&k, 1).inner.priority, 2);
    for bad in [1u64, 0, u64::MAX, (-7i64) as u64] {
        syscall(&mut k, SYS_SET_PRIORITY, [bad, 0, 0]);
        assert_eq!(a0(&k, 1), -1);
        assert_eq!(task(&k, 1).inner.priority, 2);
    }
    syscall(&mut k, SYS_SET_PRIORITY, [i64::MAX as u64, 0, 0]);
    assert_eq!(a0(&k, 1), i64::MAX);
    // every call was counted
    assert_eq!(task(&k, 1).inner.syscall_times[SYS_SET_PRIORITY as usize], 7);
    assert_eq!(task(&k, 1).inner.syscall_times[SYS_GETPID as usize], 1);
    assert_eq!(task(&k, 1).inner.trap_cx.sepc, 0x10000 + 4 * 8);
}

#[test]
fn mmap_refuses_bad_arguments() {
    let mut k = start(IdlePolicy::Halt);
    let free = k.frames.available();
    for prot in [0u64, 5, 6, 8, 9, 15, 16, 0x100, u64::MAX] {
        syscall(&mut k, SYS_MMAP, [0x1000_0000, 0x1000, prot]);
        assert_eq!(a0(&k, 1), -1, "prot {}", prot);
    }
    for start in [0x1000_0001u64, 0x1000_0fff, 0x1000_0800] {
        syscall(&mut k, SYS_MMAP, [start, 0x1000, 3]);
        assert_eq!(a0(&k, 1), -1);
    }
    // over the program, over the stack, past the end of the address space
    syscall(&mut k, SYS_MMAP, [0x10000, 0x1000, 3]);
    assert_eq!(a0(&k, 1), -1);
    syscall(&mut k, SYS_MMAP, [0x13000, 0x2000, 3]);
    assert_eq!(a0(&k, 1), -1);
    syscall(&mut k, SYS_MMAP, [TRAMPOLINE, 0x1000, 3]);
    assert_eq!(a0(&k, 1), -1);
    syscall(&mut k, SYS_MMAP, [0x1000_0000, u64::MAX, 3]);
    assert_eq!(a0(&k, 1), -1);
    // more than there are frames
    syscall(&mut k, SYS_MMAP, [0x1000_0000, 0x1000 * (free + 1), 3]);
    assert_eq!(a0(&k, 1), -1);
    assert_eq!(k.frames.available(), free);
    assert_eq!(task(&k, 1).inner.addr_space.areas.len(), 4);
}

#[test]
fn mapped_memory_reads_back_what_was_written() {
    let mut k = start(IdlePolicy::Halt);
    let free = k.frames.available();
    for (i, (prot, bits)) in [(1u64, 18u8), (2, 20), (3, 22), (4, 26), (7, 30)].iter().enumerate() {
        let start = 0x1000_0000 + 0x10_0000 * i as u64;
        let len = 0x1801u64;
        syscall(&mut k, SYS_MMAP, [start, len, *prot]);
        assert_eq!(a0(&k, 1), 0);
        let ms = &mut task_mut(&mut k, 1).inner.addr_space;
        let area = ms.areas.last().unwrap();
        assert_eq!(area.map_perm.bits, *bits);
        assert_eq!((area.start_vpn, area.end_vpn), (start / 4096, start / 4096 + 2));
        for a in start..start + len {
            assert_eq!(ms.read_byte(VirtAddr(a)), Some(0));
            assert!(ms.write_byte(VirtAddr(a), (a % 251) as u8));
        }
        for a in start..start + len {
            assert_eq!(ms.read_byte(VirtAddr(a)), Some((a % 251) as u8));
        }
        let pte = ms.translate(VirtPageNum(start / 4096 + 1)).unwrap();
        assert_eq!(pte.flags().bits, bits | 1);
    }
    assert_eq!(k.frames.available(), free - 10);
    // an empty range maps nothing
    syscall(&mut k, SYS_MMAP, [0x2000_0000, 0, 3]);
    assert_eq!(a0(&k, 1), 0);
    assert_eq!(k.frames.available(), free - 10);
    // unmap: only the range as it was mapped
    syscall(&mut k, SYS_MUNMAP, [0x1000_0000, 0x1000, 0]);
    assert_eq!(a0(&k, 1), -1);
    syscall(&mut k, SYS_MUNMAP, [0x1000_0001, 0x1800, 0]);
    assert_eq!(a0(&k, 1), -1);
    syscall(&mut k, SYS_MUNMAP, [0x1000_0000, u64::MAX, 0]);
    assert_eq!(a0(&k, 1), -1);
    syscall(&mut k, SYS_MUNMAP, [0x3000_0000, 0x1000, 0]);
    assert_eq!(a0(&k, 1), -1);
    assert_eq!(k.frames.available(), free - 10);
    syscall(&mut k, SYS_MUNMAP, [0x1000_0000, 0x2000, 0]);
    assert_eq!(a0(&k, 1), 0);
    assert_eq!(k.frames.available(), free - 8);
    assert_eq!(task(&k, 1).inner.addr_space.read_byte(VirtAddr(0x1000_0000)), None);
    syscall(&mut k, SYS_MUNMAP, [0x1000_0000, 0x2000, 0]);
    assert_eq!(a0(&k, 1), -1);
}

#[test]
fn exec_replaces_the_program_and_keeps_the_process() {
    let mut k = start(IdlePolicy::Halt);
    syscall(&mut k, SYS_FORK, [0, 0, 0]);
    task_mut(&mut k, 1).inner.priority = 9;
    task_mut(&mut k, 1).inner.pass = 5;
    task_mut(&mut k, 2).inner.pass = 5;
    let free = k.frames.available();
    // the name "other" stands at 0x11005 in the program
    let out = syscall(&mut k, SYS_EXEC, [0x11005, 0, 0]);
    assert_eq!(next_pid(&out), 1);
    let t = task(&k, 1);
    assert_eq!(t.pid.0, 1);
    assert_eq!(t.inner.name, "other");
    assert_eq!(t.inner.children, vec![2]);
    assert_eq!(t.inner.priority, 9);
    assert_eq!(t.inner.pass, 5);
    assert_eq!(t.inner.syscall_times[SYS_EXEC as usize], 1);
    assert_eq!(t.inner.syscall_times[SYS_FORK as usize], 1);
    assert_eq!(t.inner.trap_cx.sepc, 0x40_0000);
    assert_eq!(t.inner.trap_cx.x[10], 0);
    assert_eq!(t.inner.trap_cx.x[17], 0);
    assert_eq!(t.inner.trap_cx.x[2], 0x40_4000 + 0x14000);
    assert_eq!(t.inner.trap_cx.kernel_sp, 0xffff_ffff_fffe_f000);
    assert_eq!(t.inner.addr_space.areas.len(), 3);
    assert_eq!(t.inner.addr_space.areas[0].map_perm.bits, 30);
    assert_eq!(t.inner.addr_space.read_bytes(VirtAddr(0x40_0000), 4), Some(vec![1, 2, 3, 0]));
    assert_eq!(t.inner.addr_space.read_byte(VirtAddr(0x10000)), None);
    // the old space had 25 frames, the new one has 1 + 3 + 20 + 1
    assert_eq!(k.frames.available(), free);
    assert_eq!(k.tasks.len(), 2);
}

#[test]
fn exec_of_a_program_that_cannot_be_loaded_changes_nothing() {
    let mut k = start(IdlePolicy::Halt);
    let free = k.frames.available();
    // "hello" is known; "/bin/other" is not; 0x13000 is not mapped
    syscall(&mut k, SYS_EXEC, [0x11000, 0, 0]);
    assert_eq!(a0(&k, 1), -1);
    syscall(&mut k, SYS_EXEC, [0x13000, 0, 0]);
    assert_eq!(a0(&k, 1), -1);
    assert_eq!(task(&k, 1).inner.name, "hello");
    assert_eq!(task(&k, 1).inner.trap_cx.sepc, 0x10008);
    assert_eq!(k.frames.available(), free);
    assert_eq!(Task::exec(&mut k, 9, "hello", &machine(0)), Err(()));
    assert_eq!(Task::exec(&mut k, 1, "broken", &machine(0)), Err(()));
    assert_eq!(Task::exec(&mut k, 1, "hello", &machine(0)), Ok(()));
    assert_eq!(task(&k, 1).inner.trap_cx.sepc, 0x10000);
    assert_eq!(k.frames.available(), free);
}

#[test]
fn spawn_makes_a_queued_child_from_a_program() {
    let mut k = start(IdlePolicy::Halt);
    let out = syscall(&mut k, SYS_SPAWN, [0x11005, 0, 0]);
    assert_eq!(next_pid(&out), 1);
    assert_eq!(a0(&k, 1), 2);
    assert_eq!(task(&k, 1).inner.children, vec![2]);
    assert_eq!(k.manager.task_list, vec![2]);
    let c = task(&k, 2);
    assert_eq!(c.inner.name, "other");
    assert_eq!(c.inner.state, TaskState::Ready);
    assert_eq!(c.inner.trap_cx.sepc, 0x40_0000);
    assert_eq!(c.inner.trap_cx.kernel_sp, 0xffff_ffff_fffd_f000);
    assert!(c.inner.children.is_empty());
    syscall(&mut k, SYS_SPAWN, [0x11000, 0, 0]);
    assert_eq!(a0(&k, 1), -1);
    assert_eq!(k.tasks.len(), 2);
    assert_eq!(k.pids.current, 2);
}

#[test]
fn an_unknown_system_call_ends_the_process() {
    for num in [0u64, 1, 94, 499, 500, 501, u64::MAX] {
        let mut k = start(IdlePolicy::Halt);
        match syscall(&mut k, num, [0, 0, 0]) {
            TrapOutcome::Next { dispatch, .. } => assert_eq!(dispatch, Dispatch::Halt),
            _ => panic!(),
        }
        assert_eq!(task(&k, 1).inner.state, TaskState::Exited);
        assert_eq!(task(&k, 1).inner.exit_code, 1);
        if num < 500 {
            assert_eq!(task(&k, 1).inner.syscall_times[num as usize], 1);
        }
    }
}

#[test]
fn a_fault_ends_the_process_and_the_core_is_handed_on() {
    for cause in [13u64, 15, 5, 7, 2] {
        let mut k = start(IdlePolicy::Halt);
        let second = Task::new(&mut k, "hello", &machine(0)).unwrap();
        add_task(&mut k, second);
        match trap_handler(&mut k, &machine(cause)) {
            TrapOutcome::Next { dispatch: Dispatch::Run(entry), rearm_timer } => {
                assert_eq!(entry.pid, 2);
                assert!(!rearm_timer);
            },
            _ => panic!(),
        }
        assert_eq!(task(&k, 1).inner.state, TaskState::Exited);
        assert_eq!(task(&k, 1).inner.exit_code, 1);
        assert_eq!(task(&k, 1).inner.trap_cx.sepc, 0x10000);
        assert_eq!(k.processor.cur_task, Some(2));
        assert!(k.manager.task_list.is_empty());
    }
}

#[test]
fn the_timer_takes_the_core_away() {
    let mut k = start(IdlePolicy::Halt);
    let second = Task::new(&mut k, "hello", &machine(0)).unwrap();
    add_task(&mut k, second);
    match trap_handler(&mut k, &machine(TIMER)) {
        TrapOutcome::Next { dispatch: Dispatch::Run(entry), rearm_timer } => {
            assert_eq!(entry.pid, 2);
            assert!(rearm_timer);
        },
        _ => panic!(),
    }
    assert_eq!(task(&k, 1).inner.state, TaskState::Ready);
    assert_eq!(task(&k, 1).inner.pass, 31250);
    assert_eq!(task(&k, 1).inner.trap_cx.sepc, 0x10000);
    assert_eq!(k.manager.task_list, vec![1]);
    // a lone process gets the core back at once
    let mut k = start(IdlePolicy::Halt);
    let out = trap_handler(&mut k, &machine(TIMER));
    assert_eq!(next_pid(&out), 1);
    assert_eq!(task(&k, 1).inner.state, TaskState::Running);
}

#[test]
fn traps_that_are_not_served() {
    let mut k = start(IdlePolicy::Halt);
    for cause in [0u64, 1, 3, 4, 6, 9, 12, 14, (1 << 63) | 1, (1 << 63) | 9, (1 << 63) | 8] {
        assert!(matches!(trap_handler(&mut k, &machine(cause)), TrapOutcome::Unsupported));
    }
    assert_eq!(task(&k, 1).inner.state, TaskState::Running);
    assert_eq!(k.processor.cur_task, Some(1));
    pop_cur_task(&mut k);
    assert!(matches!(trap_handler(&mut k, &machine(ECALL)), TrapOutcome::NoCurrentTask));
    assert!(matches!(trap_handler(&mut k, &machine(TIMER)), TrapOutcome::NoCurrentTask));
}

#[test]
fn a_write_goes_to_the_file_layer_and_its_answer_comes_back() {
    let mut k = start(IdlePolicy::Halt);
    let out = syscall(&mut k, SYS_WRITE, [1, 0x11005, 5]);
    match out {
        TrapOutcome::Io { task: t, request: IoRequest::Write { file, data } } => {
            assert_eq!(t, 1);
            assert_eq!(file, OpenFile { file: 1, readable: false, writable: true });
            assert_eq!(data, b"other".to_vec());
        },
        _ => panic!(),
    }
    // the process is still on the core, and its return register is untouched
    assert_eq!(k.processor.cur_task, Some(1));
    assert_eq!(a0(&k, 1), 1);
    match finish_syscall(&mut k, 1, Ok(5)) {
        Dispatch::Run(entry) => assert_eq!(entry.pid, 1),
        _ => panic!(),
    }
    assert_eq!(a0(&k, 1), 5);
    assert_eq!(task(&k, 1).inner.state, TaskState::Running);
    assert_eq!(finish_syscall(&mut k, 5, Ok(5)), Dispatch::NoSuchTask);
    // a slot without a file, and a buffer that is not mapped
    let out = syscall(&mut k, SYS_WRITE, [2, 0x11005, 5]);
    assert_eq!(next_pid(&out), 1);
    assert_eq!(a0(&k, 1), -1);
    let out = syscall(&mut k, SYS_WRITE, [1, 0x13000, 5]);
    assert_eq!(next_pid(&out), 1);
    assert_eq!(a0(&k, 1), -1);
}

/// Every frame of every address space is handed out, and none is in two places.
fn check_frames(k: &Kernel) {
    let mut seen: Vec<u64> = Vec::new();
    let mut spaces = vec![&k.kernel_space];
    spaces.extend(k.tasks.iter().map(|t| &t.inner.addr_space));
    for ms in spaces {
        seen.push(ms.page_table.root_ppn.0);
        for area in ms.areas.iter() {
            seen.extend(area.frames.iter().map(|f| f.ppn.0));
        }
    }
    let total = seen.len() as u64;
    seen.sort();
    seen.dedup();
    assert_eq!(seen.len() as u64, total);
    for p in seen.iter() {
        assert!(k.frames.start <= *p && *p < k.frames.current);
        assert!(!k.frames.recycled.contains(p));
    }
    assert_eq!(total + k.frames.available(), k.frames.end - k.frames.start);
}

#[test]
fn frames_are_never_shared() {
    let mut k = start(IdlePolicy::Halt);
    check_frames(&k);
    syscall(&mut k, SYS_FORK, [0, 0, 0]);
    check_frames(&k);
    syscall(&mut k, SYS_MMAP, [0x1000_0000, 0x3000, 3]);
    check_frames(&k);
    syscall(&mut k, SYS_SPAWN, [0x11005, 0, 0]);
    check_frames(&k);
    syscall(&mut k, SYS_MUNMAP, [0x1000_0000, 0x3000, 0]);
    check_frames(&k);
    syscall(&mut k, SYS_MMAP, [0x2000_0000, 0x5000, 1]);
    check_frames(&k);
    run_until(&mut k, 2);
    syscall(&mut k, SYS_EXEC, [0x11005, 0, 0]);
    check_frames(&k);
    syscall(&mut k, SYS_FORK, [0, 0, 0]);
    check_frames(&k);
    syscall(&mut k, SYS_EXIT, [1, 0, 0]);
    check_frames(&k);
    run_until(&mut k, 1);
    syscall(&mut k, SYS_WAITPID, [u64::MAX, 0x27ff0, 0]);
    assert_eq!(a0(&k, 1), 2);
    check_frames(&k);
    assert_eq!(k.tasks.len(), 3);
    // a fork that runs out of frames leaves everything as it was
    let free = k.frames.available();
    syscall(&mut k, SYS_MMAP, [0x3000_0000, 0x1000 * (free - 30), 3]);
    assert_eq!(a0(&k, 1), 0);
    check_frames(&k);
    syscall(&mut k, SYS_FORK, [0, 0, 0]);
    assert_eq!(a0(&k, 1), -1);
    assert_eq!(k.frames.available(), 30);
    assert_eq!(k.tasks.len(), 3);
    check_frames(&k);
}

#[test]
fn after_a_system_call_the_scheduler_selects_anew() {
    // with equal passes the caller stands first and keeps the core
    let mut k = start(IdlePolicy::Halt);
    let out = syscall(&mut k, SYS_FORK, [0, 0, 0]);
    assert_eq!(next_pid(&out), 1);
    assert_eq!(k.manager.task_list, vec![2]);
    assert_eq!(task(&k, 1).inner.state, TaskState::Running);
    assert_eq!(task(&k, 1).inner.pass, 0);
    let out = syscall(&mut k, SYS_GETPID, [0, 0, 0]);
    assert_eq!(next_pid(&out), 1);
    // the caller yields once, so its pass is above that of a new child
    syscall(&mut k, SYS_YIELD, [0, 0, 0]);
    run_until(&mut k, 1);
    assert_eq!(task(&k, 1).inner.pass, 31250);
    assert_eq!(task(&k, 2).inner.pass, 31250);
    let out = syscall(&mut k, SYS_FORK, [0, 0, 0]);
    // the new child has pass 0 and gets the core; the caller waits first in line
    assert_eq!(a0(&k, 1), 3);
    assert_eq!(next_pid(&out), 3);
    assert_eq!(k.processor.cur_task, Some(3));
    assert_eq!(k.manager.task_list, vec![1, 2]);
    assert_eq!(task(&k, 1).inner.state, TaskState::Ready);
    assert_eq!(task(&k, 1).inner.pass, 31250);
    assert_eq!(task(&k, 3).inner.state, TaskState::Running);
    assert_eq!(a0(&k, 3), 0);
    // the child goes on while its pass is the smallest
    let out = syscall(&mut k, SYS_GETPID, [0, 0, 0]);
    assert_eq!(next_pid(&out), 3);
    assert_eq!(a0(&k, 3), 3);
    // after the child gave up the core, the caller is next
    let out = syscall(&mut k, SYS_YIELD, [0, 0, 0]);
    assert_eq!(next_pid(&out), 1);
    assert_eq!(k.manager.task_list, vec![2, 3]);
    // the answer of the file layer is followed by a selection as well
    let out = syscall(&mut k, SYS_WRITE, [1, 0x11005, 5]);
    assert!(matches!(out, TrapOutcome::Io { task: 1, .. }));
    task_mut(&mut k, 2).inner.pass = 7;
    match finish_syscall(&mut k, 1, Ok(5)) {
        Dispatch::Run(entry) => assert_eq!(entry.pid, 2),
        _ => panic!(),
    }
    assert_eq!(a0(&k, 1), 5);
    assert_eq!(k.manager.task_list, vec![1, 3]);
}
