//! The system calls on files. The files themselves are outside the kernel
//! core: each call here checks its arguments and says what the file layer is
//! asked to do, and a second function takes the answer of the file layer.
use vstd::prelude::*;
use crate::kernel::{lemma_task_at, lemma_update_keeps, Kernel};
use crate::syscall::pointer::{
    copy_in, copy_out, cstring_at, le_seq, lemma_le_seq_len, push_le, user_cstring,
};
use crate::syscall::SyscallResult;
use crate::task::task::{OpenFile, Task, TaskInner};

verus! {

/// The kind of a file: a set of the flags below.
#[derive(Clone, Copy, Debug, PartialEq, Eq, Structural)]
pub struct StatMode {
    pub bits: u32,
}

/// No kind.
pub const STAT_NULL: u32 = 0;

/// A directory.
pub const STAT_DIR: u32 = 0o040000;

/// An ordinary file.
pub const STAT_FILE: u32 = 0o100000;

/// The size of a [`Stat`] in the memory of a process.
pub const STAT_SIZE: usize = 80;

/// The flags with which a file may be opened: write only, read and write,
/// create, truncate. No flag means read only.
pub const OPEN_FLAGS: u32 = 0x603;

/// What a process is told about a file.
pub struct Stat {
    /// The device of the file: always 0.
    pub dev: u64,
    /// The number of the inode of the file.
    pub ino: u64,
    /// The kind of the file.
    pub mode: StatMode,
    /// The number of names of the file.
    pub nlink: u32,
    /// Unused, always zero.
    pub pad: [u64; 7],
}

/// What the file layer says about the inode behind a file.
#[derive(Clone, Copy, Debug, PartialEq, Eq, Structural)]
pub struct InodeInfo {
    pub inode_id: u64,
    pub is_dir: bool,
    pub link_cnt: u32,
}

impl Stat {
    /// The record for the inode `info` on device 0.
    pub fn new(info: InodeInfo) -> (st: Stat)
        ensures
            st.dev == 0,
            st.ino == info.inode_id,
            st.mode.bits == if info.is_dir {
                STAT_DIR
            } else {
                STAT_FILE
            },
            st.nlink == info.link_cnt,
    {
        Stat {
            dev: 0,
            ino: info.inode_id,
            mode: StatMode { bits: if info.is_dir { STAT_DIR } else { STAT_FILE } },
            nlink: info.link_cnt,
            pad: [0u64; 7],
        }
    }

    /// The record as it stands in the memory of a process: device and inode
    /// in eight bytes each, kind and number of names in four bytes each,
    /// every number lowest byte first, and 56 bytes of zero.
    pub open spec fn spec_bytes(&self) -> Seq<u8> {
        le_seq(self.dev as int, 8) + le_seq(self.ino as int, 8) + le_seq(self.mode.bits as int, 4)
            + le_seq(self.nlink as int, 4) + le_seq(0, 56)
    }

    /// The record as it stands in the memory of a process.
    pub fn to_bytes(&self) -> (out: Vec<u8>)
        ensures
            out@ == self.spec_bytes(),
            out@.len() == STAT_SIZE,
    {
        let mut out: Vec<u8> = Vec::new();
        push_le(&mut out, self.dev, 8);
        push_le(&mut out, self.ino, 8);
        push_le(&mut out, self.mode.bits as u64, 4);
        push_le(&mut out, self.nlink as u64, 4);
        push_le(&mut out, 0, 56);
        proof {
            lemma_le_seq_len(self.dev as int, 8);
            lemma_le_seq_len(self.ino as int, 8);
            lemma_le_seq_len(self.mode.bits as int, 4);
            lemma_le_seq_len(self.nlink as int, 4);
            lemma_le_seq_len(0, 56);
            assert(out@ =~= self.spec_bytes());
        }
        out
    }
}

/// What the file layer is asked to do for a system call.
pub enum IoRequest {
    /// Write `data` to `file`.
    Write { file: OpenFile, data: Vec<u8> },
    /// Read up to `len` bytes from `file`; they go to `buf` in the memory of
    /// the process.
    Read { file: OpenFile, buf: u64, len: usize },
    /// Say what inode is behind `file`; the record goes to `st_user`.
    Stat { file: OpenFile, st_user: u64 },
    /// Give the file named `old_path` the further name `new_path`.
    Link { old_path: String, new_path: String },
    /// Take the name `path` away.
    Unlink { path: String },
    /// Open the file named `path` with `flags`.
    Open { path: String, flags: u32 },
}

impl Kernel {
    /// The file in slot `fd` of the file table of the live process `task`,
    /// where the slot exists and holds a file.
    pub open spec fn file_at(&self, task: usize, fd: int) -> Option<OpenFile> {
        let table = self.task(task).inner.fd_table@;
        if 0 <= fd < table.len() {
            table[fd]
        } else {
            None
        }
    }
}

/// The file in slot `fd` of the file table of process `task`; `None` where
/// the process is not live, the slot does not exist or it holds no file.
pub fn file_of(kernel: &Kernel, task: usize, fd: usize) -> (res: Option<OpenFile>)
    requires
        kernel.wf(),
    ensures
        res == if kernel.live(task) {
            kernel.file_at(task, fd as int)
        } else {
            None
        },
{
    match kernel.find(task) {
        None => None,
        Some(idx) => {
            if fd < kernel.tasks[idx].inner.fd_table.len() {
                kernel.tasks[idx].inner.fd_table[fd]
            } else {
                None
            }
        },
    }
}

/// Whether `res` is what [`sys_write`] gives for these arguments in `k_old`.
pub open spec fn sys_write_post(
    k_old: &Kernel,
    task: usize,
    fd: usize,
    buf: u64,
    len: usize,
    res: Result<IoRequest, ()>,
) -> bool {
    &&& res is Ok <==> {
        &&& k_old.live(task)
        &&& k_old.task(task).inner.addr_space.range_mapped(buf, len as nat)
        &&& k_old.file_at(task, fd as int) is Some
    }
    &&& res matches Ok(req) ==> {
        &&& req matches IoRequest::Write { file, data }
        &&& Some(file) == k_old.file_at(task, fd as int)
        &&& data@ == k_old.task(task).inner.addr_space.bytes_at(buf, len as nat)
    }
}

/// Process `task` writes the `len` bytes at `buf` to the file in slot `fd`:
/// the answer is the request to the file layer, with the bytes. The call is
/// refused where the process is not live, the bytes are not mapped, or the
/// slot holds no file.
pub fn sys_write(kernel: &Kernel, task: usize, fd: usize, buf: u64, len: usize) -> (res: Result<
    IoRequest,
    (),
>)
    requires
        kernel.wf(),
    ensures
        sys_write_post(kernel, task, fd, buf, len, res),
{
    let data = match copy_in(kernel, task, buf, len) {
        None => {
            return Err(());
        },
        Some(data) => data,
    };
    match file_of(kernel, task, fd) {
        None => Err(()),
        Some(file) => Ok(IoRequest::Write { file, data }),
    }
}

/// Whether `res` is what [`sys_read`] gives for these arguments in `k_old`.
pub open spec fn sys_read_post(
    k_old: &Kernel,
    task: usize,
    fd: usize,
    buf: u64,
    len: usize,
    res: Result<IoRequest, ()>,
) -> bool {
    &&& res is Ok <==> {
        &&& k_old.live(task)
        &&& k_old.task(task).inner.addr_space.range_mapped(buf, len as nat)
        &&& k_old.file_at(task, fd as int) is Some
    }
    &&& res matches Ok(req) ==> req == (IoRequest::Read {
        file: k_old.file_at(task, fd as int).unwrap(),
        buf,
        len,
    })
}

/// Process `task` reads up to `len` bytes from the file in slot `fd` into
/// its memory at `buf`: the answer is the request to the file layer. The call
/// is refused where the process is not live, the range at `buf` is not
/// mapped, or the slot holds no file.
pub fn sys_read(kernel: &Kernel, task: usize, fd: usize, buf: u64, len: usize) -> (res: Result<
    IoRequest,
    (),
>)
    requires
        kernel.wf(),
    ensures
        sys_read_post(kernel, task, fd, buf, len, res),
{
    let idx = match kernel.find(task) {
        None => {
            return Err(());
        },
        Some(idx) => idx,
    };
    assert(kernel.task_ok(&kernel.tasks@[idx as int]));
    if !kernel.tasks[idx].inner.addr_space.check_range(crate::mm::address::VirtAddr(buf), len) {
        return Err(());
    }
    match file_of(kernel, task, fd) {
        None => Err(()),
        Some(file) => Ok(IoRequest::Read { file, buf, len }),
    }
}

/// Whether `res` is what [`sys_fstat`] gives for these arguments in `k_old`.
pub open spec fn sys_fstat_post(
    k_old: &Kernel,
    task: usize,
    fd: i32,
    st_user: u64,
    res: Result<IoRequest, ()>,
) -> bool {
    &&& res is Ok <==> {
        &&& k_old.live(task)
        &&& k_old.task(task).inner.addr_space.range_mapped(st_user, STAT_SIZE as nat)
        &&& k_old.file_at(task, fd as int) is Some
    }
    &&& res matches Ok(req) ==> req == (IoRequest::Stat {
        file: k_old.file_at(task, fd as int).unwrap(),
        st_user,
    })
}

/// Process `task` asks about the file in slot `fd`; the record goes to
/// `st_user` in its memory: the answer is the request to the file layer. The
/// call is refused where the process is not live, the range at `st_user` is
/// not mapped, `fd` is negative, or the slot holds no file.
pub fn sys_fstat(kernel: &Kernel, task: usize, fd: i32, st_user: u64) -> (res: Result<IoRequest, ()>)
    requires
        kernel.wf(),
    ensures
        sys_fstat_post(kernel, task, fd, st_user, res),
{
    let idx = match kernel.find(task) {
        None => {
            return Err(());
        },
        Some(idx) => idx,
    };
    assert(kernel.task_ok(&kernel.tasks@[idx as int]));
    if !kernel.tasks[idx].inner.addr_space.check_range(crate::mm::address::VirtAddr(st_user), STAT_SIZE) {
        return Err(());
    }
    if fd < 0 {
        return Err(());
    }
    match file_of(kernel, task, fd as usize) {
        None => Err(()),
        Some(file) => Ok(IoRequest::Stat { file, st_user }),
    }
}

/// Whether `res` is what [`sys_link_at`] gives for these arguments in `k_old`.
pub open spec fn sys_link_at_post(
    k_old: &Kernel,
    task: usize,
    oldpath: u64,
    newpath: u64,
    res: Result<IoRequest, ()>,
) -> bool {
    &&& res is Ok <==> {
        &&& k_old.live(task)
        &&& cstring_at(&k_old.task(task).inner.addr_space, oldpath) is Some
        &&& cstring_at(&k_old.task(task).inner.addr_space, newpath) is Some
    }
    &&& res matches Ok(req) ==> {
        &&& req matches IoRequest::Link { old_path, new_path }
        &&& Some(old_path@) == cstring_at(&k_old.task(task).inner.addr_space, oldpath)
        &&& Some(new_path@) == cstring_at(&k_old.task(task).inner.addr_space, newpath)
    }
}

/// Process `task` asks for the file whose name stands at `oldpath` to get
/// the further name that stands at `newpath`: the answer is the request to
/// the file layer. The call is refused where the process is not live or a
/// name cannot be read.
pub fn sys_link_at(
    kernel: &Kernel,
    task: usize,
    _olddirfd: i32,
    oldpath: u64,
    _newdirfd: i32,
    newpath: u64,
    _flags: u32,
) -> (res: Result<IoRequest, ()>)
    requires
        kernel.wf(),
    ensures
        sys_link_at_post(kernel, task, oldpath, newpath, res),
{
    let old_path = match user_cstring(kernel, task, oldpath) {
        None => {
            return Err(());
        },
        Some(p) => p,
    };
    let new_path = match user_cstring(kernel, task, newpath) {
        None => {
            return Err(());
        },
        Some(p) => p,
    };
    Ok(IoRequest::Link { old_path, new_path })
}

/// Whether `res` is what [`sys_unlink_at`] gives for these arguments in `k_old`.
pub open spec fn sys_unlink_at_post(
    k_old: &Kernel,
    task: usize,
    path: u64,
    res: Result<IoRequest, ()>,
) -> bool {
    &&& res is Ok <==> k_old.live(task) && cstring_at(
        &k_old.task(task).inner.addr_space,
        path,
    ) is Some
    &&& res matches Ok(req) ==> {
        &&& req matches IoRequest::Unlink { path: p }
        &&& Some(p@) == cstring_at(&k_old.task(task).inner.addr_space, path)
    }
}

/// Process `task` asks for the name that stands at `path` to be taken away:
/// the answer is the request to the file layer. The call is refused where
/// the process is not live or the name cannot be read.
pub fn sys_unlink_at(kernel: &Kernel, task: usize, _dirfd: i32, path: u64, _flags: u32) -> (res:
    Result<IoRequest, ()>)
    requires
        kernel.wf(),
    ensures
        sys_unlink_at_post(kernel, task, path, res),
{
    match user_cstring(kernel, task, path) {
        None => Err(()),
        Some(p) => Ok(IoRequest::Unlink { path: p }),
    }
}

/// Whether `res` is what [`sys_open_at`] gives for these arguments in `k_old`.
pub open spec fn sys_open_at_post(
    k_old: &Kernel,
    task: usize,
    path: u64,
    flags: u32,
    res: Result<IoRequest, ()>,
) -> bool {
    &&& res is Ok <==> {
        &&& k_old.live(task)
        &&& cstring_at(&k_old.task(task).inner.addr_space, path) is Some
        &&& flags & !OPEN_FLAGS == 0
    }
    &&& res matches Ok(req) ==> {
        &&& req matches IoRequest::Open { path: p, flags: f }
        &&& Some(p@) == cstring_at(&k_old.task(task).inner.addr_space, path)
        &&& f == flags
    }
}

/// Process `task` asks to open the file whose name stands at `path`, with
/// `flags`: the answer is the request to the file layer. The call is refused
/// where the process is not live, the name cannot be read, or `flags` holds
/// a flag that is none of write only, read and write, create and truncate.
pub fn sys_open_at(
    kernel: &Kernel,
    task: usize,
    _at_fdcwd: usize,
    path: u64,
    flags: u32,
    _mode: u32,
) -> (res: Result<IoRequest, ()>)
    requires
        kernel.wf(),
    ensures
        sys_open_at_post(kernel, task, path, flags, res),
{
    let p = match user_cstring(kernel, task, path) {
        None => {
            return Err(());
        },
        Some(p) => p,
    };
    if flags & !OPEN_FLAGS != 0 {
        return Err(());
    }
    Ok(IoRequest::Open { path: p, flags })
}

/// Process `t` with the file table `table`.
pub open spec fn with_files(t: Task, table: Seq<Option<OpenFile>>, after: Task) -> bool {
    &&& after.pid == t.pid
    &&& after.start_time_ms == t.start_time_ms
    &&& after.kernel_stack == t.kernel_stack
    &&& after.inner.fd_table@ == table
    &&& after.inner == (TaskInner { fd_table: after.inner.fd_table, ..t.inner })
}

/// Whether `res` and `k_new` are what [`sys_close`] gives for these arguments
/// and makes of `k_old`.
pub open spec fn sys_close_post(
    k_old: &Kernel,
    k_new: &Kernel,
    task: usize,
    fd: usize,
    res: SyscallResult,
) -> bool {
    &&& res is Ok <==> k_old.live(task) && k_old.file_at(task, fd as int) is Some
    &&& res matches Ok(v) ==> v == 0
    &&& !(k_old.live(task) && fd < k_old.task(task).inner.fd_table@.len())
        ==> *k_new == *k_old
    &&& k_old.live(task) && fd < k_old.task(task).inner.fd_table@.len() ==> {
        &&& k_new.only_inner_changed(k_old, task)
        &&& k_new.frames == k_old.frames
        &&& with_files(
            k_old.task(task),
            k_old.task(task).inner.fd_table@.remove(fd as int),
            k_new.task(task),
        )
    }
}

/// Process `task` closes slot `fd` of its file table: the slot leaves the
/// table and the slots after it move down by one. The answer is 0 where the
/// slot held a file. The call is refused where the slot held no file, and,
/// with nothing changed, where the process is not live or the slot does not
/// exist.
pub fn sys_close(kernel: &mut Kernel, task: usize, fd: usize) -> (res: SyscallResult)
    requires
        old(kernel).wf(),
    ensures
        final(kernel).wf(),
        sys_close_post(old(kernel), final(kernel), task, fd, res),
{
    let idx = match kernel.find(task) {
        None => {
            return Err(());
        },
        Some(idx) => idx,
    };
    if fd >= kernel.tasks[idx].inner.fd_table.len() {
        return Err(());
    }
    let removed = kernel.tasks[idx].inner.fd_table.remove(fd);
    proof {
        assert(old(kernel).task_ok(&old(kernel).tasks@[idx as int]));
        assert(kernel.tasks@ =~= old(kernel).tasks@.update(idx as int, kernel.tasks@[idx as int]));
        lemma_update_keeps(old(kernel), kernel, idx as int);
        crate::frames::lemma_frames_ok_update(old(kernel), kernel, idx as int);
        assert(kernel.all_live(kernel.manager.task_list@) == old(kernel).all_live(
            kernel.manager.task_list@,
        ));
        assert(kernel.all_live(kernel.batch@) == old(kernel).all_live(kernel.batch@));
        lemma_task_at(kernel.tasks@, idx as int);
    }
    match removed {
        Some(_) => Ok(0),
        None => Err(()),
    }
}

/// What `written` bytes written give the caller: their number.
pub fn finish_write(written: usize) -> (res: SyscallResult)
    ensures
        res == if written <= i64::MAX {
            Ok::<i64, ()>(written as i64)
        } else {
            Err::<i64, ()>(())
        },
{
    if written as u64 <= i64::MAX as u64 {
        Ok(written as i64)
    } else {
        Err(())
    }
}

/// The first `n` bytes of `data`.
fn take_bytes(data: &Vec<u8>, n: usize) -> (out: Vec<u8>)
    requires
        n <= data@.len(),
    ensures
        out@ == data@.take(n as int),
{
    let mut out: Vec<u8> = Vec::new();
    let mut i: usize = 0;
    while i < n
        invariant
            i <= n <= data@.len(),
            out@ == data@.take(i as int),
        decreases n - i,
    {
        out.push(data[i]);
        proof {
            assert(out@ =~= data@.take(i + 1));
        }
        i += 1;
    }
    out
}

/// How many of `got` bytes read fit a buffer of `len` bytes.
pub open spec fn read_count(got: nat, len: usize) -> nat {
    if got <= len {
        got
    } else {
        len as nat
    }
}

/// Takes the bytes `data` that the file layer read for a read of up to `len`
/// bytes into `buf`: as many of them as the buffer holds are stored at
/// `buf` in the memory of process `task`, and the answer is their number. The
/// call is refused, with nothing changed, where the process is not live or
/// the bytes cannot be stored.
pub fn finish_read(kernel: &mut Kernel, task: usize, buf: u64, len: usize, data: &Vec<u8>) -> (res:
    SyscallResult)
    requires
        old(kernel).wf(),
    ensures
        final(kernel).wf(),
        res is Ok <==> {
            &&& old(kernel).live(task)
            &&& read_count(data@.len(), len) <= i64::MAX
            &&& old(kernel).task(task).inner.addr_space.range_mapped(
                buf,
                read_count(data@.len(), len),
            )
        },
        res is Err ==> final(kernel).unchanged(old(kernel)),
        res matches Ok(v) ==> {
            &&& v == read_count(data@.len(), len)
            &&& final(kernel).wrote(old(kernel), task, buf, data@.take(v as int))
        },
{
    let n = if data.len() <= len { data.len() } else { len };
    if n as u64 > i64::MAX as u64 {
        return Err(());
    }
    let bytes = take_bytes(data, n);
    match copy_out(kernel, task, buf, &bytes) {
        Err(_) => Err(()),
        Ok(_) => Ok(n as i64),
    }
}

/// Takes what the file layer said about the inode behind a file: the
/// record of the inode is stored at `st_user` in the memory of process
/// `task`, and the answer is 0. The call is refused, with nothing changed,
/// where the file has no inode, the process is not live, or the record
/// cannot be stored.
pub fn finish_fstat(kernel: &mut Kernel, task: usize, st_user: u64, inode: Option<InodeInfo>) -> (res:
    SyscallResult)
    requires
        old(kernel).wf(),
    ensures
        final(kernel).wf(),
        res is Ok <==> {
            &&& inode is Some
            &&& old(kernel).live(task)
            &&& old(kernel).task(task).inner.addr_space.range_mapped(st_user, STAT_SIZE as nat)
        },
        res is Err ==> final(kernel).unchanged(old(kernel)),
        res matches Ok(v) ==> {
            &&& v == 0
            &&& exists|st: Stat|
                {
                    &&& st.dev == 0
                    &&& st.ino == inode.unwrap().inode_id
                    &&& st.mode.bits == if inode.unwrap().is_dir {
                        STAT_DIR
                    } else {
                        STAT_FILE
                    }
                    &&& st.nlink == inode.unwrap().link_cnt
                    &&& #[trigger] final(kernel).wrote(old(kernel), task, st_user, st.spec_bytes())
                }
        },
{
    let info = match inode {
        None => {
            return Err(());
        },
        Some(info) => info,
    };
    let st = Stat::new(info);
    let bytes = st.to_bytes();
    match copy_out(kernel, task, st_user, &bytes) {
        Err(_) => Err(()),
        Ok(_) => Ok(0),
    }
}

/// What a link or unlink gives the caller: 0 where the file layer did it.
pub fn finish_path_op(done: bool) -> (res: SyscallResult)
    ensures
        res == if done {
            Ok::<i64, ()>(0i64)
        } else {
            Err::<i64, ()>(())
        },
{
    if done {
        Ok(0)
    } else {
        Err(())
    }
}

/// Takes the file that the file layer opened: it goes into a new slot at the
/// end of the file table of process `task`, and the answer is the number of
/// the slot. The call is refused, with nothing changed, where the file layer
/// opened no file, the process is not live, or the table is full.
pub fn finish_open(kernel: &mut Kernel, task: usize, file: Option<OpenFile>) -> (res: SyscallResult)
    requires
        old(kernel).wf(),
    ensures
        final(kernel).wf(),
        res is Ok <==> file is Some && old(kernel).live(task) && old(kernel).task(
            task,
        ).inner.fd_table@.len() < i64::MAX,
        res is Err ==> *final(kernel) == *old(kernel),
        res matches Ok(v) ==> {
            &&& v == old(kernel).task(task).inner.fd_table@.len()
            &&& final(kernel).only_inner_changed(old(kernel), task)
            &&& final(kernel).frames == old(kernel).frames
            &&& with_files(
                old(kernel).task(task),
                old(kernel).task(task).inner.fd_table@.push(file),
                final(kernel).task(task),
            )
        },
{
    let file = match file {
        None => {
            return Err(());
        },
        Some(file) => file,
    };
    let idx = match kernel.find(task) {
        None => {
            return Err(());
        },
        Some(idx) => idx,
    };
    let fd = kernel.tasks[idx].inner.fd_table.len();
    if fd as u64 >= i64::MAX as u64 {
        return Err(());
    }
    kernel.tasks[idx].inner.fd_table.push(Some(file));
    proof {
        assert(old(kernel).task_ok(&old(kernel).tasks@[idx as int]));
        assert(kernel.tasks@ =~= old(kernel).tasks@.update(idx as int, kernel.tasks@[idx as int]));
        lemma_update_keeps(old(kernel), kernel, idx as int);
        crate::frames::lemma_frames_ok_update(old(kernel), kernel, idx as int);
        assert(kernel.all_live(kernel.manager.task_list@) == old(kernel).all_live(
            kernel.manager.task_list@,
        ));
        assert(kernel.all_live(kernel.batch@) == old(kernel).all_live(kernel.batch@));
        lemma_task_at(kernel.tasks@, idx as int);
    }
    Ok(fd as i64)
}

} // verus!
