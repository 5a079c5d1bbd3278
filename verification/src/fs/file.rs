//! Open files of every kind, and what each kind does for the file operations.
use vstd::prelude::*;
use super::stat::{FileStat, zero_stat};
use super::tmpfs::{TmpFs, NodeV, file_data_set};
use super::tmpfile::{TmpFile, TmpDir, tmp_read_rel, tmp_write_rel, tmp_seek_rel, tmp_truncate_rel,
    tmp_read_at_spec, tmp_write_at_rel};
use super::pipe::{Pipe, PipeInner, pipe_read_rel, pipe_write_rel, pipe_stat, PIPE_BUF_SIZE, FIONBIO};
use super::socket::{Socket, FIONREAD};
use super::eventfd::{EventFd, event_read_rel, event_write_rel};
use crate::syscall::epoll::EpollFd;
use crate::net::{socket_send, socket_recv, send_rel, recv_rel};

verus! {

/// What open files share: the root file system, the pipe table, the console output and
/// the clock.
pub struct FileCtx {
    pub fs: TmpFs,
    pub pipes: Vec<PipeInner>,
    /// Everything written to standard output and standard error, in order.
    pub console: Vec<u8>,
    /// Milliseconds since boot.
    pub now_ms: u64,
}

/// Standard input: there is no keyboard input, so a read finds nothing; it cannot be
/// written.
pub struct Stdin;

/// Standard output: what is written goes to the console.
pub struct Stdout;

/// Standard error: what is written goes to the console too.
pub struct Stderr;

/// Appends `buf` to the console output; the count of bytes written.
fn console_write(console: &mut Vec<u8>, buf: &[u8]) -> (r: isize)
    requires buf@.len() <= isize::MAX,
    ensures final(console)@ == old(console)@ + buf@, r == buf@.len(),
{
    let mut i: usize = 0;
    while i < buf.len()
        invariant
            i <= buf@.len(),
            console@ == old(console)@ + buf@.take(i as int),
        decreases buf@.len() - i,
    {
        console.push(buf[i]);
        assert(buf@.take(i + 1) =~= buf@.take(i as int).push(buf@[i as int]));
        i = i + 1;
    }
    assert(buf@.take(i as int) =~= buf@);
    buf.len() as isize
}

impl Stdin {
    pub fn read(&self, len: usize) -> (r: (isize, Vec<u8>))
        ensures r.0 == 0, r.1@ == Seq::<u8>::empty(),
    {
        (0, Vec::new())
    }

    pub fn write(&self, buf: &[u8]) -> (r: isize)
        ensures r == -1,
    {
        -1
    }

    pub fn stat(&self) -> (st: FileStat)
        ensures st == (FileStat { st_mode: 0o20644u32, ..zero_stat() }),
    {
        FileStat::with_mode(0o20644u32)
    }

    pub fn is_readable(&self) -> (r: bool)
        ensures r,
    {
        true
    }

    pub fn is_writable(&self) -> (r: bool)
        ensures !r,
    {
        false
    }
}

impl Stdout {
    pub fn read(&self, len: usize) -> (r: (isize, Vec<u8>))
        ensures r.0 == -1, r.1@ == Seq::<u8>::empty(),
    {
        (-1, Vec::new())
    }

    /// Writes all of `buf` to the console.
    pub fn write(&self, console: &mut Vec<u8>, buf: &[u8]) -> (r: isize)
        requires buf@.len() <= isize::MAX,
        ensures final(console)@ == old(console)@ + buf@, r == buf@.len(),
    {
        console_write(console, buf)
    }

    pub fn stat(&self) -> (st: FileStat)
        ensures st == (FileStat { st_mode: 0o20644u32, ..zero_stat() }),
    {
        FileStat::with_mode(0o20644u32)
    }

    pub fn is_readable(&self) -> (r: bool)
        ensures !r,
    {
        false
    }

    pub fn is_writable(&self) -> (r: bool)
        ensures r,
    {
        true
    }
}

impl Stderr {
    pub fn read(&self, len: usize) -> (r: (isize, Vec<u8>))
        ensures r.0 == -1, r.1@ == Seq::<u8>::empty(),
    {
        (-1, Vec::new())
    }

    /// Writes all of `buf` to the console.
    pub fn write(&self, console: &mut Vec<u8>, buf: &[u8]) -> (r: isize)
        requires buf@.len() <= isize::MAX,
        ensures final(console)@ == old(console)@ + buf@, r == buf@.len(),
    {
        console_write(console, buf)
    }

    pub fn stat(&self) -> (st: FileStat)
        ensures st == (FileStat { st_mode: 0o20644u32, ..zero_stat() }),
    {
        FileStat::with_mode(0o20644u32)
    }

    pub fn is_readable(&self) -> (r: bool)
        ensures !r,
    {
        false
    }

    pub fn is_writable(&self) -> (r: bool)
        ensures r,
    {
        true
    }
}

/// An open file.
pub enum FileObject {
    Stdin,
    Stdout,
    Stderr,
    Tmp(TmpFile),
    Dir(TmpDir),
    Pipe(Pipe),
    Socket(Socket),
    Event(EventFd),
    Epoll(EpollFd),
}

/// `p1` is `p0` but for the entry at `i`.
pub open spec fn pipes_except(p0: Seq<PipeInner>, p1: Seq<PipeInner>, i: int) -> bool {
    &&& p1.len() == p0.len()
    &&& forall|j: int| 0 <= j < p0.len() && j != i ==> #[trigger] p1[j] == p0[j]
}

/// `c1` is `c0` with only the pipe at `i` changed.
pub open spec fn ctx_pipe_changed(c0: FileCtx, c1: FileCtx, i: int) -> bool {
    &&& pipes_except(c0.pipes@, c1.pipes@, i)
    &&& c1.fs == c0.fs
    &&& c1.console == c0.console
    &&& c1.now_ms == c0.now_ms
}

impl FileCtx {
    pub open spec fn wf(&self) -> bool {
        self.fs.wf()
    }
}

impl FileObject {
    /// A pipe end refers to a pipe of the table.
    pub open spec fn obj_wf(&self, npipes: int) -> bool {
        match self {
            FileObject::Pipe(p) => p.inner < npipes,
            _ => true,
        }
    }

    /// A write of `n` bytes keeps the file's size and offset within `usize`.
    pub open spec fn write_fits(&self, n: int) -> bool {
        match self {
            FileObject::Tmp(f) => f.data@.len() + n <= usize::MAX && f.offset as usize + n <= usize::MAX,
            _ => true,
        }
    }

    /// A write of `n` bytes at `offset` keeps the file's size within `usize`.
    pub open spec fn write_at_fits(&self, offset: u64, n: int) -> bool {
        match self {
            FileObject::Tmp(f) => offset as usize + n <= usize::MAX && f.write_fits_all(n),
            _ => self.write_fits(n),
        }
    }
}

impl TmpFile {
    pub open spec fn write_fits_all(&self, n: int) -> bool {
        self.data@.len() + n <= usize::MAX && self.offset as usize + n <= usize::MAX
    }
}

/// What a read of `len` bytes does: the result, the file after it and the shared state after it.
pub open spec fn read_post(o0: FileObject, o1: FileObject, c0: FileCtx, c1: FileCtx, len: usize, r: (isize, Seq<u8>)) -> bool {
    match o0 {
        FileObject::Stdin => r.0 == 0 && r.1 == Seq::<u8>::empty() && o1 == o0 && c1 == c0,
        FileObject::Tmp(f0) => (o1 matches FileObject::Tmp(f1) && tmp_read_rel(f0, f1, len, r)) && c1 == c0,
        FileObject::Pipe(p) => o1 == o0 && if p.is_read_end {
            ctx_pipe_changed(c0, c1, p.inner as int) && pipe_read_rel(c0.pipes@[p.inner as int], c1.pipes@[p.inner as int], len, r)
        } else {
            r.0 == -1 && r.1 == Seq::<u8>::empty() && c1 == c0
        },
        FileObject::Socket(s0) => (o1 matches FileObject::Socket(s1) && recv_rel(s0, s1, len, r)) && c1 == c0,
        FileObject::Event(e0) => (o1 matches FileObject::Event(e1) && event_read_rel(e0, e1, len, r)) && c1 == c0,
        _ => r.0 == -1 && r.1 == Seq::<u8>::empty() && o1 == o0 && c1 == c0,
    }
}

/// What a write of `buf` does.
pub open spec fn write_post(o0: FileObject, o1: FileObject, c0: FileCtx, c1: FileCtx, buf: Seq<u8>, r: isize) -> bool {
    match o0 {
        FileObject::Stdout | FileObject::Stderr => {
            &&& r == buf.len() && o1 == o0
            &&& c1.console@ == c0.console@ + buf
            &&& c1.fs == c0.fs && c1.pipes == c0.pipes && c1.now_ms == c0.now_ms
        },
        FileObject::Tmp(f0) => {
            &&& o1 matches FileObject::Tmp(f1) && tmp_write_rel(f0, f1, buf, r)
                && (if f0.writable { file_data_set(c0.fs, c1.fs, f1.path@, f1.data@) } else { c1.fs == c0.fs })
            &&& c1.pipes == c0.pipes && c1.console == c0.console && c1.now_ms == c0.now_ms
        },
        FileObject::Pipe(p) => o1 == o0 && if p.is_read_end {
            r == -1 && c1 == c0
        } else {
            ctx_pipe_changed(c0, c1, p.inner as int) && pipe_write_rel(c0.pipes@[p.inner as int], c1.pipes@[p.inner as int], buf, r)
        },
        FileObject::Socket(s0) => (o1 matches FileObject::Socket(s1) && send_rel(s0, s1, buf, r)) && c1 == c0,
        FileObject::Event(e0) => (o1 matches FileObject::Event(e1) && event_write_rel(e0, e1, buf, r)) && c1 == c0,
        _ => r == -1 && o1 == o0 && c1 == c0,
    }
}

/// What `stat` reports for an open file at time `now_ms`.
pub open spec fn stat_of(o: FileObject, now_ms: u64) -> FileStat {
    match o {
        FileObject::Stdin | FileObject::Stdout | FileObject::Stderr => FileStat { st_mode: 0o20644u32, ..zero_stat() },
        FileObject::Tmp(f) => FileStat {
            st_dev: 1,
            st_ino: f.ino,
            st_mode: 0o100000u32 | 0o644u32,
            st_nlink: 1,
            st_size: f.data@.len() as i64,
            st_blksize: 4096,
            st_blocks: ((f.data@.len() + 511) / 512) as i64,
            st_atime: (now_ms / 1000) as i64,
            st_mtime: (now_ms / 1000) as i64,
            st_ctime: (now_ms / 1000) as i64,
            ..zero_stat()
        },
        FileObject::Dir(_) => FileStat {
            st_mode: 0o040000u32 | 0o755u32,
            st_nlink: 2,
            st_blksize: 4096,
            st_atime: (now_ms / 1000) as i64,
            st_mtime: (now_ms / 1000) as i64,
            st_ctime: (now_ms / 1000) as i64,
            ..zero_stat()
        },
        FileObject::Pipe(_) => FileStat { st_mode: 0o010644u32, ..zero_stat() },
        FileObject::Socket(_) => FileStat { st_mode: 0o140777u32, ..zero_stat() },
        FileObject::Event(_) => FileStat { st_mode: 0o20600u32, ..zero_stat() },
        FileObject::Epoll(_) => FileStat { st_mode: 0o100600u32, ..zero_stat() },
    }
}

/// Whether a read would find something (or the end of the file) right away.
/// A pipe's read end is reported readable exactly when a read from it would not fail with
/// EAGAIN (-11): data is waiting, or no writer is left and the read gives end of file.
pub proof fn lemma_pipe_ready_iff_read_proceeds(p: Pipe, pipes: Seq<PipeInner>, p1: PipeInner, len: usize, r: (isize, Seq<u8>))
    requires
        0 <= p.inner < pipes.len(),
        pipe_read_rel(pipes[p.inner as int], p1, len, r),
    ensures can_read_spec(FileObject::Pipe(p), pipes) <==> r.0 != -11,
{
}

pub open spec fn can_read_spec(o: FileObject, pipes: Seq<PipeInner>) -> bool {
    match o {
        FileObject::Stdin => true,
        FileObject::Tmp(f) => f.readable,
        FileObject::Pipe(p) => pipes[p.inner as int].buf@.len() > 0 || pipes[p.inner as int].writer_count == 0,
        FileObject::Socket(s) => s.inner.handle.is_none()
            && !(s.inner.listening && (s.inner.local_addr matches Some(a) && a.port > 0))
            && s.inner.recv_buf@.len() > 0,
        FileObject::Event(e) => e.counter > 0,
        _ => false,
    }
}

/// Whether a write would be taken right away.
pub open spec fn can_write_spec(o: FileObject, pipes: Seq<PipeInner>) -> bool {
    match o {
        FileObject::Stdout | FileObject::Stderr => true,
        FileObject::Tmp(f) => f.writable,
        FileObject::Pipe(p) => pipes[p.inner as int].buf@.len() < PIPE_BUF_SIZE && pipes[p.inner as int].reader_count > 0,
        FileObject::Socket(s) => s.inner.connected,
        FileObject::Event(_) => true,
        _ => false,
    }
}

/// Whether the file is in non-blocking mode.
pub open spec fn nonblock_spec(o: FileObject, pipes: Seq<PipeInner>) -> bool {
    match o {
        FileObject::Tmp(f) => f.nonblock,
        FileObject::Pipe(p) => pipes[p.inner as int].nonblock,
        FileObject::Socket(s) => s.inner.nonblock,
        FileObject::Event(_) => true,
        _ => false,
    }
}

/// What device request `request` (with `val`, the int its argument points to) does to an
/// open file and the context, and gives. Pipes take FIONBIO and answer 0 to every request;
/// sockets take FIONBIO and FIONREAD (the count to store is the second result); event
/// counters answer 0; on the others the call is a stub that answers 0.
pub open spec fn ioctl_post(o0: FileObject, o1: FileObject, c0: FileCtx, c1: FileCtx, request: u64, val: i32, r: (isize, Option<i32>)) -> bool {
    match o0 {
        FileObject::Pipe(p) => {
            &&& r == (0isize, Option::<i32>::None) && o1 == o0
            &&& ctx_pipe_changed(c0, c1, p.inner as int)
            &&& c1.pipes@[p.inner as int].buf@ == c0.pipes@[p.inner as int].buf@
            &&& c1.pipes@[p.inner as int].writer_count == c0.pipes@[p.inner as int].writer_count
            &&& c1.pipes@[p.inner as int].reader_count == c0.pipes@[p.inner as int].reader_count
            &&& c1.pipes@[p.inner as int].nonblock
                == (if request == FIONBIO { val != 0 } else { c0.pipes@[p.inner as int].nonblock })
        },
        FileObject::Socket(s0) => {
            &&& o1 matches FileObject::Socket(s1) && r.0 == 0
                && (request == FIONBIO ==> s1.inner.nonblock == (val != 0) && r.1.is_none())
                && (request == FIONREAD ==> r.1 == Some(s0.inner.recv_buf@.len() as i32) && s1.inner.nonblock == s0.inner.nonblock)
                && (request != FIONBIO && request != FIONREAD ==> r.1.is_none() && s1.inner.nonblock == s0.inner.nonblock)
                && s1.inner.recv_buf@ == s0.inner.recv_buf@ && s1.inner.send_buf@ == s0.inner.send_buf@
                && s1.inner.connected == s0.inner.connected && s1.inner.listening == s0.inner.listening
                && s1.inner.handle == s0.inner.handle && s1.inner.local_addr == s0.inner.local_addr
            &&& c1 == c0
        },
        FileObject::Event(_) => r == (0isize, Option::<i32>::None) && o1 == o0 && c1 == c0,
        _ => r == (0isize, Option::<i32>::None) && o1 == o0 && c1 == c0,
    }
}

impl FileObject {
    /// Whether a write of `n` bytes fits (see `write_fits`).
    pub fn fits(&self, n: usize) -> (r: bool)
        ensures r == self.write_fits(n as int),
    {
        match self {
            FileObject::Tmp(f) => f.data.len() <= usize::MAX - n && (f.offset as usize) <= usize::MAX - n,
            _ => true,
        }
    }

    pub fn read(&mut self, ctx: &mut FileCtx, len: usize) -> (r: (isize, Vec<u8>))
        requires
            len <= isize::MAX,
            old(self).obj_wf(old(ctx).pipes@.len() as int),
        ensures
            read_post(*old(self), *final(self), *old(ctx), *final(ctx), len, (r.0, r.1@)),
    {
        match self {
            FileObject::Stdin => Stdin.read(len),
            FileObject::Tmp(f) => f.read(len),
            FileObject::Pipe(p) => {
                if p.is_read_end {
                    ctx.pipes[p.inner].read(len)
                } else {
                    (-1, Vec::new())
                }
            },
            FileObject::Socket(s) => socket_recv(s, len, 0),
            FileObject::Event(e) => e.read(len),
            _ => (-1, Vec::new()),
        }
    }

    pub fn write(&mut self, ctx: &mut FileCtx, buf: &[u8]) -> (r: isize)
        requires
            buf@.len() <= isize::MAX,
            old(self).obj_wf(old(ctx).pipes@.len() as int),
            old(self).write_fits(buf@.len() as int),
            old(ctx).wf(),
        ensures
            write_post(*old(self), *final(self), *old(ctx), *final(ctx), buf@, r),
    {
        match self {
            FileObject::Stdout => Stdout.write(&mut ctx.console, buf),
            FileObject::Stderr => Stderr.write(&mut ctx.console, buf),
            FileObject::Tmp(f) => {
                let r = f.write(buf);
                if r >= 0 {
                    ctx.fs.set_file_data(f.path.as_slice(), f.data.as_slice());
                }
                r
            },
            FileObject::Pipe(p) => {
                if p.is_read_end {
                    -1
                } else {
                    ctx.pipes[p.inner].write(buf)
                }
            },
            FileObject::Socket(s) => socket_send(s, buf, 0),
            FileObject::Event(e) => e.write(buf),
            _ => -1,
        }
    }

    /// Reads at `offset` without moving a regular file's offset; the other kinds read as `read` does.
    pub fn read_at(&mut self, ctx: &mut FileCtx, offset: u64, len: usize) -> (r: (isize, Vec<u8>))
        requires
            len <= isize::MAX,
            old(self).obj_wf(old(ctx).pipes@.len() as int),
        ensures
            *old(self) matches FileObject::Tmp(f) ==> tmp_read_at_spec(f, offset, len, (r.0, r.1@))
                && *final(self) == *old(self) && *final(ctx) == *old(ctx),
            !(*old(self) matches FileObject::Tmp(_)) ==> read_post(*old(self), *final(self), *old(ctx), *final(ctx), len, (r.0, r.1@)),
    {
        match self {
            FileObject::Tmp(f) => f.read_at(offset, len),
            _ => self.read(ctx, len),
        }
    }

    /// Writes at `offset` without moving a regular file's offset; the other kinds write as `write` does.
    pub fn write_at(&mut self, ctx: &mut FileCtx, offset: u64, buf: &[u8]) -> (r: isize)
        requires
            buf@.len() <= isize::MAX,
            old(self).obj_wf(old(ctx).pipes@.len() as int),
            old(self).write_at_fits(offset, buf@.len() as int),
            old(ctx).wf(),
        ensures
            *old(self) matches FileObject::Tmp(f0) ==> {
                &&& *final(self) matches FileObject::Tmp(f1) && tmp_write_at_rel(f0, f1, offset, buf@, r)
                    && (if f0.writable { file_data_set(old(ctx).fs, final(ctx).fs, f1.path@, f1.data@) } else { final(ctx).fs == old(ctx).fs })
                &&& final(ctx).pipes == old(ctx).pipes && final(ctx).console == old(ctx).console && final(ctx).now_ms == old(ctx).now_ms
            },
            !(*old(self) matches FileObject::Tmp(_)) ==> write_post(*old(self), *final(self), *old(ctx), *final(ctx), buf@, r),
    {
        match self {
            FileObject::Tmp(f) => {
                let r = f.write_at(offset, buf);
                if r >= 0 {
                    ctx.fs.set_file_data(f.path.as_slice(), f.data.as_slice());
                }
                r
            },
            _ => self.write(ctx, buf),
        }
    }

    pub fn stat(&self, now_ms: u64) -> (st: FileStat)
        ensures st == stat_of(*self, now_ms),
    {
        match self {
            FileObject::Stdin => Stdin.stat(),
            FileObject::Stdout => Stdout.stat(),
            FileObject::Stderr => Stderr.stat(),
            FileObject::Tmp(f) => f.stat(now_ms),
            FileObject::Dir(d) => d.stat(now_ms),
            FileObject::Pipe(_) => pipe_stat(),
            FileObject::Socket(s) => s.stat(),
            FileObject::Event(e) => e.stat(),
            FileObject::Epoll(e) => e.stat(),
        }
    }

    /// Moves a regular file's offset; the other kinds refuse with -1.
    pub fn seek(&mut self, offset: i64, whence: i32) -> (r: i64)
        ensures
            *old(self) matches FileObject::Tmp(f0) ==> (*final(self) matches FileObject::Tmp(f1) && tmp_seek_rel(f0, f1, offset, whence, r)),
            !(*old(self) matches FileObject::Tmp(_)) ==> r == -1 && *final(self) == *old(self),
    {
        match self {
            FileObject::Tmp(f) => f.seek(offset, whence),
            _ => -1,
        }
    }

    /// Cuts or grows a regular file (and its node in the file system); the other kinds refuse with -1.
    pub fn truncate(&mut self, ctx: &mut FileCtx, size: u64) -> (r: isize)
        requires old(ctx).wf(), size <= usize::MAX,
        ensures
            *old(self) matches FileObject::Tmp(f0) ==> {
                &&& *final(self) matches FileObject::Tmp(f1) && tmp_truncate_rel(f0, f1, size, r)
                    && file_data_set(old(ctx).fs, final(ctx).fs, f1.path@, f1.data@)
                &&& final(ctx).pipes == old(ctx).pipes && final(ctx).console == old(ctx).console && final(ctx).now_ms == old(ctx).now_ms
            },
            !(*old(self) matches FileObject::Tmp(_)) ==> r == -1 && *final(self) == *old(self) && *final(ctx) == *old(ctx),
    {
        match self {
            FileObject::Tmp(f) => {
                let r = f.truncate(size);
                ctx.fs.set_file_data(f.path.as_slice(), f.data.as_slice());
                r
            },
            _ => -1,
        }
    }

    /// Device requests: see `ioctl_post`.
    pub fn ioctl(&mut self, ctx: &mut FileCtx, request: u64, val: i32) -> (r: (isize, Option<i32>))
        requires old(self).obj_wf(old(ctx).pipes@.len() as int),
        ensures ioctl_post(*old(self), *final(self), *old(ctx), *final(ctx), request, val, r),
    {
        match self {
            FileObject::Pipe(p) => {
                let r = ctx.pipes[p.inner].ioctl(request, val);
                (r, None)
            },
            FileObject::Socket(s) => s.ioctl(request, val),
            _ => (0, None),
        }
    }

    pub fn get_flags(&self) -> (r: i32)
        ensures r == (match *self { FileObject::Tmp(f) => f.flags, _ => 0i32 }),
    {
        match self {
            FileObject::Tmp(f) => f.get_flags(),
            _ => 0,
        }
    }

    pub fn set_flags(&mut self, flags: i32)
        ensures
            *old(self) matches FileObject::Tmp(f0) ==> *final(self) == FileObject::Tmp(TmpFile { flags, ..f0 }),
            !(*old(self) matches FileObject::Tmp(_)) ==> *final(self) == *old(self),
    {
        match self {
            FileObject::Tmp(f) => f.set_flags(flags),
            _ => {},
        }
    }

    pub fn is_directory(&self) -> (r: bool)
        ensures r == (*self matches FileObject::Dir(_)),
    {
        match self {
            FileObject::Dir(_) => true,
            _ => false,
        }
    }

    pub fn get_path(&self) -> (r: Option<Vec<u8>>)
        ensures
            match *self {
                FileObject::Tmp(f) => r matches Some(p) && p@ == f.path@,
                FileObject::Dir(d) => r matches Some(p) && p@ == d.path@,
                _ => r.is_none(),
            },
    {
        match self {
            FileObject::Tmp(f) => f.get_path(),
            FileObject::Dir(d) => Some(super::tmpfs::copy_bytes(d.path.as_slice())),
            _ => None,
        }
    }

    pub fn can_read(&self, ctx: &FileCtx) -> (r: bool)
        requires self.obj_wf(ctx.pipes@.len() as int),
        ensures r == can_read_spec(*self, ctx.pipes@),
    {
        match self {
            FileObject::Stdin => true,
            FileObject::Tmp(f) => f.readable,
            FileObject::Pipe(p) => ctx.pipes[p.inner].can_read(),
            FileObject::Socket(s) => s.can_read(),
            FileObject::Event(e) => e.can_read(),
            _ => false,
        }
    }

    pub fn can_write(&self, ctx: &FileCtx) -> (r: bool)
        requires self.obj_wf(ctx.pipes@.len() as int),
        ensures r == can_write_spec(*self, ctx.pipes@),
    {
        match self {
            FileObject::Stdout | FileObject::Stderr => true,
            FileObject::Tmp(f) => f.writable,
            FileObject::Pipe(p) => ctx.pipes[p.inner].can_write(),
            FileObject::Socket(s) => s.can_write(),
            FileObject::Event(_) => true,
            _ => false,
        }
    }

    /// No kind of file reports an error condition.
    pub fn has_error(&self) -> (r: bool)
        ensures !r,
    {
        false
    }

    pub fn is_nonblock(&self, ctx: &FileCtx) -> (r: bool)
        requires self.obj_wf(ctx.pipes@.len() as int),
        ensures r == nonblock_spec(*self, ctx.pipes@),
    {
        match self {
            FileObject::Tmp(f) => f.is_nonblock(),
            FileObject::Pipe(p) => ctx.pipes[p.inner].nonblock,
            FileObject::Socket(s) => s.is_nonblock(),
            FileObject::Event(_) => true,
            _ => false,
        }
    }

    /// The epoll instance this file is, if it is one.
    pub fn epoll_id(&self) -> (r: Option<usize>)
        ensures r == (match *self { FileObject::Epoll(e) => Some(e.id), _ => None }),
    {
        match self {
            FileObject::Epoll(e) => e.epoll_id(),
            _ => None,
        }
    }
}

} // verus!
