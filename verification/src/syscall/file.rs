//! File system calls of the running task.
use vstd::prelude::*;
use super::{Kernel, OpenFile, table_ok, files_except, tasks_except};
use super::errno::{EBADF, ENOENT, EINVAL, ENOTDIR, EFBIG};
use crate::fs::file::{FileObject, FileCtx, read_post, write_post, stat_of, pipes_except};
use crate::fs::stat::FileStat;
use crate::fs::pipe::{PipeInner, Pipe, create_pipe};
use crate::fs::tmpfs::{copy_bytes, Opened};
use crate::fs::tmpfile::{le_bytes, push_le};
use crate::task::task::{Task, same_but_fds, is_lowest_free, first_free, lemma_first_free};
use vstd::string::StringSliceAdditionalSpecFns;

verus! {

/// `dirfd` value that means "relative to the working directory".
pub const AT_FDCWD: i32 = -100;

/// The path of an open file or directory of the file system, if it has one.
pub open spec fn path_of(o: FileObject) -> Option<Seq<u8>> {
    match o {
        FileObject::Tmp(f) => Some(f.path@),
        FileObject::Dir(d) => Some(d.path@),
        _ => None,
    }
}

/// The path a call names with `dirfd` and `path`: an absolute path as it is; else relative
/// to the working directory (AT_FDCWD; an empty path or `.` is the directory itself) or to
/// the directory open under `dirfd`; left as it is when `dirfd` names no such directory.
pub open spec fn resolved(k: Kernel, dirfd: i32, path: Seq<u8>) -> Seq<u8> {
    if path.len() > 0 && path[0] == 47u8 {
        path
    } else if dirfd == AT_FDCWD {
        if path.len() == 0 || path == seq![46u8] { k.cur_task().cwd@ } else { k.cur_task().cwd@ + seq![47u8] + path }
    } else if dirfd < 0 {
        path
    } else {
        match k.fd_obj(dirfd as int) {
            Some(id) => match path_of(k.files@[id as int].obj) {
                Some(d) => d + seq![47u8] + path,
                None => path,
            },
            None => path,
        }
    }
}

fn concat3(a: &[u8], b: u8, c: &[u8]) -> (r: Vec<u8>)
    ensures r@ == a@ + seq![b] + c@,
{
    let mut r = copy_bytes(a);
    r.push(b);
    let mut i: usize = 0;
    let ghost base = r@;
    while i < c.len()
        invariant
            i <= c@.len(),
            base == a@ + seq![b],
            r@ == base + c@.take(i as int),
        decreases c@.len() - i,
    {
        r.push(c[i]);
        assert(c@.take(i + 1) =~= c@.take(i as int).push(c@[i as int]));
        i = i + 1;
    }
    assert(c@.take(i as int) =~= c@);
    r
}

/// Resolves `path` against `dirfd` as the `*at` calls do.
pub fn resolve_path(k: &Kernel, dirfd: i32, path: &[u8]) -> (r: Vec<u8>)
    requires k.running(),
    ensures r@ == resolved(*k, dirfd, path@),
{
    if path.len() > 0 && path[0] == 47u8 {
        return copy_bytes(path);
    }
    let i = k.current.unwrap();
    if dirfd == AT_FDCWD {
        let cwd = &k.manager.tasks[i].cwd;
        if path.len() == 0 || (path.len() == 1 && path[0] == 46u8) {
            proof { if path.len() == 1 { assert(path@ =~= seq![46u8]); } }
            return copy_bytes(cwd.as_slice());
        }
        proof { assert(path@ != seq![46u8]); }
        return concat3(cwd.as_slice(), 47u8, path);
    }
    if dirfd < 0 {
        return copy_bytes(path);
    }
    match k.lookup(dirfd as usize) {
        Some(id) => match k.files[id].obj.get_path() {
            Some(d) => concat3(d.as_slice(), 47u8, path),
            None => copy_bytes(path),
        },
        None => copy_bytes(path),
    }
}

proof fn lemma_obj_change_ok(k0: Kernel, k1: Kernel, id: int)
    requires
        k0.wf(),
        k1.current == k0.current,
        k1.manager.tasks@ == k0.manager.tasks@,
        files_except(k0.files@, k1.files@, id),
        0 <= id < k0.files@.len(),
        k1.files@[id].obj.obj_wf(k1.ctx.pipes@.len() as int),
        k1.ctx.pipes@.len() == k0.ctx.pipes@.len(),
        k1.ctx.wf(),
    ensures k1.wf(),
{
    assert forall|i: int| 0 <= i < k1.manager.tasks@.len()
        implies table_ok(#[trigger] k1.manager.tasks@[i].fd_table@, k1.files@.len() as int) by {
        assert(table_ok(k0.manager.tasks@[i].fd_table@, k0.files@.len() as int));
    }
    assert forall|q: int| 0 <= q < k1.files@.len()
        implies (#[trigger] k1.files@[q]).obj.obj_wf(k1.ctx.pipes@.len() as int) by {
        if q != id { assert(k0.files@[q] == k1.files@[q]); }
    }
}

/// Reads up to `len` bytes from `fd`: EBADF (-9) when it is not open.
pub fn sys_read(k: &mut Kernel, fd: usize, len: usize) -> (r: (i64, Vec<u8>))
    requires old(k).running(), len <= isize::MAX,
    ensures
        final(k).running(),
        isize::MIN <= r.0 <= isize::MAX,
        old(k).fd_obj(fd as int).is_none() ==> r.0 == EBADF && r.1@.len() == 0 && *final(k) == *old(k),
        old(k).fd_obj(fd as int) matches Some(id) ==> {
            &&& final(k).file_changed(*old(k), id as int)
            &&& read_post(old(k).files@[id as int].obj, final(k).files@[id as int].obj, old(k).ctx, final(k).ctx, len, (r.0 as isize, r.1@))
        },
{
    let id = match k.lookup(fd) {
        Some(id) => id,
        None => return (EBADF, Vec::new()),
    };
    let r = k.files[id].obj.read(&mut k.ctx, len);
    proof { lemma_obj_change_ok(*old(k), *k, id as int); }
    (r.0 as i64, r.1)
}

/// The write of `n` bytes to `fd` keeps a regular file's size and offset within `usize`.
pub open spec fn write_fits(k: Kernel, fd: int, n: int) -> bool {
    k.fd_obj(fd) matches Some(id) ==> k.files@[id as int].obj.write_fits(n)
}

/// Writes `buf` to `fd`: EBADF (-9) when it is not open.
pub fn sys_write(k: &mut Kernel, fd: usize, buf: &[u8]) -> (r: i64)
    requires old(k).running(), buf@.len() <= isize::MAX, write_fits(*old(k), fd as int, buf@.len() as int),
    ensures
        final(k).running(),
        isize::MIN <= r <= isize::MAX,
        old(k).fd_obj(fd as int).is_none() ==> r == EBADF && *final(k) == *old(k),
        old(k).fd_obj(fd as int) matches Some(id) ==> {
            &&& final(k).file_changed(*old(k), id as int)
            &&& write_post(old(k).files@[id as int].obj, final(k).files@[id as int].obj, old(k).ctx, final(k).ctx, buf@, r as isize)
        },
{
    let id = match k.lookup(fd) {
        Some(id) => id,
        None => return EBADF,
    };
    let r = k.files[id].obj.write(&mut k.ctx, buf);
    proof { lemma_obj_change_ok(*old(k), *k, id as int); }
    r as i64
}

/// The descriptor table and the open files after the open file `id` lost a reference: when
/// none is left, a pipe end goes away from its pipe.
pub open spec fn released(f0: Seq<OpenFile>, c0: FileCtx, f1: Seq<OpenFile>, c1: FileCtx, id: int) -> bool {
    &&& files_except(f0, f1, id)
    &&& f1[id].obj == f0[id].obj
    &&& f1[id].refs == (if f0[id].refs > 0 { f0[id].refs - 1 } else { 0 })
    &&& c1.fs == c0.fs && c1.console == c0.console && c1.now_ms == c0.now_ms
    &&& if f0[id].refs == 1 && (f0[id].obj matches FileObject::Pipe(_)) {
        let p = f0[id].obj->Pipe_0;
        let q0 = c0.pipes@[p.inner as int];
        let q1 = c1.pipes@[p.inner as int];
        &&& pipes_except(c0.pipes@, c1.pipes@, p.inner as int)
        &&& q1.buf@ == q0.buf@ && q1.nonblock == q0.nonblock
        &&& p.is_read_end ==> q1.reader_count == (if q0.reader_count > 0 { q0.reader_count - 1 } else { 0 })
            && q1.writer_count == q0.writer_count
        &&& !p.is_read_end ==> q1.writer_count == (if q0.writer_count > 0 { q0.writer_count - 1 } else { 0 })
            && q1.reader_count == q0.reader_count
    } else {
        c1.pipes == c0.pipes
    }
}

impl Kernel {
    /// Drops one reference to open file `id`.
    pub fn release(&mut self, id: usize)
        requires old(self).wf(), id < old(self).files@.len(),
        ensures
            released(old(self).files@, old(self).ctx, final(self).files@, final(self).ctx, id as int),
            final(self).manager == old(self).manager,
            final(self).same_rest(*old(self)),
    {
        let refs = self.files[id].refs;
        self.files[id].refs = if refs > 0 { refs - 1 } else { 0 };
        if refs == 1 {
            match &self.files[id].obj {
                FileObject::Pipe(p) => {
                    proof { assert(self.files@[id as int].obj.obj_wf(self.ctx.pipes@.len() as int)); }
                    let inner = p.inner;
                    let is_read = p.is_read_end;
                    self.ctx.pipes[inner].release_end(is_read);
                },
                _ => {},
            }
        }
    }

    /// Adds one reference to open file `id` (stopping at the largest count).
    pub fn retain(&mut self, id: usize)
        requires id < old(self).files@.len(),
        ensures
            files_except(old(self).files@, final(self).files@, id as int),
            final(self).files@[id as int].obj == old(self).files@[id as int].obj,
            final(self).files@[id as int].refs == (if old(self).files@[id as int].refs == usize::MAX {
                usize::MAX } else { (old(self).files@[id as int].refs + 1) as usize }),
            final(self).manager == old(self).manager,
            final(self).ctx == old(self).ctx,
            final(self).same_rest(*old(self)),
    {
        let refs = self.files[id].refs;
        self.files[id].refs = if refs == usize::MAX { usize::MAX } else { refs + 1 };
    }
}

proof fn lemma_release_ok(k0: Kernel, k1: Kernel, id: int)
    requires
        k0.wf(), 0 <= id < k0.files@.len(),
        released(k0.files@, k0.ctx, k1.files@, k1.ctx, id),
        k1.manager == k0.manager,
        k1.current == k0.current,
    ensures k1.wf(),
{
    assert forall|i: int| 0 <= i < k1.manager.tasks@.len()
        implies table_ok(#[trigger] k1.manager.tasks@[i].fd_table@, k1.files@.len() as int) by {
        assert(table_ok(k0.manager.tasks@[i].fd_table@, k0.files@.len() as int));
    }
    assert forall|q: int| 0 <= q < k1.files@.len()
        implies (#[trigger] k1.files@[q]).obj.obj_wf(k1.ctx.pipes@.len() as int) by {
        assert(k0.files@[q].obj.obj_wf(k0.ctx.pipes@.len() as int));
        if q != id { assert(k0.files@[q] == k1.files@[q]); }
    }
}

/// What `sys_close` does to the kernel and returns.
pub open spec fn close_post(k0: Kernel, k1: Kernel, fd: usize, r: i64) -> bool {
    &&& k1.running()
    &&& k0.fd_obj(fd as int).is_none() ==> r == EBADF && k1 == k0
    &&& (k0.fd_obj(fd as int) matches Some(id) ==> {
        &&& r == 0
        &&& tasks_except(k0.manager.tasks@, k1.manager.tasks@, k0.cur())
        &&& same_but_fds(k0.cur_task(), k1.cur_task())
        &&& k1.cur_task().fd_table@ == k0.cur_task().fd_table@.update(fd as int, None)
        &&& released(k0.files@, k0.ctx, k1.files@, k1.ctx, id as int)
        &&& k1.same_rest(k0)
    })
}

/// Closes `fd`: EBADF (-9) when it is not open; else the slot empties and its open file
/// loses a reference.
pub fn sys_close(k: &mut Kernel, fd: usize) -> (r: i64)
    requires old(k).running(),
    ensures close_post(*old(k), *final(k), fd, r),

{
    let id = match k.lookup(fd) {
        Some(id) => id,
        None => return EBADF,
    };
    let i = k.current.unwrap();
    let _ = k.manager.tasks[i].close_fd(fd);
    let ghost mid = *k;
    proof {
        assert forall|j: int| 0 <= j < k.manager.tasks@.len()
            implies table_ok(#[trigger] k.manager.tasks@[j].fd_table@, k.files@.len() as int) by {
            assert(table_ok(old(k).manager.tasks@[j].fd_table@, k.files@.len() as int));
            if j == i {
                let t = k.manager.tasks@[j].fd_table@;
                assert forall|q: int| 0 <= q < t.len() && (#[trigger] t[q]).is_some() implies t[q].unwrap() < k.files@.len() by {
                    let _ = old(k).manager.tasks@[j].fd_table@[q];
                }
            }
        }
    }
    k.release(id);
    proof { lemma_release_ok(mid, *k, id as int); }
    0
}

/// The attributes of the file open under `fd`.
pub fn sys_fstat(k: &Kernel, fd: usize) -> (r: (i64, Option<FileStat>))
    requires k.running(),
    ensures
        k.fd_obj(fd as int).is_none() ==> r == (EBADF, Option::<FileStat>::None),
        k.fd_obj(fd as int) matches Some(id) ==> r == (0i64, Some(stat_of(k.files@[id as int].obj, k.ctx.now_ms))),
{
    match k.lookup(fd) {
        Some(id) => (0, Some(k.files[id].obj.stat(k.ctx.now_ms))),
        None => (EBADF, None),
    }
}

/// What `sys_lseek` does to the kernel and returns.
pub open spec fn lseek_post(k0: Kernel, k1: Kernel, fd: usize, offset: i64, whence: i32, r: i64) -> bool {
    &&& k1.running()
    &&& k0.fd_obj(fd as int).is_none() ==> r == EBADF && k1 == k0
    &&& (k0.fd_obj(fd as int) matches Some(id) ==> {
        &&& k1.file_changed(k0, id as int)
        &&& k1.ctx == k0.ctx
        &&& (k0.files@[id as int].obj matches FileObject::Tmp(f0) ==> (k1.files@[id as int].obj matches FileObject::Tmp(f1)
            && crate::fs::tmpfile::tmp_seek_rel(f0, f1, offset, whence, r)))
        &&& (!(k0.files@[id as int].obj matches FileObject::Tmp(_)) ==> r == -1 && k1 == k0)
    })
}

/// Moves the offset of the file open under `fd`: EBADF (-9) when it is not open.
pub fn sys_lseek(k: &mut Kernel, fd: usize, offset: i64, whence: i32) -> (r: i64)
    requires old(k).running(),
    ensures lseek_post(*old(k), *final(k), fd, offset, whence, r),

{
    let id = match k.lookup(fd) {
        Some(id) => id,
        None => return EBADF,
    };
    let is_tmp = match &k.files[id].obj {
        FileObject::Tmp(_) => true,
        _ => false,
    };
    if !is_tmp {
        return -1;
    }
    let r = k.files[id].obj.seek(offset, whence);
    proof { lemma_obj_change_ok(*old(k), *k, id as int); }
    r
}

/// Reads up to `len` bytes at `offset` of `fd` (a regular file's offset stays): EBADF (-9)
/// when it is not open.
pub fn sys_pread64(k: &mut Kernel, fd: usize, len: usize, offset: i64) -> (r: (i64, Vec<u8>))
    requires old(k).running(), len <= isize::MAX,
    ensures
        final(k).running(),
        old(k).fd_obj(fd as int).is_none() ==> r.0 == EBADF && r.1@.len() == 0 && *final(k) == *old(k),
        old(k).fd_obj(fd as int) matches Some(id) ==> {
            &&& final(k).file_changed(*old(k), id as int)
            &&& (old(k).files@[id as int].obj matches FileObject::Tmp(f) ==>
                crate::fs::tmpfile::tmp_read_at_spec(f, offset as u64, len, (r.0 as isize, r.1@)) && *final(k) == *old(k))
            &&& (!(old(k).files@[id as int].obj matches FileObject::Tmp(_)) ==>
                read_post(old(k).files@[id as int].obj, final(k).files@[id as int].obj, old(k).ctx, final(k).ctx, len, (r.0 as isize, r.1@)))
        },
{
    let id = match k.lookup(fd) {
        Some(id) => id,
        None => return (EBADF, Vec::new()),
    };
    match &k.files[id].obj {
        FileObject::Tmp(f) => {
            let r = f.read_at(offset as u64, len);
            return (r.0 as i64, r.1);
        },
        _ => {},
    }
    let r = k.files[id].obj.read_at(&mut k.ctx, offset as u64, len);
    proof { lemma_obj_change_ok(*old(k), *k, id as int); }
    (r.0 as i64, r.1)
}

/// A write of `n` bytes at `offset` of `fd` keeps a regular file's size within `usize`.
pub open spec fn write_at_fits(k: Kernel, fd: int, offset: u64, n: int) -> bool {
    k.fd_obj(fd) matches Some(id) ==> k.files@[id as int].obj.write_at_fits(offset, n)
}

/// Writes `buf` at `offset` of `fd` (a regular file's offset stays): EBADF (-9) when it is
/// not open.
pub fn sys_pwrite64(k: &mut Kernel, fd: usize, buf: &[u8], offset: i64) -> (r: i64)
    requires
        old(k).running(),
        buf@.len() <= isize::MAX,
        write_at_fits(*old(k), fd as int, offset as u64, buf@.len() as int),
    ensures
        final(k).running(),
        old(k).fd_obj(fd as int).is_none() ==> r == EBADF && *final(k) == *old(k),
        old(k).fd_obj(fd as int) matches Some(id) ==> {
            &&& final(k).file_changed(*old(k), id as int)
            &&& (old(k).files@[id as int].obj matches FileObject::Tmp(f0) ==> {
                &&& final(k).files@[id as int].obj matches FileObject::Tmp(f1)
                    && crate::fs::tmpfile::tmp_write_at_rel(f0, f1, offset as u64, buf@, r as isize)
                    && (if f0.writable { crate::fs::tmpfs::file_data_set(old(k).ctx.fs, final(k).ctx.fs, f1.path@, f1.data@) }
                        else { final(k).ctx.fs == old(k).ctx.fs })
                &&& final(k).ctx.pipes == old(k).ctx.pipes && final(k).ctx.console == old(k).ctx.console
            })
            &&& (!(old(k).files@[id as int].obj matches FileObject::Tmp(_)) ==>
                write_post(old(k).files@[id as int].obj, final(k).files@[id as int].obj, old(k).ctx, final(k).ctx, buf@, r as isize))
        },
{
    let id = match k.lookup(fd) {
        Some(id) => id,
        None => return EBADF,
    };
    let r = k.files[id].obj.write_at(&mut k.ctx, offset as u64, buf);
    proof { lemma_obj_change_ok(*old(k), *k, id as int); }
    r as i64
}


/// What an opened node becomes as an open file.
pub open spec fn as_opened(o: FileObject) -> Option<Opened> {
    match o {
        FileObject::Tmp(f) => Some(Opened::File(f)),
        FileObject::Dir(d) => Some(Opened::Dir(d)),
        _ => None,
    }
}

/// The descriptor table after `fd` (the lowest free one) was given open file `id`.
pub open spec fn table_with(tbl: Seq<Option<usize>>, fd: int, id: usize) -> Seq<Option<usize>> {
    (if fd < tbl.len() { tbl } else { tbl.push(None) }).update(fd, Some(id))
}

proof fn lemma_fds_ok(k0: Kernel, k1: Kernel, tbl: Seq<Option<usize>>)
    requires
        k0.running(),
        k1.fds_set(k0, tbl),
        table_ok(tbl, k1.files@.len() as int),
        k1.files@.len() >= k0.files@.len(),
        forall|q: int| 0 <= q < k1.files@.len() ==> (#[trigger] k1.files@[q]).obj.obj_wf(k1.ctx.pipes@.len() as int),
        k1.ctx.wf(),
    ensures k1.running(),
{
    assert forall|i: int| 0 <= i < k1.manager.tasks@.len()
        implies table_ok(#[trigger] k1.manager.tasks@[i].fd_table@, k1.files@.len() as int) by {
        if i != k0.cur() {
            assert(k1.manager.tasks@[i] == k0.manager.tasks@[i]);
            assert(table_ok(k0.manager.tasks@[i].fd_table@, k0.files@.len() as int));
        }
    }
}

impl Kernel {
    /// Gives open file `id` one more reference, under the lowest free descriptor.
    pub fn dup_lowest(&mut self, id: usize) -> (fd: usize)
        requires old(self).running(), id < old(self).files@.len(),
        ensures
            final(self).running(),
            is_lowest_free(old(self).cur_task().fd_table@, fd as int),
            final(self).fds_set(*old(self), table_with(old(self).cur_task().fd_table@, fd as int, id)),
            files_except(old(self).files@, final(self).files@, id as int),
            final(self).files@[id as int].obj == old(self).files@[id as int].obj,
            final(self).files@[id as int].refs == (if old(self).files@[id as int].refs == usize::MAX {
                usize::MAX } else { (old(self).files@[id as int].refs + 1) as usize }),
            final(self).ctx == old(self).ctx,
    {
        let i = self.current.unwrap();
        let fd = self.manager.tasks[i].alloc_fd();
        self.manager.tasks[i].fd_table.set(fd, Some(id));
        self.retain(id);
        proof {
            let tbl = table_with(old(self).cur_task().fd_table@, fd as int, id);
            assert(self.cur_task().fd_table@ =~= tbl);
            assert(table_ok(old(self).cur_task().fd_table@, old(self).files@.len() as int));
            assert forall|q: int| 0 <= q < tbl.len() && (#[trigger] tbl[q]).is_some() implies tbl[q].unwrap() < self.files@.len() by {
                if q != fd { let _ = old(self).cur_task().fd_table@[q]; }
            }
            assert forall|q: int| 0 <= q < self.files@.len() implies (#[trigger] self.files@[q]).obj.obj_wf(self.ctx.pipes@.len() as int) by {
                assert(old(self).files@[q].obj.obj_wf(old(self).ctx.pipes@.len() as int));
            }
            lemma_fds_ok(*old(self), *self, tbl);
        }
        fd
    }
}

/// Opens `path` (resolved against `dirfd`) with the `open` flags; ENOENT (-2) when nothing
/// can be opened there. The new descriptor is the lowest free one.
pub fn sys_openat(k: &mut Kernel, dirfd: i32, path: &[u8], flags: i32, mode: u32) -> (r: i64)
    requires old(k).running(), old(k).fd_room(1),
    ensures
        final(k).running(),
        ({
            let abs = resolved(*old(k), dirfd, path@);
            match crate::fs::rel_path(abs) {
                None => r == ENOENT && *final(k) == *old(k),
                Some(rel) => {
                    &&& crate::fs::tmpfs::open_post(old(k).ctx.fs, final(k).ctx.fs, rel, flags, mode, old(k).ctx.now_ms,
                        if r == ENOENT { None } else { as_opened(final(k).files@.last().obj) })
                    &&& final(k).ctx.pipes == old(k).ctx.pipes && final(k).ctx.console == old(k).ctx.console
                    &&& final(k).ctx.now_ms == old(k).ctx.now_ms
                    &&& r == ENOENT ==> final(k).files@ == old(k).files@ && final(k).manager == old(k).manager
                        && final(k).same_rest(*old(k))
                    &&& r != ENOENT ==> {
                        let fd = first_free(old(k).cur_task().fd_table@);
                        &&& r == fd as i64
                        &&& final(k).files@ == old(k).files@.push(OpenFile { obj: final(k).files@.last().obj, refs: 1 })
                        &&& final(k).fds_set(*old(k), table_with(old(k).cur_task().fd_table@, fd, old(k).files@.len() as usize))
                    }
                },
            }
        }),
{
    let abs = resolve_path(k, dirfd, path);
    let now = k.ctx.now_ms;
    let opened = crate::fs::open(&mut k.ctx.fs, abs.as_slice(), flags, mode, now);
    let obj = match opened {
        Some(Opened::File(f)) => FileObject::Tmp(f),
        Some(Opened::Dir(d)) => FileObject::Dir(d),
        None => {
            proof { lemma_obj_ctx_ok(*old(k), *k); }
            return ENOENT;
        },
    };
    proof { lemma_obj_ctx_ok(*old(k), *k); }
    let fd = k.install(obj);
    proof { lemma_first_free(old(k).cur_task().fd_table@, fd as int); }
    fd as i64
}

proof fn lemma_obj_ctx_ok(k0: Kernel, k1: Kernel)
    requires
        k0.running(),
        k1.current == k0.current,
        k1.manager == k0.manager,
        k1.files == k0.files,
        k1.ctx.pipes == k0.ctx.pipes,
        k1.ctx.wf(),
    ensures k1.running(),
{
}

/// The attributes of the node at `path` (resolved against `dirfd`): ENOENT (-2) when there
/// is none.
pub fn sys_newfstatat(k: &Kernel, dirfd: i32, path: &[u8], flags: i32) -> (r: (i64, Option<FileStat>))
    requires k.running(),
    ensures
        ({
            let abs = resolved(*k, dirfd, path@);
            match crate::fs::rel_path(abs) {
                None => r == (ENOENT, Option::<FileStat>::None),
                Some(rel) => match crate::fs::tmpfs::stat_spec(k.ctx.fs, rel, k.ctx.now_ms) {
                    None => r == (ENOENT, Option::<FileStat>::None),
                    Some(st) => r == (0i64, Some(st)),
                },
            }
        }),
{
    let abs = resolve_path(k, dirfd, path);
    match crate::fs::stat(&k.ctx.fs, abs.as_slice(), k.ctx.now_ms) {
        Some(st) => (0, Some(st)),
        None => (ENOENT, None),
    }
}

/// A second descriptor, the lowest free one, for the file open under `fd`: EBADF (-9) when
/// `fd` is not open.
pub fn sys_dup(k: &mut Kernel, fd: usize) -> (r: i64)
    requires old(k).running(), old(k).fd_room(1),
    ensures
        final(k).running(),
        old(k).fd_obj(fd as int).is_none() ==> r == EBADF && *final(k) == *old(k),
        old(k).fd_obj(fd as int) matches Some(id) ==> {
            &&& r == first_free(old(k).cur_task().fd_table@) as i64
            &&& final(k).fds_set(*old(k), table_with(old(k).cur_task().fd_table@, first_free(old(k).cur_task().fd_table@), id))
            &&& files_except(old(k).files@, final(k).files@, id as int)
            &&& final(k).files@[id as int].obj == old(k).files@[id as int].obj
            &&& final(k).files@[id as int].refs == (if old(k).files@[id as int].refs == usize::MAX {
                usize::MAX } else { (old(k).files@[id as int].refs + 1) as usize })
            &&& final(k).ctx == old(k).ctx
        },
{
    let id = match k.lookup(fd) {
        Some(id) => id,
        None => return EBADF,
    };
    let nfd = k.dup_lowest(id);
    proof { lemma_first_free(old(k).cur_task().fd_table@, nfd as int); }
    nfd as i64
}


/// Creates a pipe: its read end and then its write end take the two lowest free
/// descriptors; the result and the two descriptors.
pub fn sys_pipe2(k: &mut Kernel, flags: i32) -> (r: (i64, i32, i32))
    requires old(k).running(), old(k).fd_room(2), old(k).cur_task().fd_table@.len() + 2 <= i32::MAX,
    ensures
        final(k).running(),
        r.0 == 0,
        final(k).ctx.pipes@.len() == old(k).ctx.pipes@.len() + 1,
        final(k).files@.len() == old(k).files@.len() + 2,
        final(k).files@[old(k).files@.len() as int] == (OpenFile { obj: FileObject::Pipe(Pipe { inner: old(k).ctx.pipes@.len() as usize, is_read_end: true }), refs: 1 }),
        final(k).files@[old(k).files@.len() + 1int] == (OpenFile { obj: FileObject::Pipe(Pipe { inner: old(k).ctx.pipes@.len() as usize, is_read_end: false }), refs: 1 }),
        final(k).cur_task().fd_table@[r.1 as int] == Some(old(k).files@.len() as usize),
        final(k).cur_task().fd_table@[r.2 as int] == Some((old(k).files@.len() + 1) as usize),
        r.1 as int == first_free(old(k).cur_task().fd_table@),
        r.2 as int == first_free(table_with(old(k).cur_task().fd_table@, r.1 as int, old(k).files@.len() as usize)),
        0 <= r.1 < r.2,
{
    let (re, we) = create_pipe(&mut k.ctx.pipes);
    proof {
        assert forall|q: int| 0 <= q < k.files@.len() implies (#[trigger] k.files@[q]).obj.obj_wf(k.ctx.pipes@.len() as int) by {
            assert(old(k).files@[q].obj.obj_wf(old(k).ctx.pipes@.len() as int));
        }
    }
    let ghost k1 = *k;
    let rfd = k.install(FileObject::Pipe(re));
    proof { lemma_first_free(old(k).cur_task().fd_table@, rfd as int); }
    let wfd = k.install(FileObject::Pipe(we));
    proof {
        let t1 = k1.cur_task().fd_table@;
        let t2 = table_with(t1, rfd as int, old(k).files@.len() as usize);
        lemma_first_free(t2, wfd as int);
        assert(wfd != rfd);
        if wfd < rfd { assert(t2[wfd as int].is_some()); }
    }
    (0, rfd as i32, wfd as i32)
}

/// The lowest descriptor from `m` on that `tbl` leaves free (possibly past its end).
pub open spec fn free_from(tbl: Seq<Option<usize>>, m: int) -> int
    decreases tbl.len() - m,
{
    if m < 0 || m >= tbl.len() || tbl[m].is_none() { m } else { free_from(tbl, m + 1) }
}

/// `free_from` gives a free descriptor, and every one between `m` and it is taken.
pub proof fn lemma_free_from(tbl: Seq<Option<usize>>, m: int)
    requires m >= 0,
    ensures
        free_from(tbl, m) >= m,
        free_from(tbl, m) < tbl.len() ==> tbl[free_from(tbl, m)].is_none(),
        forall|j: int| m <= j < free_from(tbl, m) ==> j < tbl.len() && #[trigger] tbl[j].is_some(),
        free_from(tbl, m) <= if m > tbl.len() { m } else { tbl.len() as int },
    decreases tbl.len() - m,
{
    if m < tbl.len() && tbl[m].is_some() {
        lemma_free_from(tbl, m + 1);
    }
}

/// The lowest free descriptor of the running task from `m` on.
fn lowest_free_from(k: &Kernel, m: usize) -> (fd: usize)
    requires k.running(),
    ensures fd == free_from(k.cur_task().fd_table@, m as int),
{
    let i = k.current.unwrap();
    let ghost tbl = k.cur_task().fd_table@;
    let mut j = m;
    while j < k.manager.tasks[i].fd_table.len() && k.manager.tasks[i].fd_table[j].is_some()
        invariant
            i < k.manager.tasks@.len(),
            tbl == k.manager.tasks@[i as int].fd_table@,
            m <= j,
            free_from(tbl, j as int) == free_from(tbl, m as int),
        decreases tbl.len() - j,
    {
        j = j + 1;
    }
    j
}

/// What `sys_fcntl` does to the kernel and returns.
pub open spec fn fcntl_post(k0: Kernel, k1: Kernel, fd: usize, cmd: i32, arg: usize, r: i64) -> bool {
    &&& k1.running()
    &&& k0.fd_obj(fd as int).is_none() ==> r == EBADF && k1 == k0
    &&& (k0.fd_obj(fd as int) matches Some(id) ==> {
        let o = k0.files@[id as int].obj;
        let nfd = free_from(k0.cur_task().fd_table@, arg as int);
        &&& cmd == 0 ==> {
            &&& r == nfd as i64
            &&& tasks_except(k0.manager.tasks@, k1.manager.tasks@, k0.cur())
            &&& same_but_fds(k0.cur_task(), k1.cur_task())
            &&& k1.cur_task().fd_table@ == grown(k0.cur_task().fd_table@, nfd + 1).update(nfd, Some(id))
            &&& k1.same_rest(k0)
            &&& k1.files@ == with_ref(k0.files@, id as int) && k1.ctx == k0.ctx
        }
        &&& (cmd == 1 || cmd == 3) ==> r == (match o { FileObject::Tmp(f) => f.flags as i64, _ => 0i64 }) && k1 == k0
        &&& (cmd == 2 || cmd == 4) ==> r == 0 && k1.file_changed(k0, id as int) && k1.ctx == k0.ctx
            && (o matches FileObject::Tmp(f0) ==> k1.files@[id as int].obj == FileObject::Tmp(crate::fs::tmpfile::TmpFile { flags: arg as i32, ..f0 }))
            && (!(o matches FileObject::Tmp(_)) ==> k1 == k0)
        &&& (cmd < 0 || cmd > 4) ==> r == 0 && k1 == k0
    })
}

/// `fcntl`: F_DUPFD (0) gives a second descriptor, the lowest free one from `arg` on,
/// F_GETFD and F_GETFL (1, 3) the file's flags, F_SETFD and F_SETFL (2, 4) set them from
/// `arg`; the lock commands (5 to 7) and the rest succeed doing nothing. EBADF (-9) when
/// `fd` is not open.
pub fn sys_fcntl(k: &mut Kernel, fd: usize, cmd: i32, arg: usize) -> (r: i64)
    requires
        old(k).running(),
        old(k).fd_room(1),
        cmd == 0 ==> arg < i64::MAX,
    ensures fcntl_post(*old(k), *final(k), fd, cmd, arg, r),

{
    let id = match k.lookup(fd) {
        Some(id) => id,
        None => return EBADF,
    };
    if cmd == 0 {
        let nfd = lowest_free_from(k, arg);
        proof {
            let t0 = old(k).cur_task().fd_table@;
            lemma_free_from(t0, arg as int);
            assert(nfd < i64::MAX);
        }
        return sys_dup3(k, fd, nfd, 0);
    } else if cmd == 1 || cmd == 3 {
        return k.files[id].obj.get_flags() as i64;
    } else if cmd == 2 || cmd == 4 {
        let is_tmp = match &k.files[id].obj {
            FileObject::Tmp(_) => true,
            _ => false,
        };
        if is_tmp {
            k.files[id].obj.set_flags(arg as i32);
            proof { lemma_obj_change_ok(*old(k), *k, id as int); }
        }
        return 0;
    }
    0
}

/// Device request `request` on `fd` (see `ioctl_post`); `val` is the int its argument points
/// to, the second result an int to store there. EBADF (-9) when `fd` is not open.
pub fn sys_ioctl(k: &mut Kernel, fd: usize, request: u64, val: i32) -> (r: (i64, Option<i32>))
    requires old(k).running(),
    ensures
        final(k).running(),
        old(k).fd_obj(fd as int).is_none() ==> r == (EBADF, Option::<i32>::None) && *final(k) == *old(k),
        old(k).fd_obj(fd as int) matches Some(id) ==> final(k).file_changed(*old(k), id as int)
            && crate::fs::file::ioctl_post(old(k).files@[id as int].obj, final(k).files@[id as int].obj, old(k).ctx, final(k).ctx,
                request, val, (r.0 as isize, r.1)),
{
    let id = match k.lookup(fd) {
        Some(id) => id,
        None => return (EBADF, None),
    };
    let r = k.files[id].obj.ioctl(&mut k.ctx, request, val);
    proof { lemma_obj_change_ok(*old(k), *k, id as int); }
    (r.0 as i64, r.1)
}

/// Directory records of `fd` for a buffer of `len` bytes: -1 for a file that is not a
/// directory, EBADF (-9) when `fd` is not open.
pub fn sys_getdents64(k: &mut Kernel, fd: usize, len: usize) -> (r: (i64, Vec<u8>))
    requires old(k).running(), len <= isize::MAX,
    ensures
        final(k).running(),
        old(k).fd_obj(fd as int).is_none() ==> r.0 == EBADF && r.1@.len() == 0 && *final(k) == *old(k),
        old(k).fd_obj(fd as int) matches Some(id) ==> {
            &&& final(k).file_changed(*old(k), id as int)
            &&& final(k).ctx == old(k).ctx
            &&& (old(k).files@[id as int].obj matches FileObject::Dir(d0) ==> (final(k).files@[id as int].obj matches FileObject::Dir(d1)
                && crate::fs::tmpfile::dir_getdents_rel(d0, d1, old(k).ctx.fs, len, (r.0 as isize, r.1@))))
            &&& (!(old(k).files@[id as int].obj matches FileObject::Dir(_)) ==> r.0 == -1 && r.1@.len() == 0 && *final(k) == *old(k))
        },
{
    let id = match k.lookup(fd) {
        Some(id) => id,
        None => return (EBADF, Vec::new()),
    };
    let is_dir = match &k.files[id].obj {
        FileObject::Dir(_) => true,
        _ => false,
    };
    if !is_dir {
        return (-1, Vec::new());
    }
    let r = match &mut k.files[id].obj {
        FileObject::Dir(d) => d.getdents(&k.ctx.fs, len),
        _ => (-1, Vec::new()),
    };
    proof { lemma_obj_change_ok(*old(k), *k, id as int); }
    (r.0 as i64, r.1)
}

/// The path that names the running program.
pub open spec fn self_exe() -> Seq<u8> {
    "/proc/self/exe".spec_bytes()
}

/// What the running program's link reads as.
pub open spec fn exe_target() -> Seq<u8> {
    "/usr/sbin/nginx".spec_bytes()
}

pub open spec fn min_len(a: int, b: int) -> int {
    if a < b { a } else { b }
}

/// The target of the symbolic link at `path` (resolved against `dirfd`), cut to `size`
/// bytes: `/proc/self/exe` reads as the program's path; EINVAL (-22) where the node is not
/// a link, ENOENT (-2) where there is none.
pub fn sys_readlinkat(k: &Kernel, dirfd: i32, path: &[u8], size: usize) -> (r: (i64, Vec<u8>))
    requires k.running(), size <= i64::MAX,
    ensures
        ({
            let abs = resolved(*k, dirfd, path@);
            if abs == self_exe() {
                let n = min_len(exe_target().len() as int, size as int);
                r.0 == n && r.1@ == exe_target().take(n)
            } else {
                match crate::fs::rel_path(abs) {
                    None => r.0 == ENOENT && r.1@.len() == 0,
                    Some(rel) => match k.ctx.fs.node_at(crate::fs::path::normalized(rel)) {
                        Some(crate::fs::tmpfs::NodeV::Symlink(t)) => {
                            let n = min_len(t.len() as int, size as int);
                            r.0 == n && r.1@ == t.take(n)
                        },
                        Some(_) => r.0 == EINVAL && r.1@.len() == 0,
                        None => r.0 == ENOENT && r.1@.len() == 0,
                    },
                }
            }
        }),
{
    let abs = resolve_path(k, dirfd, path);
    if crate::fs::lex::bytes_eq(abs.as_slice(), "/proc/self/exe".as_bytes()) {
        let link = "/usr/sbin/nginx".as_bytes();
        let n = if link.len() < size { link.len() } else { size };
        let out = crate::fs::tmpfile::copy_range(link, 0, n);
        proof { assert(out@ =~= exe_target().take(n as int)); }
        return (n as i64, out);
    }
    match crate::fs::readlink(&k.ctx.fs, abs.as_slice()) {
        Some(t) => {
            let n = if t.len() < size { t.len() } else { size };
            let out = crate::fs::tmpfile::copy_range(t.as_slice(), 0, n);
            proof { assert(out@ =~= t@.take(n as int)); }
            (n as i64, out)
        },
        None => {
            match crate::fs::stat(&k.ctx.fs, abs.as_slice(), k.ctx.now_ms) {
                Some(_) => (EINVAL, Vec::new()),
                None => (ENOENT, Vec::new()),
            }
        },
    }
}

/// `readlinkat` relative to the working directory.
pub fn sys_readlink(k: &Kernel, path: &[u8], size: usize) -> (r: (i64, Vec<u8>))
    requires k.running(), size <= i64::MAX,
    ensures
        ({
            let abs = resolved(*k, AT_FDCWD, path@);
            if abs == self_exe() {
                let n = min_len(exe_target().len() as int, size as int);
                r.0 == n && r.1@ == exe_target().take(n)
            } else {
                match crate::fs::rel_path(abs) {
                    None => r.0 == ENOENT && r.1@.len() == 0,
                    Some(rel) => match k.ctx.fs.node_at(crate::fs::path::normalized(rel)) {
                        Some(crate::fs::tmpfs::NodeV::Symlink(t)) => {
                            let n = min_len(t.len() as int, size as int);
                            r.0 == n && r.1@ == t.take(n)
                        },
                        Some(_) => r.0 == EINVAL && r.1@.len() == 0,
                        None => r.0 == ENOENT && r.1@.len() == 0,
                    },
                }
            }
        }),
{
    sys_readlinkat(k, AT_FDCWD, path, size)
}

/// 0 when something is at `path` (resolved against `dirfd`), else ENOENT (-2).
pub fn sys_faccessat(k: &Kernel, dirfd: i32, path: &[u8], mode: i32, flags: i32) -> (r: i64)
    requires k.running(),
    ensures
        ({
            let abs = resolved(*k, dirfd, path@);
            r == (match crate::fs::rel_path(abs) {
                Some(rel) => if crate::fs::tmpfs::stat_spec(k.ctx.fs, rel, k.ctx.now_ms).is_some() { 0i64 } else { ENOENT },
                None => ENOENT,
            })
        }),
{
    let abs = resolve_path(k, dirfd, path);
    match crate::fs::stat(&k.ctx.fs, abs.as_slice(), k.ctx.now_ms) {
        Some(_) => 0,
        None => ENOENT,
    }
}

/// Directory creation is accepted and has no effect.
pub fn sys_mkdirat(k: &Kernel, dirfd: i32, path: &[u8], mode: u32) -> (r: i64)
    ensures r == 0,
{
    0
}

/// Removal is accepted and has no effect.
pub fn sys_unlinkat(k: &Kernel, dirfd: i32, path: &[u8], flags: i32) -> (r: i64)
    ensures r == 0,
{
    0
}

/// Renaming is accepted and has no effect.
pub fn sys_renameat(k: &Kernel, olddirfd: i32, oldpath: &[u8], newdirfd: i32, newpath: &[u8]) -> (r: i64)
    ensures r == 0,
{
    0
}

/// Symbolic links are accepted and not made.
pub fn sys_symlinkat(k: &Kernel, target: &[u8], newdirfd: i32, linkpath: &[u8]) -> (r: i64)
    ensures r == 0,
{
    0
}

/// What `statfs` reports for any path: a tmpfs (magic 0x01021994) of 4 KiB blocks, 1 Mi
/// of them with half free and available, 65536 inodes with half free, a zero id, names of
/// up to 255 bytes, 4 KiB fragments and no flags; twelve little-endian words.
pub open spec fn statfs_words() -> Seq<u64> {
    seq![0x01021994u64, 4096, 0x10_0000, 0x8_0000, 0x8_0000, 65536, 32768, 0, 0, 255, 4096, 0]
}

pub open spec fn words_bytes(w: Seq<u64>) -> Seq<u8>
    decreases w.len(),
{
    if w.len() == 0 { Seq::empty() } else { words_bytes(w.drop_last()) + le_bytes(w.last() as int, 8) }
}

/// `statfs` and `fstatfs`: the same file system whatever is asked, as the bytes to store.
pub fn sys_statfs(path: &[u8]) -> (r: (i64, Vec<u8>))
    ensures r.0 == 0, r.1@ == words_bytes(statfs_words()),
{
    let words: [u64; 12] = [0x01021994u64, 4096, 0x10_0000, 0x8_0000, 0x8_0000, 65536, 32768, 0, 0, 255, 4096, 0];
    assert(words@ =~= statfs_words());
    let mut out: Vec<u8> = Vec::new();
    let mut i: usize = 0;
    while i < 12
        invariant i <= 12, words@ == statfs_words(), out@ == words_bytes(words@.take(i as int)),
        decreases 12 - i,
    {
        push_le(&mut out, words[i], 8);
        assert(words@.take(i + 1).drop_last() =~= words@.take(i as int));
        i = i + 1;
    }
    assert(words@.take(12) =~= words@);
    (0, out)
}

/// Hard links are accepted and not made.
pub fn sys_linkat(k: &Kernel, olddirfd: i32, oldpath: &[u8], newdirfd: i32, newpath: &[u8], flags: i32) -> (r: i64)
    ensures r == 0,
{
    0
}

/// Permission changes are accepted and have no effect.
pub fn sys_fchmod(k: &Kernel, fd: usize, mode: u32) -> (r: i64)
    ensures r == 0,
{
    0
}

/// Permission changes are accepted and have no effect.
pub fn sys_fchmodat(k: &Kernel, dirfd: i32, path: &[u8], mode: u32) -> (r: i64)
    ensures r == 0,
{
    0
}

/// Advisory locks always succeed; EBADF (-9) when `fd` is not open.
pub fn sys_flock(k: &Kernel, fd: usize, how: i32) -> (r: i64)
    requires k.running(),
    ensures r == (if k.fd_obj(fd as int).is_none() { EBADF } else { 0i64 }),
{
    match k.lookup(fd) {
        Some(_) => 0,
        None => EBADF,
    }
}

/// A truncation of `fd` to `size` bytes fits in memory.
pub open spec fn truncate_fits(k: Kernel, fd: int, size: i64) -> bool {
    k.fd_obj(fd) matches Some(id) && (k.files@[id as int].obj matches FileObject::Tmp(_)) ==> size as u64 <= usize::MAX
}

/// What `sys_ftruncate` does to the kernel and returns.
pub open spec fn ftruncate_post(k0: Kernel, k1: Kernel, fd: usize, size: i64, r: i64) -> bool {
    &&& k1.running()
    &&& k0.fd_obj(fd as int).is_none() ==> r == EBADF && k1 == k0
    &&& (k0.fd_obj(fd as int) matches Some(id) ==> {
        &&& k1.file_changed(k0, id as int)
        &&& (k0.files@[id as int].obj matches FileObject::Tmp(f0) ==> {
            &&& k1.files@[id as int].obj matches FileObject::Tmp(f1)
                && crate::fs::tmpfile::tmp_truncate_rel(f0, f1, size as u64, r as isize)
                && crate::fs::tmpfs::file_data_set(k0.ctx.fs, k1.ctx.fs, f1.path@, f1.data@)
            &&& k1.ctx.pipes == k0.ctx.pipes && k1.ctx.console == k0.ctx.console
        })
        &&& (!(k0.files@[id as int].obj matches FileObject::Tmp(_)) ==> r == -1 && k1 == k0)
    })
}

/// Cuts or grows the regular file open under `fd` to `size` bytes (its node too); -1 for
/// another kind of file, EBADF (-9) when `fd` is not open.
pub fn sys_ftruncate(k: &mut Kernel, fd: usize, size: i64) -> (r: i64)
    requires old(k).running(), truncate_fits(*old(k), fd as int, size),
    ensures ftruncate_post(*old(k), *final(k), fd, size, r),

{
    let id = match k.lookup(fd) {
        Some(id) => id,
        None => return EBADF,
    };
    let is_tmp = match &k.files[id].obj {
        FileObject::Tmp(_) => true,
        _ => false,
    };
    if !is_tmp {
        return -1;
    }
    let r = k.files[id].obj.truncate(&mut k.ctx, size as u64);
    proof { lemma_obj_change_ok(*old(k), *k, id as int); }
    r as i64
}

/// The working directory followed by a NUL, cut to `size` bytes, to store at `buf`; the
/// result is the address `buf`.
pub fn sys_getcwd(k: &Kernel, buf: usize, size: usize) -> (r: (i64, Vec<u8>))
    requires k.running(),
    ensures
        r.0 == buf as i64,
        r.1@ == (k.cur_task().cwd@ + seq![0u8]).take(min_len(k.cur_task().cwd@.len() + 1int, size as int)),
{
    let i = k.current.unwrap();
    let cwd = &k.manager.tasks[i].cwd;
    let mut full = copy_bytes(cwd.as_slice());
    full.push(0u8);
    let n = if full.len() < size { full.len() } else { size };
    let out = crate::fs::tmpfile::copy_range(full.as_slice(), 0, n);
    proof { assert(out@ =~= (k.cur_task().cwd@ + seq![0u8]).take(n as int)); }
    (buf as i64, out)
}

/// The running task with working directory `cwd` and nothing else changed.
pub open spec fn cwd_set(k0: Kernel, k1: Kernel, cwd: Seq<u8>) -> bool {
    &&& k1.same_rest(k0)
    &&& k1.files == k0.files && k1.ctx == k0.ctx
    &&& tasks_except(k0.manager.tasks@, k1.manager.tasks@, k0.cur())
    &&& k1.cur_task() == (Task { cwd: k1.cur_task().cwd, ..k0.cur_task() })
    &&& k1.cur_task().cwd@ == cwd
}

proof fn lemma_cwd_ok(k0: Kernel, k1: Kernel, cwd: Seq<u8>)
    requires k0.running(), cwd_set(k0, k1, cwd),
    ensures k1.running(),
{
    assert forall|i: int| 0 <= i < k1.manager.tasks@.len()
        implies table_ok(#[trigger] k1.manager.tasks@[i].fd_table@, k1.files@.len() as int) by {
        assert(table_ok(k0.manager.tasks@[i].fd_table@, k0.files@.len() as int));
    }
}

/// Makes `path` (taken as it is) the working directory: ENOTDIR (-20) where the node is
/// not a directory, ENOENT (-2) where there is none.
pub fn sys_chdir(k: &mut Kernel, path: &[u8]) -> (r: i64)
    requires old(k).running(),
    ensures
        final(k).running(),
        ({
            let st = match crate::fs::rel_path(path@) {
                Some(rel) => crate::fs::tmpfs::stat_spec(old(k).ctx.fs, rel, old(k).ctx.now_ms),
                None => None,
            };
            match st {
                Some(s) => if s.st_mode & 0o170000 == 0o040000 {
                    r == 0 && cwd_set(*old(k), *final(k), path@)
                } else {
                    r == ENOTDIR && *final(k) == *old(k)
                },
                None => r == ENOENT && *final(k) == *old(k),
            }
        }),
{
    match crate::fs::stat(&k.ctx.fs, path, k.ctx.now_ms) {
        Some(s) => {
            if s.st_mode & 0o170000 == 0o040000 {
                let i = k.current.unwrap();
                k.manager.tasks[i].cwd = copy_bytes(path);
                proof { lemma_cwd_ok(*old(k), *k, path@); }
                0
            } else {
                ENOTDIR
            }
        },
        None => ENOENT,
    }
}

/// What `sys_fchdir` does to the kernel and returns.
pub open spec fn fchdir_post(k0: Kernel, k1: Kernel, fd: usize, r: i64) -> bool {
    &&& k1.running()
    &&& k0.fd_obj(fd as int).is_none() ==> r == EBADF && k1 == k0
    &&& (k0.fd_obj(fd as int) matches Some(id) ==> (match k0.files@[id as int].obj {
        FileObject::Dir(d) => r == 0 && cwd_set(k0, k1, d.path@),
        _ => r == ENOTDIR && k1 == k0,
    }))
}

/// Makes the directory open under `fd` the working directory: ENOTDIR (-20) for another
/// kind of file, EBADF (-9) when `fd` is not open or has no path.
pub fn sys_fchdir(k: &mut Kernel, fd: usize) -> (r: i64)
    requires old(k).running(),
    ensures fchdir_post(*old(k), *final(k), fd, r),

{
    let id = match k.lookup(fd) {
        Some(id) => id,
        None => return EBADF,
    };
    if !k.files[id].obj.is_directory() {
        return ENOTDIR;
    }
    match k.files[id].obj.get_path() {
        Some(p) => {
            let i = k.current.unwrap();
            k.manager.tasks[i].cwd = p;
            proof {
                let d = old(k).files@[id as int].obj->Dir_0;
                lemma_cwd_ok(*old(k), *k, d.path@);
            }
            0
        },
        None => EBADF,
    }
}


/// `tbl` grown with empty slots to at least `n` entries.
pub open spec fn grown(tbl: Seq<Option<usize>>, n: int) -> Seq<Option<usize>> {
    if tbl.len() >= n { tbl } else { tbl + Seq::new((n - tbl.len()) as nat, |i: int| Option::<usize>::None) }
}

/// `f` after open file `id` gained a reference.
pub open spec fn with_ref(f: Seq<OpenFile>, id: int) -> Seq<OpenFile> {
    f.update(id, OpenFile { obj: f[id].obj, refs: if f[id].refs == usize::MAX { usize::MAX } else { (f[id].refs + 1) as usize } })
}

/// What `sys_dup3` does to the kernel and returns.
pub open spec fn dup3_post(k0: Kernel, k1: Kernel, old_fd: usize, new_fd: usize, flags: i32, r: i64) -> bool {
    &&& k1.running()
    &&& k0.fd_obj(old_fd as int).is_none() ==> r == EBADF && k1 == k0
    &&& (k0.fd_obj(old_fd as int) matches Some(id) ==> {
        let tbl = grown(k0.cur_task().fd_table@, new_fd + 1);
        &&& r == new_fd as i64
        &&& tasks_except(k0.manager.tasks@, k1.manager.tasks@, k0.cur())
        &&& same_but_fds(k0.cur_task(), k1.cur_task())
        &&& k1.cur_task().fd_table@ == tbl.update(new_fd as int, Some(id))
        &&& k1.same_rest(k0)
        &&& match tbl[new_fd as int] {
            None => k1.files@ == with_ref(k0.files@, id as int) && k1.ctx == k0.ctx,
            Some(p) => released(with_ref(k0.files@, id as int), k0.ctx, k1.files@, k1.ctx, p as int),
        }
    })
}

/// Makes `new_fd` a second descriptor for the file open under `old_fd`, growing the table
/// as needed; whatever `new_fd` held before loses its reference. EBADF (-9) when `old_fd`
/// is not open.
pub fn sys_dup3(k: &mut Kernel, old_fd: usize, new_fd: usize, flags: i32) -> (r: i64)
    requires old(k).running(), new_fd < i64::MAX,
    ensures dup3_post(*old(k), *final(k), old_fd, new_fd, flags, r),

{
    let id = match k.lookup(old_fd) {
        Some(id) => id,
        None => return EBADF,
    };
    let i = k.current.unwrap();
    let ghost t0 = old(k).cur_task().fd_table@;
    while k.manager.tasks[i].fd_table.len() <= new_fd
        invariant
            i == old(k).current.unwrap(),
            i < k.manager.tasks@.len(),
            new_fd < i64::MAX,
            k.files == old(k).files,
            k.ctx == old(k).ctx,
            k.same_rest(*old(k)),
            tasks_except(old(k).manager.tasks@, k.manager.tasks@, i as int),
            same_but_fds(old(k).cur_task(), k.manager.tasks@[i as int]),
            k.manager.tasks@[i as int].fd_table@.len() <= new_fd + 1 || k.manager.tasks@[i as int].fd_table@ == t0,
            t0.len() <= k.manager.tasks@[i as int].fd_table@.len(),
            k.manager.tasks@[i as int].fd_table@ == grown(t0, k.manager.tasks@[i as int].fd_table@.len() as int),
        decreases new_fd + 1 - k.manager.tasks@[i as int].fd_table@.len(),
    {
        let ghost before = k.manager.tasks@[i as int].fd_table@;
        k.manager.tasks[i].fd_table.push(None);
        proof {
            assert(k.manager.tasks@[i as int].fd_table@ =~= grown(t0, k.manager.tasks@[i as int].fd_table@.len() as int));
        }
    }
    proof {
        assert(k.manager.tasks@[i as int].fd_table@ =~= grown(t0, new_fd + 1));
    }
    k.retain(id);
    let prev = k.manager.tasks[i].fd_table[new_fd];
    k.manager.tasks[i].fd_table.set(new_fd, Some(id));
    let ghost mid = *k;
    proof {
        let tbl = k.manager.tasks@[i as int].fd_table@;
        assert forall|j: int| 0 <= j < k.manager.tasks@.len()
            implies table_ok(#[trigger] k.manager.tasks@[j].fd_table@, k.files@.len() as int) by {
            assert(table_ok(old(k).manager.tasks@[j].fd_table@, old(k).files@.len() as int));
            if j == i {
                assert forall|q: int| 0 <= q < tbl.len() && (#[trigger] tbl[q]).is_some() implies tbl[q].unwrap() < k.files@.len() by {
                    if q != new_fd && q < t0.len() { let _ = t0[q]; }
                }
            }
        }
        assert forall|q: int| 0 <= q < k.files@.len() implies (#[trigger] k.files@[q]).obj.obj_wf(k.ctx.pipes@.len() as int) by {
            assert(old(k).files@[q].obj.obj_wf(old(k).ctx.pipes@.len() as int));
        }
        assert(k.files@ =~= with_ref(old(k).files@, id as int));
        if let Some(p) = prev {
            assert(new_fd < t0.len());
            assert(t0[new_fd as int] == Some(p));
            assert(table_ok(t0, old(k).files@.len() as int));
            assert(p < old(k).files@.len());
        }
    }
    match prev {
        Some(p) => {
            k.release(p);
            proof { lemma_release_ok(mid, *k, p as int); }
        },
        None => {},
    }
    new_fd as i64
}


/// Dropping the reference of descriptor slot `slot`, if it holds one (see `released`).
pub open spec fn release_step(f0: Seq<OpenFile>, c0: FileCtx, f1: Seq<OpenFile>, c1: FileCtx, slot: Option<usize>) -> bool {
    match slot {
        Some(p) => released(f0, c0, f1, c1, p as int),
        None => f1 == f0 && c1 == c0,
    }
}

/// Closing the slots `first` to `hi` of the table `t0` in order, from open files `f0` and
/// context `c0`: `fs` and `cs` are the open files and contexts after each slot (the first
/// are `f0` and `c0`).
pub open spec fn close_trace(f0: Seq<OpenFile>, c0: FileCtx, t0: Seq<Option<usize>>, first: int, hi: int,
    fs: Seq<Seq<OpenFile>>, cs: Seq<FileCtx>) -> bool {
    let n = if first <= hi { hi - first + 1 } else { 0 };
    &&& fs.len() == n + 1 && cs.len() == n + 1 && fs[0] == f0 && cs[0] == c0
    &&& forall|j: int| 0 <= j < n ==> #[trigger] release_step(fs[j], cs[j], fs[j + 1], cs[j + 1], t0[first + j])
}

/// The open files and context of `k1` are those of `k0` after closing the running task's
/// descriptors `first` to `hi` in order.
pub open spec fn closed_range(k0: Kernel, k1: Kernel, first: int, hi: int) -> bool {
    exists|fs: Seq<Seq<OpenFile>>, cs: Seq<FileCtx>| #[trigger] close_trace(k0.files@, k0.ctx, k0.cur_task().fd_table@, first, hi, fs, cs)
        && fs.last() == k1.files@ && cs.last() == k1.ctx
}

/// Closes descriptors `first` to `last` (as far as the table goes); each closed one's open
/// file loses a reference, in order (see `close_trace`).
pub fn sys_close_range(k: &mut Kernel, first: u32, last: u32, flags: i32) -> (r: i64)
    requires old(k).running(), old(k).cur_task().fd_table@.len() > 0,
    ensures
        final(k).running(),
        r == 0,
        tasks_except(old(k).manager.tasks@, final(k).manager.tasks@, old(k).cur()),
        same_but_fds(old(k).cur_task(), final(k).cur_task()),
        final(k).cur_task().fd_table@.len() == old(k).cur_task().fd_table@.len(),
        forall|j: int| 0 <= j < old(k).cur_task().fd_table@.len() ==> #[trigger] final(k).cur_task().fd_table@[j]
            == if first <= j <= last { None } else { old(k).cur_task().fd_table@[j] },
        final(k).files@.len() == old(k).files@.len(),
        forall|j: int| 0 <= j < old(k).files@.len() ==> #[trigger] final(k).files@[j].obj == old(k).files@[j].obj,
        final(k).same_rest(*old(k)),
        closed_range(*old(k), *final(k), first as int,
            if (last as int) < old(k).cur_task().fd_table@.len() - 1 { last as int } else { old(k).cur_task().fd_table@.len() - 1 }),
{
    let i = k.current.unwrap();
    let len = k.manager.tasks[i].fd_table.len();
    let hi: usize = if (last as usize) < len - 1 { last as usize } else { len - 1 };
    let mut fd: usize = first as usize;
    let ghost t0 = old(k).cur_task().fd_table@;
    let ghost mut fs: Seq<Seq<OpenFile>> = seq![k.files@];
    let ghost mut cs: Seq<FileCtx> = seq![k.ctx];
    while fd <= hi
        invariant
            i == old(k).cur(),
            i < k.manager.tasks@.len(),
            k.running(),
            k.current == old(k).current,
            len == t0.len(),
            hi < len,
            first <= fd,
            fd > hi ==> (fd == first || fd == hi + 1),
            hi == (if (last as int) < len - 1 { last as int } else { len - 1 }),
            tasks_except(old(k).manager.tasks@, k.manager.tasks@, i as int),
            same_but_fds(old(k).cur_task(), k.manager.tasks@[i as int]),
            k.manager.tasks@[i as int].fd_table@.len() == len,
            forall|j: int| 0 <= j < len ==> #[trigger] k.manager.tasks@[i as int].fd_table@[j]
                == if first <= j < fd && j <= hi { None } else { t0[j] },
            k.files@.len() == old(k).files@.len(),
            forall|j: int| 0 <= j < old(k).files@.len() ==> #[trigger] k.files@[j].obj == old(k).files@[j].obj,
            k.same_rest(*old(k)),
            fs.len() == fd - first + 1, cs.len() == fd - first + 1,
            fs[0] == old(k).files@, cs[0] == old(k).ctx,
            fs.last() == k.files@, cs.last() == k.ctx,
            forall|j: int| 0 <= j < fd - first ==> #[trigger] release_step(fs[j], cs[j], fs[j + 1], cs[j + 1], t0[first + j]),
        decreases hi + 1 - fd,
    {
        let ghost before = *k;
        let prev = k.manager.tasks[i].fd_table[fd];
        k.manager.tasks[i].fd_table.set(fd, None);
        let ghost mid = *k;
        proof {
            assert forall|j: int| 0 <= j < k.manager.tasks@.len()
                implies table_ok(#[trigger] k.manager.tasks@[j].fd_table@, k.files@.len() as int) by {
                assert(table_ok(before.manager.tasks@[j].fd_table@, before.files@.len() as int));
            }
            if let Some(p) = prev {
                assert(table_ok(before.manager.tasks@[i as int].fd_table@, before.files@.len() as int));
                let _ = before.manager.tasks@[i as int].fd_table@[fd as int];
            }
        }
        match prev {
            Some(p) => {
                k.release(p);
                proof { lemma_release_ok(mid, *k, p as int); }
            },
            None => {},
        }
        proof {
            let n0 = fs.len();
            fs = fs.push(k.files@);
            cs = cs.push(k.ctx);
            assert(t0[first + (fd - first)] == prev);
            assert(release_step(fs[n0 - 1], cs[n0 - 1], fs[n0 as int], cs[n0 as int], t0[first + (fd - first)]));
        }
        fd = fd + 1;
    }
    proof {
        let hs: int = if (last as int) < t0.len() - 1 { last as int } else { t0.len() - 1 };
        assert(close_trace(old(k).files@, old(k).ctx, t0, first as int, hs, fs, cs)
            && fs.last() == k.files@ && cs.last() == k.ctx);
        assert(closed_range(*old(k), *k, first as int, hs));
    }
    0
}

pub proof fn lemma_read_len(o0: FileObject, o1: FileObject, c0: FileCtx, c1: FileCtx, len: usize, r: (isize, Seq<u8>))
    requires read_post(o0, o1, c0, c1, len, r),
    ensures r.1.len() <= len, r.0 <= len,
{
    match o0 {
        FileObject::Tmp(f0) => {
            let f1 = o1->Tmp_0;
            assert(crate::fs::tmpfile::tmp_read_rel(f0, f1, len, r));
            if f0.readable {
                let pos = f0.offset as int;
                let n = crate::fs::tmpfile::read_count(f0.data@.len() as int, pos, len as int);
                if pos < f0.data@.len() {
                    assert(r.1.len() == n);
                }
            }
        },
        FileObject::Pipe(p) => {
            if p.is_read_end {
                let q0 = c0.pipes@[p.inner as int];
                assert(crate::fs::pipe::pipe_read_rel(q0, c1.pipes@[p.inner as int], len, r));
                if q0.buf@.len() > 0 {
                    let n = crate::fs::pipe::take_count(q0.buf@.len() as int, len as int);
                    assert(r.1 == q0.buf@.take(n));
                }
            }
        },
        FileObject::Socket(s0) => {
            let s1 = o1->Socket_0;
            assert(crate::net::recv_rel(s0, s1, len, r));
        },
        FileObject::Event(e0) => {
            let e1 = o1->Event_0;
            assert(crate::fs::eventfd::event_read_rel(e0, e1, len, r));
            if len >= 8 && e0.counter > 0 {
                let val: u64 = if e0.semaphore { 1 } else { e0.counter };
                crate::fs::eventfd::lemma_le_bytes_len(val as int, 8);
            }
        },
        _ => {},
    }
}

pub proof fn lemma_write_len(o0: FileObject, o1: FileObject, c0: FileCtx, c1: FileCtx, buf: Seq<u8>, r: isize)
    requires write_post(o0, o1, c0, c1, buf, r),
    ensures r <= buf.len(),
{
    match o0 {
        FileObject::Tmp(f0) => {
            let f1 = o1->Tmp_0;
            assert(crate::fs::tmpfile::tmp_write_rel(f0, f1, buf, r));
        },
        FileObject::Pipe(p) => {
            if !p.is_read_end {
                assert(crate::fs::pipe::pipe_write_rel(c0.pipes@[p.inner as int], c1.pipes@[p.inner as int], buf, r));
            }
        },
        FileObject::Socket(s0) => {
            let s1 = o1->Socket_0;
            assert(crate::net::send_rel(s0, s1, buf, r));
        },
        FileObject::Event(e0) => {
            let e1 = o1->Event_0;
            assert(crate::fs::eventfd::event_write_rel(e0, e1, buf, r));
        },
        _ => {},
    }
}

/// Copies up to `count` bytes (at most 64 KiB) from `in_fd` to `out_fd`: a read of `in_fd`,
/// then, when it gave bytes, a write of them to `out_fd`. EBADF (-9) when either is not open.
pub fn sys_sendfile(k: &mut Kernel, out_fd: usize, in_fd: usize, count: usize) -> (r: i64)
    requires
        old(k).running(),
    ensures
        final(k).running(),
        old(k).fd_obj(in_fd as int).is_none() || old(k).fd_obj(out_fd as int).is_none() ==> r == EBADF && *final(k) == *old(k),
        old(k).fd_obj(in_fd as int).is_some() && old(k).fd_obj(out_fd as int).is_some() ==> {
            let iid = old(k).fd_obj(in_fd as int).unwrap();
            let oid = old(k).fd_obj(out_fd as int).unwrap();
            exists|mid_obj: FileObject, mid_ctx: FileCtx, data: Seq<u8>, n: isize| {
                &&& #[trigger] read_post(old(k).files@[iid as int].obj, mid_obj, old(k).ctx, mid_ctx, min_len(count as int, 65536) as usize, (n, data))
                &&& n <= 0 ==> r == n && final(k).ctx == mid_ctx && final(k).files@[iid as int].obj == mid_obj
                &&& n > 0 && !(if iid == oid { mid_obj } else { old(k).files@[oid as int].obj }).write_fits(data.len() as int)
                    ==> r == EFBIG && final(k).ctx == mid_ctx && final(k).files@[iid as int].obj == mid_obj
                &&& n > 0 && (if iid == oid { mid_obj } else { old(k).files@[oid as int].obj }).write_fits(data.len() as int)
                    ==> write_post(if iid == oid { mid_obj } else { old(k).files@[oid as int].obj },
                        final(k).files@[oid as int].obj, mid_ctx, final(k).ctx, data, r as isize)
            }
        },
{
    let iid = match k.lookup(in_fd) {
        Some(id) => id,
        None => return EBADF,
    };
    let oid = match k.lookup(out_fd) {
        Some(id) => id,
        None => return EBADF,
    };
    let want: usize = if count < 65536 { count } else { 65536 };
    let (n, data) = k.files[iid].obj.read(&mut k.ctx, want);
    proof { lemma_obj_change_ok(*old(k), *k, iid as int); }
    let ghost mid_obj = k.files@[iid as int].obj;
    let ghost mid_ctx = k.ctx;
    proof {
        let w = min_len(count as int, 65536) as usize;
        assert(w == want);
        assert(read_post(old(k).files@[iid as int].obj, mid_obj, old(k).ctx, mid_ctx, w, (n, data@)));
        lemma_read_len(old(k).files@[iid as int].obj, mid_obj, old(k).ctx, mid_ctx, want, (n, data@));
    }
    if n <= 0 {
        return n as i64;
    }
    let ghost mid = *k;
    let ok = k.files[oid].obj.fits(data.len());
    if !ok {
        return EFBIG;
    }
    let w = k.files[oid].obj.write(&mut k.ctx, data.as_slice());
    proof { lemma_obj_change_ok(mid, *k, oid as int); }
    w as i64
}

/// The sum of `s`.
pub open spec fn sum_lens(s: Seq<usize>) -> int
    decreases s.len(),
{
    if s.len() == 0 { 0 } else { sum_lens(s.drop_last()) + s.last() }
}

/// The byte count of the pieces `s`.
pub open spec fn sum_bufs(s: Seq<Vec<u8>>) -> int
    decreases s.len(),
{
    if s.len() == 0 { 0 } else { sum_bufs(s.drop_last()) + s.last()@.len() }
}

/// What `read` of `len` bytes from `fd` does to `k0` (giving `k1`) and gives: see `sys_read`.
pub open spec fn read_step(k0: Kernel, k1: Kernel, fd: int, len: usize, r: (i64, Seq<u8>)) -> bool {
    &&& isize::MIN <= r.0 <= isize::MAX
    &&& match k0.fd_obj(fd) {
        None => r.0 == EBADF && r.1.len() == 0 && k1 == k0,
        Some(id) => k1.file_changed(k0, id as int)
            && read_post(k0.files@[id as int].obj, k1.files@[id as int].obj, k0.ctx, k1.ctx, len, (r.0 as isize, r.1)),
    }
}

/// A piece of `len` bytes: an empty one is not read and gives nothing.
pub open spec fn piece_read(k0: Kernel, k1: Kernel, fd: int, len: usize, r: (i64, Seq<u8>)) -> bool {
    if len == 0 { r == (0i64, Seq::<u8>::empty()) && k1 == k0 } else { read_step(k0, k1, fd, len, r) }
}

/// Reading the pieces `lens` one after the other from `k0`: `ks` are the kernels between
/// the reads (the first is `k0`), `rs` what each piece gave; every read but the last
/// succeeded, and the reading stopped before the end only at a failure.
pub open spec fn readv_trace(k0: Kernel, fd: int, lens: Seq<usize>, ks: Seq<Kernel>, rs: Seq<(i64, Seq<u8>)>) -> bool {
    &&& ks.len() == rs.len() + 1 && ks[0] == k0 && rs.len() <= lens.len()
    &&& forall|j: int| 0 <= j < rs.len() ==> #[trigger] piece_read(ks[j], ks[j + 1], fd, lens[j], rs[j])
    &&& forall|j: int| 0 <= j < rs.len() - 1 ==> (#[trigger] rs[j]).0 >= 0
    &&& rs.len() < lens.len() ==> rs.len() > 0 && rs.last().0 < 0
}

/// The sum of the counts of `rs`.
pub open spec fn sum_counts(rs: Seq<(i64, Seq<u8>)>) -> int
    decreases rs.len(),
{
    if rs.len() == 0 { 0 } else { sum_counts(rs.drop_last()) + rs.last().0 }
}

/// The bytes each piece gave.
pub open spec fn piece_bytes(rs: Seq<(i64, Seq<u8>)>) -> Seq<Seq<u8>> {
    rs.map_values(|x: (i64, Seq<u8>)| x.1)
}

/// What reading gives after the trace `rs`: the failing read's result and the bytes of the
/// pieces before it, or the total and the bytes of every piece.
pub open spec fn readv_result(rs: Seq<(i64, Seq<u8>)>) -> (i64, Seq<Seq<u8>>) {
    if rs.len() > 0 && rs.last().0 < 0 {
        (rs.last().0, piece_bytes(rs.drop_last()))
    } else {
        (sum_counts(rs) as i64, piece_bytes(rs))
    }
}

pub open spec fn vec_bytes(v: Seq<Vec<u8>>) -> Seq<Seq<u8>> {
    v.map_values(|b: Vec<u8>| b@)
}

pub proof fn lemma_bytes_push(out: Seq<Vec<u8>>, rs: Seq<(i64, Seq<u8>)>, d: Vec<u8>, x: (i64, Seq<u8>))
    requires vec_bytes(out) == piece_bytes(rs), d@ == x.1,
    ensures vec_bytes(out.push(d)) == piece_bytes(rs.push(x)),
{
    assert(out.len() == vec_bytes(out).len() && rs.len() == piece_bytes(rs).len());
    assert forall|j: int| 0 <= j < out.len() + 1 implies #[trigger] vec_bytes(out.push(d))[j] == piece_bytes(rs.push(x))[j] by {
        if j < out.len() {
            assert(vec_bytes(out)[j] == piece_bytes(rs)[j]);
        }
    }
    assert(vec_bytes(out.push(d)) =~= piece_bytes(rs.push(x)));
}

/// Reads into the pieces of the user buffers, given by their lengths `lens` (each buffer is
/// cut at page boundaries), one read per piece, skipping empty pieces (see `readv_trace`):
/// the total read, or the first failing read's result; and the bytes each piece got, up to
/// the failing one. EBADF (-9) when `fd` is not open.
pub fn sys_readv(k: &mut Kernel, fd: usize, lens: &Vec<usize>) -> (r: (i64, Vec<Vec<u8>>))
    requires
        old(k).running(),
        sum_lens(lens@) <= i64::MAX,
        forall|i: int| 0 <= i < lens@.len() ==> #[trigger] lens@[i] <= isize::MAX,
    ensures
        final(k).running(),
        old(k).fd_obj(fd as int).is_none() ==> r.0 == EBADF && r.1@.len() == 0 && *final(k) == *old(k),
        old(k).fd_obj(fd as int).is_some() ==> exists|ks: Seq<Kernel>, rs: Seq<(i64, Seq<u8>)>|
            readv_trace(*old(k), fd as int, lens@, ks, rs) && ks.last() == *final(k)
            && readv_result(rs) == (r.0, vec_bytes(r.1@)),
        r.0 >= 0 ==> r.0 <= sum_lens(lens@),
{
    if k.lookup(fd).is_none() {
        return (EBADF, Vec::new());
    }
    let mut total: i64 = 0;
    let mut out: Vec<Vec<u8>> = Vec::new();
    let mut i: usize = 0;
    let ghost mut ks: Seq<Kernel> = seq![*k];
    let ghost mut rs: Seq<(i64, Seq<u8>)> = Seq::empty();
    while i < lens.len()
        invariant
            k.running(),
            i <= lens@.len(),
            sum_lens(lens@) <= i64::MAX,
            forall|j: int| 0 <= j < lens@.len() ==> #[trigger] lens@[j] <= isize::MAX,
            0 <= total <= sum_lens(lens@.take(i as int)),
            old(k).fd_obj(fd as int).is_some(),
            rs.len() == i, ks.len() == i + 1, ks[0] == *old(k), ks[i as int] == *k,
            forall|j: int| 0 <= j < i ==> #[trigger] piece_read(ks[j], ks[j + 1], fd as int, lens@[j], rs[j]),
            forall|j: int| 0 <= j < i ==> (#[trigger] rs[j]).0 >= 0,
            total == sum_counts(rs),
            vec_bytes(out@) == piece_bytes(rs),
        decreases lens@.len() - i,
    {
        proof {
            assert(lens@.take(i as int + 1).drop_last() =~= lens@.take(i as int));
            lemma_sum_prefix(lens@, i as int + 1);
        }
        let ghost rs0 = rs;
        if lens[i] != 0 {
            let ghost before = *k;
            let (n, data) = sys_read(k, fd, lens[i]);
            proof {
                ks = ks.push(*k);
                rs = rs.push((n, data@));
                assert(piece_read(ks[i as int], ks[i + 1], fd as int, lens@[i as int], rs[i as int]));
            }
            if n < 0 {
                proof {
                    assert(rs.drop_last() =~= rs.take(i as int));
                    assert(vec_bytes(out@) == piece_bytes(rs.drop_last()));
                    assert(readv_trace(*old(k), fd as int, lens@, ks, rs));
                }
                return (n, out);
            }
            proof {
                if let Some(id) = before.fd_obj(fd as int) {
                    lemma_read_len(before.files@[id as int].obj, k.files@[id as int].obj, before.ctx, k.ctx, lens@[i as int], (n as isize, data@));
                }
                assert(rs.drop_last() =~= rs.take(i as int));
            }
            total = total + n;
            proof { assert(rs.drop_last() == rs0); }
            let ghost o0 = out@;
            proof { lemma_bytes_push(o0, rs0, data, (n, data@)); }
            out.push(data);
        } else {
            proof {
                ks = ks.push(*k);
                rs = rs.push((0i64, Seq::<u8>::empty()));
                assert(rs.drop_last() =~= rs.take(i as int));
            }
            proof { assert(rs.drop_last() == rs0); }
            let ghost o0 = out@;
            let empty: Vec<u8> = Vec::new();
            proof { lemma_bytes_push(o0, rs0, empty, (0i64, Seq::<u8>::empty())); }
            out.push(empty);
        }
        i = i + 1;
    }
    proof {
        assert(lens@.take(i as int) =~= lens@);
        assert(readv_trace(*old(k), fd as int, lens@, ks, rs));
    }
    (total, out)
}

proof fn lemma_sum_prefix(s: Seq<usize>, i: int)
    requires 0 <= i <= s.len(),
    ensures 0 <= sum_lens(s.take(i)) <= sum_lens(s),
    decreases s.len() - i,
{
    if i < s.len() {
        lemma_sum_prefix(s, i + 1);
        let t = s.take(i + 1);
        assert(t.drop_last() =~= s.take(i));
        assert(t.last() == s[i]);
        lemma_sum_nonneg(s.take(i));
    } else {
        assert(s.take(i) =~= s);
        lemma_sum_nonneg(s);
    }
}

proof fn lemma_sum_nonneg(s: Seq<usize>)
    ensures sum_lens(s) >= 0,
    decreases s.len(),
{
    if s.len() > 0 {
        lemma_sum_nonneg(s.drop_last());
    }
}

/// What `write` of `buf` to `fd` does to `k0` (giving `k1`) and gives: see `sys_write`.
pub open spec fn write_step(k0: Kernel, k1: Kernel, fd: int, buf: Seq<u8>, r: i64) -> bool {
    &&& isize::MIN <= r <= isize::MAX
    &&& match k0.fd_obj(fd) {
        None => r == EBADF && k1 == k0,
        Some(id) => k1.file_changed(k0, id as int)
            && write_post(k0.files@[id as int].obj, k1.files@[id as int].obj, k0.ctx, k1.ctx, buf, r as isize),
    }
}

/// A piece `buf`: an empty one is not written and gives 0.
pub open spec fn piece_written(k0: Kernel, k1: Kernel, fd: int, buf: Seq<u8>, r: i64) -> bool {
    if buf.len() == 0 { r == 0 && k1 == k0 } else { write_step(k0, k1, fd, buf, r) }
}

/// Writing the pieces `bufs` one after the other from `k0`: `ks` are the kernels between
/// the writes (the first is `k0`), `rs` what each piece's write gave; every write but the
/// last succeeded, and the writing stopped before the end only at a failure, or before a
/// piece that does not fit (see `write_fits`).
pub open spec fn writev_trace(k0: Kernel, fd: int, bufs: Seq<Seq<u8>>, ks: Seq<Kernel>, rs: Seq<i64>) -> bool {
    &&& ks.len() == rs.len() + 1 && ks[0] == k0 && rs.len() <= bufs.len()
    &&& forall|j: int| 0 <= j < rs.len() ==> #[trigger] piece_written(ks[j], ks[j + 1], fd, bufs[j], rs[j])
    &&& forall|j: int| 0 <= j < rs.len() - 1 ==> #[trigger] rs[j] >= 0
    &&& rs.len() < bufs.len() ==> (rs.len() > 0 && rs.last() < 0)
        || (bufs[rs.len() as int].len() > 0 && !write_fits(ks.last(), fd, bufs[rs.len() as int].len() as int))
}

pub open spec fn sum_written(rs: Seq<i64>) -> int
    decreases rs.len(),
{
    if rs.len() == 0 { 0 } else { sum_written(rs.drop_last()) + rs.last() }
}

/// What writing gives after the trace `rs`: the failing write's result, or the total.
pub open spec fn writev_result(rs: Seq<i64>) -> i64 {
    if rs.len() > 0 && rs.last() < 0 { rs.last() } else { sum_written(rs) as i64 }
}

/// Writes the pieces `bufs` of the user buffers (cut at page boundaries), one write per
/// piece, skipping empty ones (see `writev_trace`): the total written, or the first failing
/// write's result. A write that would take a regular file's size or offset past the
/// address range is not made: the total so far is the result. EBADF (-9) when `fd` is not
/// open.
pub fn sys_writev(k: &mut Kernel, fd: usize, bufs: &Vec<Vec<u8>>) -> (r: i64)
    requires
        old(k).running(),
        sum_bufs(bufs@) <= i64::MAX,
        forall|i: int| 0 <= i < bufs@.len() ==> (#[trigger] bufs@[i])@.len() <= isize::MAX,
    ensures
        final(k).running(),
        old(k).fd_obj(fd as int).is_none() ==> r == EBADF && *final(k) == *old(k),
        old(k).fd_obj(fd as int).is_some() ==> exists|ks: Seq<Kernel>, rs: Seq<i64>|
            writev_trace(*old(k), fd as int, vec_bytes(bufs@), ks, rs) && ks.last() == *final(k)
            && writev_result(rs) == r,
        r >= 0 ==> r <= sum_bufs(bufs@),
{
    let id = match k.lookup(fd) {
        Some(id) => id,
        None => return EBADF,
    };
    let ghost bs = vec_bytes(bufs@);
    let mut total: i64 = 0;
    let mut i: usize = 0;
    let ghost mut ks: Seq<Kernel> = seq![*k];
    let ghost mut rs: Seq<i64> = Seq::empty();
    while i < bufs.len()
        invariant
            k.running(),
            i <= bufs@.len(),
            sum_bufs(bufs@) <= i64::MAX,
            forall|j: int| 0 <= j < bufs@.len() ==> (#[trigger] bufs@[j])@.len() <= isize::MAX,
            0 <= total <= sum_bufs(bufs@.take(i as int)),
            k.fd_obj(fd as int) == Some(id),
            old(k).fd_obj(fd as int) == Some(id),
            id < k.files@.len(),
            bs == vec_bytes(bufs@),
            rs.len() == i, ks.len() == i + 1, ks[0] == *old(k), ks[i as int] == *k,
            forall|j: int| 0 <= j < i ==> #[trigger] piece_written(ks[j], ks[j + 1], fd as int, bs[j], rs[j]),
            forall|j: int| 0 <= j < i ==> #[trigger] rs[j] >= 0,
            total == sum_written(rs),
        decreases bufs@.len() - i,
    {
        proof {
            assert(bufs@.take(i as int + 1).drop_last() =~= bufs@.take(i as int));
            lemma_bufs_prefix(bufs@, i as int + 1);
        }
        let ghost rs0 = rs;
        let len = bufs[i].len();
        assert(bs[i as int] == bufs@[i as int]@);
        if len != 0 {
            if !k.files[id].obj.fits(len) {
                proof { assert(writev_trace(*old(k), fd as int, bs, ks, rs)); }
                return total;
            }
            let ghost before = *k;
            let n = sys_write(k, fd, bufs[i].as_slice());
            proof {
                ks = ks.push(*k);
                rs = rs.push(n);
                assert(piece_written(ks[i as int], ks[i + 1], fd as int, bs[i as int], rs[i as int]));
            }
            if n < 0 {
                proof { assert(writev_trace(*old(k), fd as int, bs, ks, rs)); }
                return n;
            }
            proof {
                lemma_write_len(before.files@[id as int].obj, k.files@[id as int].obj, before.ctx, k.ctx, bufs@[i as int]@, n as isize);
                assert(rs.drop_last() == rs0);
            }
            total = total + n;
        } else {
            proof {
                ks = ks.push(*k);
                rs = rs.push(0i64);
                assert(rs.drop_last() == rs0);
            }
        }
        i = i + 1;
    }
    proof {
        assert(bufs@.take(i as int) =~= bufs@);
        assert(writev_trace(*old(k), fd as int, bs, ks, rs));
    }
    total
}

proof fn lemma_bufs_prefix(s: Seq<Vec<u8>>, i: int)
    requires 0 <= i <= s.len(),
    ensures 0 <= sum_bufs(s.take(i)) <= sum_bufs(s),
    decreases s.len() - i,
{
    if i < s.len() {
        lemma_bufs_prefix(s, i + 1);
        let t = s.take(i + 1);
        assert(t.drop_last() =~= s.take(i));
        assert(t.last() == s[i]);
        lemma_bufs_nonneg(s.take(i));
    } else {
        assert(s.take(i) =~= s);
        lemma_bufs_nonneg(s);
    }
}

proof fn lemma_bufs_nonneg(s: Seq<Vec<u8>>)
    ensures sum_bufs(s) >= 0,
    decreases s.len(),
{
    if s.len() > 0 {
        lemma_bufs_nonneg(s.drop_last());
    }
}

} // verus!
