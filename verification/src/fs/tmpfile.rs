//! Open files and directories of the in-memory file system.
use vstd::prelude::*;
use super::stat::{FileStat, zero_stat};
use super::tmpfs::{TmpFs, NodeV, child_entries, child_prefix, dot_entries, entry_view};
use super::path::normalized;
use super::vfs::DirEntry;
use super::inode::InodeType;

verus! {

/// `data[start..start + n]`.
pub fn copy_range(data: &[u8], start: usize, n: usize) -> (r: Vec<u8>)
    requires start + n <= data.len(),
    ensures r@ == data@.subrange(start as int, start + n),
{
    let mut r: Vec<u8> = Vec::new();
    let mut i: usize = 0;
    while i < n
        invariant
            i <= n,
            start + n <= data.len(),
            r@ == data@.subrange(start as int, start + i),
        decreases n - i,
    {
        r.push(data[start + i]);
        assert(data@.subrange(start as int, start + i + 1) =~= data@.subrange(start as int, start + i).push(data@[start + i]));
        i = i + 1;
    }
    r
}

/// `data` with `buf` written at `pos`, grown with zeros as needed.
pub open spec fn write_at_spec(data: Seq<u8>, pos: int, buf: Seq<u8>) -> Seq<u8> {
    let grown = if pos + buf.len() > data.len() { data + Seq::new((pos + buf.len() - data.len()) as nat, |i: int| 0u8) } else { data };
    Seq::new(grown.len(), |i: int| if pos <= i < pos + buf.len() { buf[i - pos] } else { grown[i] })
}

/// Writes `buf` into `data` at `pos`, growing it with zeros first.
pub fn write_bytes_at(data: &mut Vec<u8>, pos: usize, buf: &[u8])
    requires pos + buf.len() <= usize::MAX,
    ensures final(data)@ == write_at_spec(old(data)@, pos as int, buf@),
{
    let ghost grown = if pos + buf.len() > old(data)@.len() {
        old(data)@ + Seq::new((pos + buf.len() - old(data)@.len()) as nat, |i: int| 0u8)
    } else {
        old(data)@
    };
    if pos + buf.len() > data.len() {
        let target = pos + buf.len();
        while data.len() < target
            invariant
                old(data)@.len() <= data@.len() <= target,
                target == pos + buf.len(),
                forall|i: int| 0 <= i < old(data)@.len() ==> data@[i] == old(data)@[i],
                forall|i: int| old(data)@.len() <= i < data@.len() ==> data@[i] == 0u8,
            decreases target - data.len(),
        {
            data.push(0u8);
        }
        assert(data@ =~= grown);
    }
    assert(data@ =~= grown);
    let mut i: usize = 0;
    while i < buf.len()
        invariant
            i <= buf.len(),
            pos + buf.len() <= usize::MAX,
            data@.len() == grown.len(),
            pos + buf.len() <= grown.len(),
            forall|j: int| 0 <= j < grown.len() ==> data@[j] == if pos <= j < pos + i { buf@[j - pos] } else { grown[j] },
        decreases buf.len() - i,
    {
        data.set(pos + i, buf[i]);
        i = i + 1;
    }
    assert(data@ =~= write_at_spec(old(data)@, pos as int, buf@));
}

/// Appends zeros to `v` until it is `target` bytes long.
pub fn grow_zeros(v: &mut Vec<u8>, target: usize)
    requires old(v)@.len() <= target,
    ensures final(v)@ == old(v)@ + Seq::new((target - old(v)@.len()) as nat, |i: int| 0u8),
{
    while v.len() < target
        invariant
            old(v)@.len() <= v@.len() <= target,
            forall|i: int| 0 <= i < old(v)@.len() ==> v@[i] == old(v)@[i],
            forall|i: int| old(v)@.len() <= i < v@.len() ==> v@[i] == 0u8,
        decreases target - v.len(),
    {
        v.push(0u8);
    }
    assert(v@ =~= old(v)@ + Seq::new((target - old(v)@.len()) as nat, |i: int| 0u8));
}

/// An open regular file of the in-memory file system. It holds its own copy of the
/// data, and writes go to both the copy and the file system.
pub struct TmpFile {
    pub path: Vec<u8>,
    pub ino: u64,
    pub data: Vec<u8>,
    pub offset: u64,
    pub writable: bool,
    pub readable: bool,
    pub append: bool,
    pub nonblock: bool,
    pub flags: i32,
}

/// How many bytes a read of `len` bytes at `pos` gets from `size` bytes.
pub open spec fn read_count(size: int, pos: int, len: int) -> int {
    if pos >= size { 0 } else if len < size - pos { len } else { size - pos }
}

/// The `n` bytes read at `pos` (none when `pos` is past the end).
pub open spec fn read_slice(data: Seq<u8>, pos: int, n: int) -> Seq<u8> {
    if pos >= data.len() { Seq::empty() } else { data.subrange(pos, pos + n) }
}

/// The position a seek moves to, or `None` for a bad `whence` or a negative position.
pub open spec fn seek_target(cur: u64, size: int, off: i64, whence: i32) -> Option<i64> {
    let new = if whence == 0 {
        Some(off)
    } else if whence == 1 {
        Some((cur as i64).wrapping_add(off))
    } else if whence == 2 {
        Some((size as i64).wrapping_add(off))
    } else {
        None
    };
    match new {
        Some(n) => if n < 0 { None } else { Some(n) },
        None => None,
    }
}

pub open spec fn tmp_read_rel(f0: TmpFile, f1: TmpFile, len: usize, r: (isize, Seq<u8>)) -> bool {
    &&& (!f0.readable ==> r.0 == -1 && r.1.len() == 0 && f1 == f0)
    &&& (f0.readable ==> {
            let pos = f0.offset as int;
            let n = read_count(f0.data@.len() as int, pos, len as int);
            &&& r.0 == n
            &&& r.1 == read_slice(f0.data@, pos, n)
            &&& f1.offset == (f0.offset + n) as u64
            &&& f1.data@ == f0.data@
            &&& f1.path@ == f0.path@
            &&& f1.ino == f0.ino
            &&& f1.readable == f0.readable
            &&& f1.writable == f0.writable
            &&& f1.append == f0.append
            &&& f1.flags == f0.flags
        })
}

pub open spec fn tmp_write_rel(f0: TmpFile, f1: TmpFile, buf: Seq<u8>, r: isize) -> bool {
    &&& (!f0.writable ==> r == -1 && f1 == f0)
    &&& (f0.writable ==> {
            let pos = if f0.append { f0.data@.len() as int } else { f0.offset as usize as int };
            &&& r == buf.len()
            &&& f1.data@ == write_at_spec(f0.data@, pos, buf)
            &&& f1.offset == (pos + buf.len()) as u64
            &&& f1.path@ == f0.path@
            &&& f1.ino == f0.ino
            &&& f1.readable == f0.readable
            &&& f1.writable == f0.writable
            &&& f1.append == f0.append
            &&& f1.flags == f0.flags
        })
}

/// A write to a file opened in append mode keeps the old data as a prefix and adds the
/// written bytes after it, wherever the offset stood; the offset then ends past them.
pub proof fn lemma_append_write(f0: TmpFile, f1: TmpFile, buf: Seq<u8>, r: isize)
    requires tmp_write_rel(f0, f1, buf, r), f0.writable, f0.append,
    ensures
        f1.data@ == f0.data@ + buf,
        r == buf.len(),
        f1.offset == (f0.data@.len() + buf.len()) as u64,
{
    assert(write_at_spec(f0.data@, f0.data@.len() as int, buf) =~= f0.data@ + buf);
}

/// A write to a file not in append mode puts the written bytes at the offset (as a machine
/// word) and keeps the bytes before it.
pub proof fn lemma_write_at_offset(f0: TmpFile, f1: TmpFile, buf: Seq<u8>, r: isize)
    requires tmp_write_rel(f0, f1, buf, r), f0.writable, !f0.append,
    ensures ({
        let o = f0.offset as usize as int;
        &&& r == buf.len()
        &&& f1.data@.len() >= o + buf.len()
        &&& f1.data@.subrange(o, o + buf.len()) == buf
        &&& forall|i: int| 0 <= i < o && i < f0.data@.len() ==> #[trigger] f1.data@[i] == f0.data@[i]
    }),
{
    let o = f0.offset as usize as int;
    assert(f1.data@.subrange(o, o + buf.len()) =~= buf);
}

pub open spec fn tmp_seek_rel(f0: TmpFile, f1: TmpFile, offset: i64, whence: i32, r: i64) -> bool {
    &&& (r == (match seek_target(f0.offset, f0.data@.len() as int, offset, whence) {
            Some(n) => n,
            None => -1i64
        }))
    &&& (f1.offset == (match seek_target(f0.offset, f0.data@.len() as int, offset, whence) {
            Some(n) => n as u64,
            None => f0.offset
        }))
    &&& (f1.data@ == f0.data@)
    &&& (f1.path@ == f0.path@)
    &&& (f1.ino == f0.ino)
    &&& (f1.readable == f0.readable)
    &&& (f1.writable == f0.writable)
    &&& (f1.append == f0.append)
    &&& (f1.flags == f0.flags)
}

pub open spec fn tmp_truncate_rel(f0: TmpFile, f1: TmpFile, size: u64, r: isize) -> bool {
    &&& (r == 0)
    &&& (size <= f0.data@.len() ==> f1.data@ == f0.data@.subrange(0, size as int))
    &&& (size > f0.data@.len() ==> f1.data@ == f0.data@ + Seq::new((size - f0.data@.len()) as nat, |i: int| 0u8))
    &&& (f1.offset == f0.offset)
    &&& (f1.path@ == f0.path@)
    &&& (f1.ino == f0.ino)
    &&& (f1.readable == f0.readable)
    &&& (f1.writable == f0.writable)
    &&& (f1.append == f0.append)
    &&& (f1.flags == f0.flags)
}

pub open spec fn tmp_read_at_spec(f: TmpFile, offset: u64, len: usize, r: (isize, Seq<u8>)) -> bool {
    &&& (!f.readable ==> r.0 == -1 && r.1.len() == 0)
    &&& (f.readable ==> {
            let pos = offset as int;
            let n = read_count(f.data@.len() as int, pos, len as int);
            &&& r.0 == n
            &&& r.1 == read_slice(f.data@, pos, n)
        })
}

pub open spec fn tmp_write_at_rel(f0: TmpFile, f1: TmpFile, offset: u64, buf: Seq<u8>, r: isize) -> bool {
    &&& (!f0.writable ==> r == -1 && f1 == f0)
    &&& (f0.writable ==> {
            &&& r == buf.len()
            &&& f1.data@ == write_at_spec(f0.data@, offset as usize as int, buf)
            &&& f1.offset == f0.offset
            &&& f1.path@ == f0.path@
            &&& f1.ino == f0.ino
            &&& f1.readable == f0.readable
            &&& f1.writable == f0.writable
            &&& f1.append == f0.append
            &&& f1.flags == f0.flags
        })
}

impl TmpFile {
    /// Reads up to `len` bytes at the current offset and advances it; -1 when not readable.
    pub fn read(&mut self, len: usize) -> (r: (isize, Vec<u8>))
        requires len <= isize::MAX,
        ensures
            tmp_read_rel(*old(self), *final(self), len, (r.0, r.1@)),
    {
        if !self.readable {
            return (-1, Vec::new());
        }
        if self.offset >= self.data.len() as u64 {
            return (0, Vec::new());
        }
        let start = self.offset as usize;
        let n = if len < self.data.len() - start { len } else { self.data.len() - start };
        let out = copy_range(self.data.as_slice(), start, n);
        self.offset = self.offset + n as u64;
        (n as isize, out)
    }

    /// Writes `buf` at the offset (at the end in append mode) and moves the offset past it;
    /// -1 when not writable.
    pub fn write(&mut self, buf: &[u8]) -> (r: isize)
        requires
            buf@.len() <= isize::MAX,
            old(self).data@.len() + buf@.len() <= usize::MAX,
            old(self).offset as usize + buf@.len() <= usize::MAX,
        ensures
            tmp_write_rel(*old(self), *final(self), buf@, r),
    {
        if !self.writable {
            return -1;
        }
        let pos = if self.append { self.data.len() } else { self.offset as usize };
        write_bytes_at(&mut self.data, pos, buf);
        self.offset = (pos + buf.len()) as u64;
        buf.len() as isize
    }

    pub fn stat(&self, now_ms: u64) -> (st: FileStat)
        ensures
            st == (FileStat {
                st_dev: 1,
                st_ino: self.ino,
                st_mode: 0o100000u32 | 0o644u32,
                st_nlink: 1,
                st_size: self.data@.len() as i64,
                st_blksize: 4096,
                st_blocks: ((self.data@.len() + 511) / 512) as i64,
                st_atime: (now_ms / 1000) as i64,
                st_mtime: (now_ms / 1000) as i64,
                st_ctime: (now_ms / 1000) as i64,
                ..zero_stat()
            }),
    {
        let now = (now_ms / 1000) as i64;
        let mut st = FileStat::zeroed();
        st.st_dev = 1;
        st.st_ino = self.ino;
        st.st_mode = InodeType::Regular.mode_bits() | 0o644;
        st.st_nlink = 1;
        st.st_size = self.data.len() as i64;
        st.st_blksize = 4096;
        st.st_blocks = ((self.data.len() as u128 + 511) / 512) as i64;
        st.st_atime = now;
        st.st_mtime = now;
        st.st_ctime = now;
        st
    }

    /// Moves the offset: from the start, the current offset or the end (`whence` 0, 1, 2).
    pub fn seek(&mut self, offset: i64, whence: i32) -> (r: i64)
        ensures
            tmp_seek_rel(*old(self), *final(self), offset, whence, r),
    {
        let new_offset = if whence == 0 {
            offset
        } else if whence == 1 {
            (self.offset as i64).wrapping_add(offset)
        } else if whence == 2 {
            (self.data.len() as i64).wrapping_add(offset)
        } else {
            return -1;
        };
        if new_offset < 0 {
            return -1;
        }
        self.offset = new_offset as u64;
        new_offset
    }

    pub fn get_offset(&self) -> (r: u64)
        ensures r == self.offset,
    {
        self.offset
    }

    /// Cuts or grows the data (with zeros) to `size` bytes.
    pub fn truncate(&mut self, size: u64) -> (r: isize)
        requires size <= usize::MAX,
        ensures
            tmp_truncate_rel(*old(self), *final(self), size, r),
    {
        let target = size as usize;
        if target <= self.data.len() {
            self.data.truncate(target);
        } else {
            grow_zeros(&mut self.data, target);
        }
        0
    }

    pub fn get_path(&self) -> (r: Option<Vec<u8>>)
        ensures r matches Some(p) && p@ == self.path@,
    {
        Some(super::tmpfs::copy_bytes(self.path.as_slice()))
    }

    pub fn get_flags(&self) -> (r: i32)
        ensures r == self.flags,
    {
        self.flags
    }

    /// Reads up to `len` bytes at `offset` without moving the offset; -1 when not readable.
    pub fn read_at(&self, offset: u64, len: usize) -> (r: (isize, Vec<u8>))
        requires len <= isize::MAX,
        ensures
            tmp_read_at_spec(*self, offset, len, (r.0, r.1@)),
    {
        if !self.readable {
            return (-1, Vec::new());
        }
        if offset >= self.data.len() as u64 {
            return (0, Vec::new());
        }
        let start = offset as usize;
        let n = if len < self.data.len() - start { len } else { self.data.len() - start };
        (n as isize, copy_range(self.data.as_slice(), start, n))
    }

    /// Writes `buf` at `offset` without moving the offset; -1 when not writable.
    pub fn write_at(&mut self, offset: u64, buf: &[u8]) -> (r: isize)
        requires
            buf@.len() <= isize::MAX,
            offset as usize + buf@.len() <= usize::MAX,
        ensures
            tmp_write_at_rel(*old(self), *final(self), offset, buf@, r),
    {
        if !self.writable {
            return -1;
        }
        write_bytes_at(&mut self.data, offset as usize, buf);
        buf.len() as isize
    }

    pub fn set_flags(&mut self, flags: i32)
        ensures *final(self) == (TmpFile { flags, ..*old(self) }),
    {
        self.flags = flags;
    }

    pub fn set_nonblock(&mut self, nonblock: bool)
        ensures *final(self) == (TmpFile { nonblock, ..*old(self) }),
    {
        self.nonblock = nonblock;
    }

    pub fn is_nonblock(&self) -> (r: bool)
        ensures r == self.nonblock,
    {
        self.nonblock
    }
}

/// An open directory of the in-memory file system.
pub struct TmpDir {
    pub path: Vec<u8>,
    /// How many entries earlier calls of `getdents` returned.
    pub offset: usize,
}

/// The length of a `linux_dirent64` record for a name of `n` bytes.
pub open spec fn reclen(n: int) -> int {
    (8 + 8 + 2 + 1 + n + 1 + 7) / 8 * 8
}

/// `linux_dirent64` records for `entries`, from entry `from` on, while they fit in `room` bytes:
/// `d_ino` (8 bytes), `d_off` (8), `d_reclen` (2), `d_type` (1), the name and a NUL, padded to 8.
pub open spec fn dirent_records(entries: Seq<(Seq<u8>, u64, u8)>, from: int, room: int) -> (Seq<u8>, int)
    decreases entries.len() - from,
{
    if from < 0 || from >= entries.len() {
        (Seq::empty(), from)
    } else {
        let (name, ino, dtype) = entries[from];
        let len = reclen(name.len() as int);
        if len > room {
            (Seq::empty(), from)
        } else {
            let rec = dirent_record(name, ino, dtype, from + 1);
            let (rest, next) = dirent_records(entries, from + 1, room - len);
            (rec + rest, next)
        }
    }
}

/// One `linux_dirent64` record whose `d_off` is `off`.
pub open spec fn dirent_record(name: Seq<u8>, ino: u64, dtype: u8, off: int) -> Seq<u8> {
    let len = reclen(name.len() as int);
    le_bytes(ino as int, 8) + le_bytes(off, 8) + le_bytes(len, 2) + seq![dtype] + name
        + Seq::new((len - 19 - name.len()) as nat, |i: int| 0u8)
}

proof fn lemma_le_bytes_len(v: int, n: nat)
    ensures le_bytes(v, n).len() == n,
    decreases n,
{
    if n > 0 { lemma_le_bytes_len(v / 256, (n - 1) as nat); }
}

fn push_record(out: &mut Vec<u8>, name: &[u8], ino: u64, dtype: u8, off: u64, rl: usize)
    requires
        rl == reclen(name@.len() as int),
    ensures
        final(out)@ == old(out)@ + dirent_record(name@, ino, dtype, off as int),
        dirent_record(name@, ino, dtype, off as int).len() == rl,
{
    proof {
        let n = name@.len() as int;
        assert(reclen(n) >= 19 + n) by (nonlinear_arith) requires n >= 0;
        lemma_le_bytes_len(ino as int, 8);
        lemma_le_bytes_len(off as int, 8);
        lemma_le_bytes_len(rl as int, 2);
    }
    let ghost before = out@;
    push_le(out, ino, 8);
    push_le(out, off, 8);
    push_le(out, rl as u64, 2);
    out.push(dtype);
    let mut k: usize = 0;
    while k < name.len()
        invariant
            k <= name@.len(),
            out@ == before + le_bytes(ino as int, 8) + le_bytes(off as int, 8) + le_bytes(rl as int, 2)
                + seq![dtype] + name@.take(k as int),
        decreases name@.len() - k,
    {
        out.push(name[k]);
        assert(name@.take(k + 1) =~= name@.take(k as int).push(name@[k as int]));
        k = k + 1;
    }
    assert(name@.take(k as int) =~= name@);
    let mut z: usize = 0;
    let pad = rl - 19 - name.len();
    assert(Seq::new(0nat, |j: int| 0u8) =~= Seq::<u8>::empty());
    while z < pad
        invariant
            z <= pad,
            out@ == before + le_bytes(ino as int, 8) + le_bytes(off as int, 8) + le_bytes(rl as int, 2)
                + seq![dtype] + name@ + Seq::new(z as nat, |j: int| 0u8),
        decreases pad - z,
    {
        out.push(0u8);
        assert(Seq::new((z + 1) as nat, |j: int| 0u8) =~= Seq::new(z as nat, |j: int| 0u8).push(0u8));
        z = z + 1;
    }
    assert(out@ =~= before + dirent_record(name@, ino, dtype, off as int));
}

/// The `n` least significant bytes of `v` (taken modulo 2^(8n)), least significant first.
pub open spec fn le_bytes(v: int, n: nat) -> Seq<u8>
    decreases n,
{
    if n == 0 { Seq::empty() } else { seq![(v % 256) as u8] + le_bytes(v / 256, (n - 1) as nat) }
}

pub fn push_le(out: &mut Vec<u8>, v: u64, n: usize)
    requires n <= 8,
    ensures final(out)@ == old(out)@ + le_bytes(v as int, n as nat),
    decreases n,
{
    if n == 0 {
        assert(le_bytes(v as int, 0) =~= Seq::<u8>::empty());
        assert(out@ =~= old(out)@ + le_bytes(v as int, n as nat));
        return;
    }
    out.push((v % 256) as u8);
    let ghost mid = out@;
    push_le(out, v / 256, n - 1);
    assert(le_bytes(v as int, n as nat) == seq![(v as int % 256) as u8] + le_bytes(v as int / 256, (n - 1) as nat));
    assert(out@ =~= old(out)@ + le_bytes(v as int, n as nat));
}

/// What `getdents` on an open directory gives and does.
pub open spec fn dir_getdents_rel(d0: TmpDir, d1: TmpDir, fs: TmpFs, len: usize, r: (isize, Seq<u8>)) -> bool {
    &&& d1.path@ == d0.path@
    &&& (fs.node_at(normalized(d0.path@)) matches Some(NodeV::Dir { .. }) ==> {
        let entries = dot_entries() + child_entries(fs.entries(), normalized(d0.path@), child_prefix(normalized(d0.path@)));
        let (bytes, next) = dirent_records(entries, d0.offset as int, len as int);
        &&& r.1 == bytes
        &&& r.0 == bytes.len()
        &&& d0.offset < entries.len() ==> d1.offset == next
        &&& d0.offset >= entries.len() ==> d1.offset == d0.offset
    })
    &&& (!(fs.node_at(normalized(d0.path@)) matches Some(NodeV::Dir { .. })) ==> r.0 == -1 && r.1.len() == 0
        && d1.offset == d0.offset)
}

impl TmpDir {
    pub fn stat(&self, now_ms: u64) -> (st: FileStat)
        ensures
            st == (FileStat {
                st_mode: 0o040000u32 | 0o755u32,
                st_nlink: 2,
                st_blksize: 4096,
                st_atime: (now_ms / 1000) as i64,
                st_mtime: (now_ms / 1000) as i64,
                st_ctime: (now_ms / 1000) as i64,
                ..zero_stat()
            }),
    {
        let now = (now_ms / 1000) as i64;
        let mut st = FileStat::zeroed();
        st.st_mode = InodeType::Directory.mode_bits() | 0o755;
        st.st_nlink = 2;
        st.st_blksize = 4096;
        st.st_atime = now;
        st.st_mtime = now;
        st.st_ctime = now;
        st
    }

    /// The entries of this directory.
    pub fn readdir(&self, fs: &TmpFs) -> (r: Option<Vec<DirEntry>>)
        requires fs.wf(),
        ensures
            r.is_some() <==> fs.node_at(normalized(self.path@)) matches Some(NodeV::Dir { .. }),
            r matches Some(es) ==> es@.map_values(|e: DirEntry| entry_view(e))
                == dot_entries() + child_entries(fs.entries(), normalized(self.path@), child_prefix(normalized(self.path@))),
    {
        fs.readdir(self.path.as_slice())
    }

    /// Fills a buffer of `len` bytes with the records of the entries not returned yet;
    /// the byte count, or -1 when the directory is gone.
    pub fn getdents(&mut self, fs: &TmpFs, len: usize) -> (r: (isize, Vec<u8>))
        requires fs.wf(), len <= isize::MAX,
        ensures
            dir_getdents_rel(*old(self), *final(self), *fs, len, (r.0, r.1@)),
    {
        let entries = match self.readdir(fs) {
            Some(e) => e,
            None => return (-1, Vec::new()),
        };
        let ghost ev = entries@.map_values(|e: DirEntry| entry_view(e));
        let mut out: Vec<u8> = Vec::new();
        let mut offset = self.offset;
        let mut written: usize = 0;
        let mut i: usize = offset;
        proof { assert(out@ + dirent_records(ev, i as int, len as int).0 =~= dirent_records(ev, i as int, len as int).0); }
        if i >= entries.len() {
            proof { assert(dirent_records(ev, self.offset as int, len as int).0 =~= Seq::<u8>::empty()); }
            return (0, out);
        }
        while i < entries.len()
            invariant
                self.offset <= i <= entries@.len(),
                ev == entries@.map_values(|e: DirEntry| entry_view(e)),
                offset == i,
                written == out@.len(),
                written <= len,
                dirent_records(ev, self.offset as int, len as int)
                    == (out@ + dirent_records(ev, i as int, len - written).0, dirent_records(ev, i as int, len - written).1),
            ensures
                dirent_records(ev, self.offset as int, len as int) == (out@, offset as int),
                written == out@.len(),
            decreases entries@.len() - i,
        {
            let entry = &entries[i];
            let name = &entry.name;
            proof { assert(ev[i as int] == (name@, entry.inode, entry.file_type)); }
            let rl128: u128 = (8 + 8 + 2 + 1 + name.len() as u128 + 1 + 7) / 8 * 8;
            if written as u128 + rl128 > len as u128 {
                proof {
                    assert(dirent_records(ev, i as int, len - written).0 =~= Seq::<u8>::empty());
                    assert(out@ + Seq::<u8>::empty() =~= out@);
                }
                break;
            }
            let rl = rl128 as usize;
            let ghost before = out@;
            push_record(&mut out, name.as_slice(), entry.inode, entry.file_type, (i + 1) as u64, rl);
            proof {
                let rest = dirent_records(ev, i + 1, len - written - rl);
                assert(dirent_records(ev, i as int, len - written) == (dirent_record(name@, entry.inode, entry.file_type, i + 1) + rest.0, rest.1));
                assert(before + (dirent_record(name@, entry.inode, entry.file_type, i + 1) + rest.0) =~= out@ + rest.0);
            }
            written = written + rl;
            offset = offset + 1;
            i = i + 1;
        }
        self.offset = offset;
        (written as isize, out)
    }
}

} // verus!
