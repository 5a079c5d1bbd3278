//! Files held in memory: a read-only file over bytes of the boot image, and a read-write
//! one that grows as it is written. Both keep a position that reads (and writes) move.
use vstd::prelude::*;
use crate::fs::tmpfile::copy_range;
use crate::fs::tmpfs::copy_bytes;
use crate::syscall::errno::EINVAL;

verus! {

/// Where a read of `n` bytes at `pos` from `len` bytes starts and ends.
pub open spec fn read_start(len: int, pos: int) -> int {
    if pos < len { pos } else { len }
}

pub open spec fn read_end(len: int, pos: int, n: int) -> int {
    let s = read_start(len, pos);
    if s + n < len { s + n } else { len }
}

/// The position a seek asks for: from the start (0), the current position (1) or the end
/// (2); `None` for another `whence`.
pub open spec fn seek_target(pos: int, len: int, off: int, whence: u32) -> Option<int> {
    if whence == 0 { Some(off) } else if whence == 1 { Some(pos + off) } else if whence == 2 { Some(len + off) } else { None }
}

/// The result of a seek: EINVAL (-22) for an unknown `whence` or a position before the
/// start, else the new position.
pub open spec fn seek_result(pos: int, len: int, off: int, whence: u32) -> int {
    match seek_target(pos, len, off, whence) {
        Some(p) => if p < 0 { EINVAL as int } else { p },
        None => EINVAL as int,
    }
}

/// A seek's target fits the result type.
pub open spec fn seek_fits(pos: int, len: int, off: int, whence: u32) -> bool {
    seek_target(pos, len, off, whence) matches Some(p) ==> p <= isize::MAX
}

/// How many bytes a read of `n` bytes at `start` gets from `data`, and those bytes.
fn slice_at(data: &[u8], start: u64, n: usize) -> (r: (usize, Vec<u8>))
    ensures
        r.0 as int == read_end(data@.len() as int, start as int, n as int) - read_start(data@.len() as int, start as int),
        r.1@ == data@.subrange(read_start(data@.len() as int, start as int), read_end(data@.len() as int, start as int, n as int)),
{
    let len = data.len();
    let s: usize = if (start as u128) < (len as u128) { start as usize } else { len };
    let e: usize = if (s as u128) + (n as u128) < (len as u128) { s + n } else { len };
    (e - s, copy_range(data, s, e - s))
}

/// Bytes of the boot image under a path, read-only.
pub struct StaticFile {
    pub path: Vec<u8>,
    pub data: Vec<u8>,
    pub pos: u64,
}

impl StaticFile {
    pub fn new(path: &[u8], data: &[u8]) -> (f: Self)
        ensures f.path@ == path@, f.data@ == data@, f.pos == 0,
    {
        StaticFile { path: copy_bytes(path), data: copy_bytes(data), pos: 0 }
    }

    /// Reads up to `n` bytes at the position and moves it past them.
    pub fn read(&mut self, n: usize) -> (r: (isize, Vec<u8>))
        requires n <= isize::MAX,
        ensures
            ({
                let len = old(self).data@.len() as int;
                let s = read_start(len, old(self).pos as int);
                let e = read_end(len, old(self).pos as int, n as int);
                &&& r.0 == e - s && r.1@ == old(self).data@.subrange(s, e)
                &&& final(self).pos == e && final(self).data == old(self).data && final(self).path == old(self).path
            }),
    {
        let (k, out) = slice_at(self.data.as_slice(), self.pos, n);
        self.pos = (read_start_exec(self.data.len(), self.pos) + k) as u64;
        (k as isize, out)
    }

    /// Not writable: -1.
    pub fn write(&self, buf: &[u8]) -> (r: isize)
        ensures r == -1,
    {
        -1
    }

    /// Reads up to `n` bytes at `off`, leaving the position.
    pub fn pread(&self, n: usize, off: u64) -> (r: (isize, Vec<u8>))
        requires n <= isize::MAX,
        ensures
            ({
                let len = self.data@.len() as int;
                let s = read_start(len, off as int);
                let e = read_end(len, off as int, n as int);
                r.0 == e - s && r.1@ == self.data@.subrange(s, e)
            }),
    {
        let (k, out) = slice_at(self.data.as_slice(), off, n);
        (k as isize, out)
    }

    /// Moves the position (see `seek_result`).
    pub fn seek(&mut self, off: isize, whence: u32) -> (r: isize)
        requires
            seek_fits(old(self).pos as int, old(self).data@.len() as int, off as int, whence),
            old(self).pos <= i64::MAX, old(self).data@.len() <= i64::MAX,
        ensures
            r as int == seek_result(old(self).pos as int, old(self).data@.len() as int, off as int, whence),
            final(self).pos == (if r >= 0 { r as u64 } else { old(self).pos }),
            final(self).data == old(self).data && final(self).path == old(self).path,
    {
        let len = self.data.len() as i128;
        let target: i128 = if whence == 0 {
            off as i128
        } else if whence == 1 {
            self.pos as i128 + off as i128
        } else if whence == 2 {
            len + off as i128
        } else {
            return -22;
        };
        if target < 0 {
            return -22;
        }
        self.pos = target as u64;
        target as isize
    }

    pub fn size(&self) -> (r: u64)
        ensures r == self.data@.len(),
    {
        self.data.len() as u64
    }

    pub fn is_writable(&self) -> (r: bool)
        ensures !r,
    {
        false
    }
}

/// Where a read at `pos` of `len` bytes starts.
fn read_start_exec(len: usize, pos: u64) -> (r: usize)
    ensures r as int == read_start(len as int, pos as int),
{
    if (pos as u128) < (len as u128) { pos as usize } else { len }
}

/// The bytes after a write of `buf` at `pos`: zeros fill any gap past the end.
pub open spec fn written(d: Seq<u8>, pos: int, buf: Seq<u8>) -> Seq<u8> {
    let grown = if pos + buf.len() > d.len() { d + Seq::new((pos + buf.len() - d.len()) as nat, |i: int| 0u8) } else { d };
    Seq::new(grown.len(), |i: int| if pos <= i < pos + buf.len() { buf[i - pos] } else { grown[i] })
}

/// A read-write file in memory.
pub struct MemFile {
    pub path: Vec<u8>,
    pub data: Vec<u8>,
    pub pos: u64,
}

impl MemFile {
    pub fn new_rw(path: &[u8], data: Vec<u8>) -> (f: Self)
        ensures f.path@ == path@, f.data == data, f.pos == 0,
    {
        MemFile { path: copy_bytes(path), data, pos: 0 }
    }

    /// Reads up to `n` bytes at the position and moves it past them.
    pub fn read(&mut self, n: usize) -> (r: (isize, Vec<u8>))
        requires n <= isize::MAX,
        ensures
            ({
                let len = old(self).data@.len() as int;
                let s = read_start(len, old(self).pos as int);
                let e = read_end(len, old(self).pos as int, n as int);
                &&& r.0 == e - s && r.1@ == old(self).data@.subrange(s, e)
                &&& final(self).pos == e && final(self).data == old(self).data && final(self).path == old(self).path
            }),
    {
        let (k, out) = slice_at(self.data.as_slice(), self.pos, n);
        self.pos = (read_start_exec(self.data.len(), self.pos) + k) as u64;
        (k as isize, out)
    }

    /// Writes `buf` at the position (growing the file, with zeros over any gap) and moves
    /// the position past it; the byte count.
    pub fn write(&mut self, buf: &[u8]) -> (r: isize)
        requires old(self).pos + buf@.len() <= isize::MAX,
        ensures
            r == buf@.len(),
            final(self).data@ == written(old(self).data@, old(self).pos as int, buf@),
            final(self).pos == old(self).pos + buf@.len(),
            final(self).path == old(self).path,
    {
        let pos = self.pos as usize;
        let n = buf.len();
        let ghost d0 = self.data@;
        while self.data.len() < pos + n
            invariant
                pos == old(self).pos, n == buf@.len(), pos + n <= isize::MAX,
                d0 == old(self).data@,
                self.data@.len() >= d0.len(),
                self.data@ == d0 + Seq::new((self.data@.len() - d0.len()) as nat, |i: int| 0u8),
                self.data@.len() <= (if pos + n > d0.len() { pos + n } else { d0.len() as int }),
                self.path == old(self).path,
            decreases pos + n - self.data@.len(),
        {
            let ghost before = self.data@;
            self.data.push(0u8);
            assert(Seq::new((self.data@.len() - d0.len()) as nat, |i: int| 0u8)
                =~= Seq::new((before.len() - d0.len()) as nat, |i: int| 0u8).push(0u8));
        }
        let ghost grown = self.data@;
        let mut i: usize = 0;
        while i < n
            invariant
                pos == old(self).pos, n == buf@.len(), pos + n <= self.data@.len(), pos + n <= isize::MAX,
                self.data@.len() == grown.len(),
                forall|j: int| 0 <= j < grown.len() ==> #[trigger] self.data@[j]
                    == if pos <= j < pos + i { buf@[j - pos] } else { grown[j] },
                i <= n,
                self.path == old(self).path,
            decreases n - i,
        {
            self.data.set(pos + i, buf[i]);
            i = i + 1;
        }
        proof {
            let w = written(d0, pos as int, buf@);
            assert(grown == (if pos + n > d0.len() { d0 + Seq::new((pos + n - d0.len()) as nat, |i: int| 0u8) } else { d0 }));
            assert(self.data@ =~= w);
        }
        self.pos = (pos + n) as u64;
        n as isize
    }

    /// Reads up to `n` bytes at `off`, leaving the position.
    pub fn pread(&self, n: usize, off: u64) -> (r: (isize, Vec<u8>))
        requires n <= isize::MAX,
        ensures
            ({
                let len = self.data@.len() as int;
                let s = read_start(len, off as int);
                let e = read_end(len, off as int, n as int);
                r.0 == e - s && r.1@ == self.data@.subrange(s, e)
            }),
    {
        let (k, out) = slice_at(self.data.as_slice(), off, n);
        (k as isize, out)
    }

    /// Moves the position (see `seek_result`).
    pub fn seek(&mut self, off: isize, whence: u32) -> (r: isize)
        requires
            seek_fits(old(self).pos as int, old(self).data@.len() as int, off as int, whence),
            old(self).pos <= i64::MAX, old(self).data@.len() <= i64::MAX,
        ensures
            r as int == seek_result(old(self).pos as int, old(self).data@.len() as int, off as int, whence),
            final(self).pos == (if r >= 0 { r as u64 } else { old(self).pos }),
            final(self).data == old(self).data && final(self).path == old(self).path,
    {
        let len = self.data.len() as i128;
        let target: i128 = if whence == 0 {
            off as i128
        } else if whence == 1 {
            self.pos as i128 + off as i128
        } else if whence == 2 {
            len + off as i128
        } else {
            return -22;
        };
        if target < 0 {
            return -22;
        }
        self.pos = target as u64;
        target as isize
    }

    pub fn size(&self) -> (r: u64)
        ensures r == self.data@.len(),
    {
        self.data.len() as u64
    }
}

} // verus!
