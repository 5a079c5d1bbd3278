//! Pipes: a bounded byte queue shared by a read end and a write end.
use vstd::prelude::*;
use super::stat::{FileStat, zero_stat};
use super::tmpfile::copy_range;

verus! {

/// Capacity of a pipe's buffer in bytes.
pub const PIPE_BUF_SIZE: usize = 65536;

/// `ioctl` request that sets or clears non-blocking mode.
pub const FIONBIO: u64 = 0x5421;

/// The state that both ends of a pipe share.
pub struct PipeInner {
    /// Bytes written and not yet read, oldest first.
    pub buf: Vec<u8>,
    pub writer_count: usize,
    pub reader_count: usize,
    pub nonblock: bool,
}

/// One end of a pipe: the index of its shared state in the pipe table.
#[derive(Debug, Clone, Copy, PartialEq, Eq, Structural)]
pub struct Pipe {
    pub inner: usize,
    pub is_read_end: bool,
}

impl Pipe {
    pub fn new_read(inner: usize) -> (p: Pipe)
        ensures p == (Pipe { inner, is_read_end: true }),
    {
        Pipe { inner, is_read_end: true }
    }

    pub fn new_write(inner: usize) -> (p: Pipe)
        ensures p == (Pipe { inner, is_read_end: false }),
    {
        Pipe { inner, is_read_end: false }
    }
}

/// How many bytes a read of `len` takes from a buffer holding `avail`.
pub open spec fn take_count(avail: int, len: int) -> int {
    if len < avail { len } else { avail }
}

pub open spec fn pipe_read_rel(p0: PipeInner, p1: PipeInner, len: usize, r: (isize, Seq<u8>)) -> bool {
    &&& (p0.buf@.len() == 0 ==> {
            &&& r.0 == (if p0.writer_count == 0 { 0isize } else { -11isize })
            &&& r.1 == Seq::<u8>::empty()
            &&& p1.buf@ == p0.buf@
        })
    &&& (p0.buf@.len() > 0 ==> {
            let n = take_count(p0.buf@.len() as int, len as int);
            &&& r.0 == n
            &&& r.1 == p0.buf@.take(n)
            &&& p1.buf@ == p0.buf@.skip(n)
        })
    &&& (p1.writer_count == p0.writer_count)
    &&& (p1.reader_count == p0.reader_count)
    &&& (p1.nonblock == p0.nonblock)
}

pub open spec fn pipe_write_rel(p0: PipeInner, p1: PipeInner, data: Seq<u8>, r: isize) -> bool {
    &&& (p0.reader_count == 0 ==> r == -32 && p1.buf@ == p0.buf@)
    &&& (p0.reader_count > 0 && p0.buf@.len() + data.len() > PIPE_BUF_SIZE
            ==> r == -11 && p1.buf@ == p0.buf@)
    &&& (p0.reader_count > 0 && p0.buf@.len() + data.len() <= PIPE_BUF_SIZE
            ==> r == data.len() && p1.buf@ == p0.buf@ + data)
    &&& (p1.writer_count == p0.writer_count)
    &&& (p1.reader_count == p0.reader_count)
    &&& (p1.nonblock == p0.nonblock)
}

impl PipeInner {
    /// An empty pipe with one reader and one writer.
    pub fn new() -> (p: PipeInner)
        ensures
            p.buf@ == Seq::<u8>::empty(),
            p.writer_count == 1,
            p.reader_count == 1,
            !p.nonblock,
    {
        PipeInner { buf: Vec::new(), writer_count: 1, reader_count: 1, nonblock: false }
    }

    /// Takes up to `len` bytes from the front. An empty pipe gives 0 (end of file) once no
    /// writer is left, -11 (EAGAIN) before.
    pub fn read(&mut self, len: usize) -> (r: (isize, Vec<u8>))
        requires len <= isize::MAX,
        ensures
            pipe_read_rel(*old(self), *final(self), len, (r.0, r.1@)),
    {
        if self.buf.len() == 0 {
            if self.writer_count == 0 {
                return (0, Vec::new());
            }
            return (-11, Vec::new());
        }
        let n = if len < self.buf.len() { len } else { self.buf.len() };
        let out = copy_range(self.buf.as_slice(), 0, n);
        let rest = copy_range(self.buf.as_slice(), n, self.buf.len() - n);
        proof {
            assert(out@ =~= old(self).buf@.take(n as int));
            assert(rest@ =~= old(self).buf@.skip(n as int));
        }
        self.buf = rest;
        (n as isize, out)
    }

    /// Appends `data`: -32 (EPIPE) once no reader is left, -11 (EAGAIN) when it does not fit.
    pub fn write(&mut self, data: &[u8]) -> (r: isize)
        requires data@.len() <= isize::MAX,
        ensures
            pipe_write_rel(*old(self), *final(self), data@, r),
    {
        if self.reader_count == 0 {
            return -32;
        }
        if data.len() > PIPE_BUF_SIZE || self.buf.len() > PIPE_BUF_SIZE - data.len() {
            return -11;
        }
        let mut i: usize = 0;
        while i < data.len()
            invariant
                i <= data@.len(),
                self.buf@ == old(self).buf@ + data@.take(i as int),
                self.writer_count == old(self).writer_count,
                self.reader_count == old(self).reader_count,
                self.nonblock == old(self).nonblock,
            decreases data@.len() - i,
        {
            self.buf.push(data[i]);
            assert(data@.take(i + 1) =~= data@.take(i as int).push(data@[i as int]));
            i = i + 1;
        }
        assert(data@.take(i as int) =~= data@);
        data.len() as isize
    }

    /// Data is waiting, or no writer is left (a read would not block).
    pub fn can_read(&self) -> (r: bool)
        ensures r == (self.buf@.len() > 0 || self.writer_count == 0),
    {
        self.buf.len() > 0 || self.writer_count == 0
    }

    /// There is room and a reader.
    pub fn can_write(&self) -> (r: bool)
        ensures r == (self.buf@.len() < PIPE_BUF_SIZE && self.reader_count > 0),
    {
        self.buf.len() < PIPE_BUF_SIZE && self.reader_count > 0
    }

    /// `FIONBIO` sets non-blocking mode from `val` (the int the request points to); every
    /// request succeeds.
    pub fn ioctl(&mut self, request: u64, val: i32) -> (r: isize)
        ensures
            r == 0,
            final(self).nonblock == (if request == FIONBIO { val != 0 } else { old(self).nonblock }),
            final(self).buf@ == old(self).buf@,
            final(self).writer_count == old(self).writer_count,
            final(self).reader_count == old(self).reader_count,
    {
        if request == FIONBIO {
            self.nonblock = val != 0;
        }
        0
    }

    /// One end of the pipe went away.
    pub fn release_end(&mut self, is_read_end: bool)
        ensures
            is_read_end ==> final(self).reader_count == (if old(self).reader_count > 0 { old(self).reader_count - 1 } else { 0 })
                && final(self).writer_count == old(self).writer_count,
            !is_read_end ==> final(self).writer_count == (if old(self).writer_count > 0 { old(self).writer_count - 1 } else { 0 })
                && final(self).reader_count == old(self).reader_count,
            final(self).buf@ == old(self).buf@,
            final(self).nonblock == old(self).nonblock,
    {
        if is_read_end {
            if self.reader_count > 0 {
                self.reader_count = self.reader_count - 1;
            }
        } else {
            if self.writer_count > 0 {
                self.writer_count = self.writer_count - 1;
            }
        }
    }
}

/// `st_mode` of a pipe end: FIFO, rw-r--r--.
pub fn pipe_stat() -> (st: FileStat)
    ensures st == (FileStat { st_mode: 0o010644u32, ..zero_stat() }),
{
    FileStat::with_mode(0o010644u32)
}

/// Adds a fresh pipe to `pipes` and gives its read and write ends.
pub fn create_pipe(pipes: &mut Vec<PipeInner>) -> (r: (Pipe, Pipe))
    ensures
        final(pipes)@.len() == old(pipes)@.len() + 1,
        forall|i: int| 0 <= i < old(pipes)@.len() ==> #[trigger] final(pipes)@[i] == old(pipes)@[i],
        final(pipes)@[old(pipes)@.len() as int].buf@ == Seq::<u8>::empty(),
        final(pipes)@[old(pipes)@.len() as int].writer_count == 1,
        final(pipes)@[old(pipes)@.len() as int].reader_count == 1,
        !final(pipes)@[old(pipes)@.len() as int].nonblock,
        r.0 == (Pipe { inner: old(pipes)@.len() as usize, is_read_end: true }),
        r.1 == (Pipe { inner: old(pipes)@.len() as usize, is_read_end: false }),
{
    let idx = pipes.len();
    pipes.push(PipeInner::new());
    (Pipe::new_read(idx), Pipe::new_write(idx))
}

/// A byte written to a pipe comes out of its read end, in order: writing `data` to a pipe
/// with a reader and room, then reading as many bytes as it held, gives back what it held
/// followed by `data`.
pub proof fn lemma_pipe_fifo(held: Seq<u8>, data: Seq<u8>, len: int)
    requires
        held.len() + data.len() <= PIPE_BUF_SIZE,
        held.len() + data.len() <= len,
    ensures
        (held + data).take(take_count((held + data).len() as int, len)) == held + data,
        (held + data).skip(take_count((held + data).len() as int, len)) == Seq::<u8>::empty(),
{
    assert((held + data).take((held + data).len() as int) =~= held + data);
    assert((held + data).skip((held + data).len() as int) =~= Seq::<u8>::empty());
}

} // verus!
