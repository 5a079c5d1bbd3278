//! Miscellaneous system calls.
use vstd::prelude::*;
use super::{Kernel, OpenFile, table_ok};
use super::errno::{EINVAL, EAGAIN, EINTR};
use crate::fs::file::FileObject;
use crate::fs::pipe::{Pipe, create_pipe};
use crate::fs::eventfd::EventFd;
use crate::fs::devfs::{lcg_fill, lcg_bytes, lcg_iter};
use crate::task::task::first_free;
use crate::fs::tmpfile::{le_bytes, push_le};
use vstd::string::StringSliceAdditionalSpecFns;

verus! {

/// The answer of `uname`: six NUL-padded fields of 65 bytes.
pub struct UtsName {
    pub sysname: [u8; 65],
    pub nodename: [u8; 65],
    pub release: [u8; 65],
    pub version: [u8; 65],
    pub machine: [u8; 65],
    pub domainname: [u8; 65],
}

/// The answer of `sysinfo`.
pub struct SysInfo {
    pub uptime: i64,
    pub loads: [u64; 3],
    pub totalram: u64,
    pub freeram: u64,
    pub sharedram: u64,
    pub bufferram: u64,
    pub totalswap: u64,
    pub freeswap: u64,
    pub procs: u16,
    pub pad: u16,
    pub pad2: u32,
    pub totalhigh: u64,
    pub freehigh: u64,
    pub mem_unit: u32,
    pub f: [u8; 8],
}

/// The NUL-padded field of 65 bytes that holds `s`: its first 64 bytes at most, then
/// zeros.
pub open spec fn field65(s: Seq<u8>) -> Seq<u8> {
    let n: int = if s.len() < 64 { s.len() as int } else { 64 };
    s.take(n) + Seq::new((65 - n) as nat, |j: int| 0u8)
}

/// Copies `src` into `dst`, cut short to leave room for the NUL that follows it.
fn copy_str<const N: usize>(dst: &mut [u8; N], src: &[u8])
    requires N >= 1,
    ensures
        ({
            let n: int = if src@.len() < N - 1 { src@.len() as int } else { N - 1 };
            final(dst)@ == src@.take(n) + seq![0u8] + old(dst)@.skip(n + 1)
        }),
{
    let m: usize = N - 1;
    let n: usize = if src.len() < m { src.len() } else { m };
    let mut i: usize = 0;
    while i < n
        invariant
            m == N - 1, n <= src@.len(), n <= m, i <= n, dst@.len() == N,
            forall|j: int| 0 <= j < i ==> dst@[j] == src@[j],
            forall|j: int| i <= j < N ==> dst@[j] == old(dst)@[j],
        decreases n - i,
    {
        dst[i] = src[i];
        i = i + 1;
    }
    dst[n] = 0;
    assert(dst@ =~= src@.take(n as int) + seq![0u8] + old(dst)@.skip(n + 1));
}

/// A field holding `src`, from an empty one.
fn field(src: &[u8]) -> (f: [u8; 65])
    ensures f@ == field65(src@),
{
    let mut f: [u8; 65] = [0u8; 65];
    assert(f@ =~= Seq::new(65, |j: int| 0u8));
    copy_str(&mut f, src);
    assert(f@ =~= field65(src@));
    f
}

/// Appends the 65 bytes of a field.
fn push_field(out: &mut Vec<u8>, f: &[u8; 65])
    ensures final(out)@ == old(out)@ + f@,
{
    let mut i: usize = 0;
    while i < 65
        invariant i <= 65, f@.len() == 65, out@ == old(out)@ + f@.take(i as int),
        decreases 65 - i,
    {
        out.push(f[i]);
        assert(f@.take(i + 1) =~= f@.take(i as int).push(f@[i as int]));
        i = i + 1;
    }
    assert(f@.take(65) =~= f@);
}

impl UtsName {
    /// The structure as user space reads it: the six fields one after the other.
    pub open spec fn spec_bytes(&self) -> Seq<u8> {
        self.sysname@ + self.nodename@ + self.release@ + self.version@ + self.machine@ + self.domainname@
    }

    pub fn to_bytes(&self) -> (r: Vec<u8>)
        ensures r@ == self.spec_bytes(),
    {
        let mut out: Vec<u8> = Vec::new();
        push_field(&mut out, &self.sysname);
        push_field(&mut out, &self.nodename);
        push_field(&mut out, &self.release);
        push_field(&mut out, &self.version);
        push_field(&mut out, &self.machine);
        push_field(&mut out, &self.domainname);
        assert(out@ =~= self.spec_bytes());
        out
    }
}

/// What `uname` reports, field by field.
pub open spec fn uname_bytes() -> Seq<u8> {
    field65("Linux".spec_bytes()) + field65("ijiege".spec_bytes()) + field65("5.15.0-iJiege".spec_bytes())
        + field65("#1 SMP Mon Mar 17 00:00:00 2026".spec_bytes()) + field65("riscv64".spec_bytes())
        + field65("(none)".spec_bytes())
}

/// `uname`: the system's names, as the bytes to store; always succeeds.
pub fn sys_uname() -> (r: (i64, Vec<u8>))
    ensures r.0 == 0, r.1@ == uname_bytes(),
{
    let u = UtsName {
        sysname: field("Linux".as_bytes()),
        nodename: field("ijiege".as_bytes()),
        release: field("5.15.0-iJiege".as_bytes()),
        version: field("#1 SMP Mon Mar 17 00:00:00 2026".as_bytes()),
        machine: field("riscv64".as_bytes()),
        domainname: field("(none)".as_bytes()),
    };
    (0, u.to_bytes())
}

/// `n` zero bytes.
pub open spec fn zeros(n: nat) -> Seq<u8> {
    Seq::new(n, |j: int| 0u8)
}

fn push_zeros(out: &mut Vec<u8>, n: usize)
    ensures final(out)@ == old(out)@ + zeros(n as nat),
{
    let mut i: usize = 0;
    while i < n
        invariant i <= n, out@ == old(out)@ + zeros(i as nat),
        decreases n - i,
    {
        out.push(0u8);
        assert(zeros((i + 1) as nat) =~= zeros(i as nat).push(0u8));
        i = i + 1;
    }
}

impl SysInfo {
    /// The structure as user space reads it (C layout, little-endian, 120 bytes with the
    /// closing padding).
    pub open spec fn spec_bytes(&self) -> Seq<u8> {
        le_bytes((self.uptime as u64) as int, 8) + le_bytes(self.loads[0] as int, 8) + le_bytes(self.loads[1] as int, 8)
            + le_bytes(self.loads[2] as int, 8) + le_bytes(self.totalram as int, 8)
            + le_bytes(self.freeram as int, 8) + le_bytes(self.sharedram as int, 8)
            + le_bytes(self.bufferram as int, 8) + le_bytes(self.totalswap as int, 8)
            + le_bytes(self.freeswap as int, 8) + le_bytes(self.procs as int, 2) + le_bytes(self.pad as int, 2)
            + le_bytes(self.pad2 as int, 4) + le_bytes(self.totalhigh as int, 8)
            + le_bytes(self.freehigh as int, 8) + le_bytes(self.mem_unit as int, 4) + self.f@ + zeros(4)
    }

    pub fn to_bytes(&self) -> (r: Vec<u8>)
        ensures r@ == self.spec_bytes(),
    {
        let mut out: Vec<u8> = Vec::new();
        push_le(&mut out, self.uptime as u64, 8);
        push_le(&mut out, self.loads[0], 8);
        push_le(&mut out, self.loads[1], 8);
        push_le(&mut out, self.loads[2], 8);
        push_le(&mut out, self.totalram, 8);
        push_le(&mut out, self.freeram, 8);
        push_le(&mut out, self.sharedram, 8);
        push_le(&mut out, self.bufferram, 8);
        push_le(&mut out, self.totalswap, 8);
        push_le(&mut out, self.freeswap, 8);
        push_le(&mut out, self.procs as u64, 2);
        push_le(&mut out, self.pad as u64, 2);
        push_le(&mut out, self.pad2 as u64, 4);
        push_le(&mut out, self.totalhigh, 8);
        push_le(&mut out, self.freehigh, 8);
        push_le(&mut out, self.mem_unit as u64, 4);
        let mut i: usize = 0;
        let ghost before = out@;
        while i < 8
            invariant i <= 8, self.f@.len() == 8, out@ == before + self.f@.take(i as int),
            decreases 8 - i,
        {
            out.push(self.f[i]);
            assert(self.f@.take(i + 1) =~= self.f@.take(i as int).push(self.f@[i as int]));
            i = i + 1;
        }
        assert(self.f@.take(8) =~= self.f@);
        push_zeros(&mut out, 4);
        assert(out@ =~= self.spec_bytes());
        out
    }
}

/// Zero, in any number of bytes, is zero bytes.
proof fn lemma_le_zero(n: nat)
    ensures le_bytes(0, n) == zeros(n),
    decreases n,
{
    if n > 0 {
        lemma_le_zero((n - 1) as nat);
        assert(le_bytes(0, n) =~= zeros(n));
    }
}

/// What `sysinfo` reports at `now_ms` milliseconds of uptime: whole seconds up, no load,
/// 128 MiB of memory of which 64 MiB free, no swap, one process, a unit of one byte.
pub open spec fn sysinfo_bytes(now_ms: u64) -> Seq<u8> {
    le_bytes(now_ms as int / 1000, 8) + zeros(24) + le_bytes(0x800_0000, 8) + le_bytes(0x400_0000, 8)
        + zeros(32) + le_bytes(1, 2) + zeros(2 + 4 + 8 + 8) + le_bytes(1, 4) + zeros(8 + 4)
}

/// `sysinfo` at `now_ms` milliseconds after boot, as the bytes to store; always succeeds.
pub fn sys_sysinfo(now_ms: u64) -> (r: (i64, Vec<u8>))
    ensures r.0 == 0, r.1@ == sysinfo_bytes(now_ms),
{
    let info = SysInfo {
        uptime: (now_ms / 1000) as i64,
        loads: [0u64; 3],
        totalram: 128 * 1024 * 1024,
        freeram: 64 * 1024 * 1024,
        sharedram: 0,
        bufferram: 0,
        totalswap: 0,
        freeswap: 0,
        procs: 1,
        pad: 0,
        pad2: 0,
        totalhigh: 0,
        freehigh: 0,
        mem_unit: 1,
        f: [0u8; 8],
    };
    let b = info.to_bytes();
    proof {
        lemma_le_zero(2);
        lemma_le_zero(4);
        lemma_le_zero(8);
        assert(info.f@ =~= zeros(8));
        assert(b@ =~= sysinfo_bytes(now_ms));
    }
    (0, b)
}

/// `len` bytes from the kernel's generator (the one that seeds at 0xdeadbeef), which
/// advances once per byte; the byte count.
pub fn sys_getrandom(k: &mut Kernel, len: usize, flags: u32) -> (r: (i64, Vec<u8>))
    requires old(k).wf(), len <= i64::MAX,
    ensures
        final(k).wf(),
        r.0 == len as i64,
        r.1@ == lcg_bytes(old(k).rand_seed, len as nat),
        final(k).rand_seed == lcg_iter(old(k).rand_seed, len as nat),
        final(k).manager == old(k).manager && final(k).files == old(k).files && final(k).ctx == old(k).ctx,
        final(k).current == old(k).current && final(k).epolls == old(k).epolls,
{
    let bytes = lcg_fill(&mut k.rand_seed, len);
    (len as i64, bytes)
}

/// A single processor: EINVAL (-22) for a set smaller than 8 bytes; else CPU 0 alone, as
/// eight bytes to store.
pub fn sys_sched_getaffinity(pid: usize, cpusetsize: usize) -> (r: (i64, Vec<u8>))
    ensures
        cpusetsize < 8 ==> r.0 == EINVAL && r.1@.len() == 0,
        cpusetsize >= 8 ==> r.0 == 0 && r.1@ == seq![1u8, 0, 0, 0, 0, 0, 0, 0],
{
    if cpusetsize < 8 {
        return (EINVAL, Vec::new());
    }
    let v = vec![1u8, 0, 0, 0, 0, 0, 0, 0];
    (0, v)
}

/// Futexes: FUTEX_WAIT (op 0, private flag ignored) fails with EAGAIN (-11) when the word
/// (`current`, read at `uaddr`) is not `val`, else gives the processor up once and reports
/// EINTR (-4); FUTEX_WAKE and the rest wake nobody (0).
pub fn sys_futex(uaddr: usize, op: i32, val: u32, current: u32) -> (r: i64)
    ensures
        (op & 0x7f) == 0 ==> r == (if current != val { EAGAIN } else { EINTR }),
        (op & 0x7f) != 0 ==> r == 0,
{
    let futex_op = op & 0x7f;
    if futex_op == 0 {
        if current != val {
            return EAGAIN;
        }
        return EINTR;
    }
    0
}

/// An event counter starting at `initval` (EFD_SEMAPHORE in `flags` bit 0), under the
/// lowest free descriptor.
pub fn sys_eventfd2(k: &mut Kernel, initval: u32, flags: i32) -> (r: i64)
    requires old(k).running(), old(k).fd_room(1),
    ensures
        final(k).running(),
        r == first_free(old(k).cur_task().fd_table@) as i64,
        final(k).files@ == old(k).files@.push(OpenFile {
            obj: FileObject::Event(EventFd { counter: initval as u64, semaphore: flags & 1 != 0 }), refs: 1 }),
        final(k).ctx == old(k).ctx,
        final(k).fds_set(*old(k), crate::syscall::file::table_with(old(k).cur_task().fd_table@, r as int, old(k).files@.len() as usize)),
{
    let e = EventFd::new(initval, flags);
    let fd = k.install(FileObject::Event(e));
    proof { crate::task::task::lemma_first_free(old(k).cur_task().fd_table@, fd as int); }
    fd as i64
}

/// A read end of a fresh pipe whose write end is gone at once (reads see end of file),
/// under the lowest free descriptor.
fn lone_read_end(k: &mut Kernel) -> (fd: usize)
    requires old(k).running(), old(k).fd_room(1),
    ensures
        final(k).running(),
        fd as int == first_free(old(k).cur_task().fd_table@),
        final(k).ctx.pipes@.len() == old(k).ctx.pipes@.len() + 1,
        final(k).ctx.pipes@[old(k).ctx.pipes@.len() as int].buf@.len() == 0,
        final(k).ctx.pipes@[old(k).ctx.pipes@.len() as int].writer_count == 0,
        final(k).ctx.pipes@[old(k).ctx.pipes@.len() as int].reader_count == 1,
        final(k).files@ == old(k).files@.push(OpenFile {
            obj: FileObject::Pipe(Pipe { inner: old(k).ctx.pipes@.len() as usize, is_read_end: true }), refs: 1 }),
        final(k).fds_set(*old(k), crate::syscall::file::table_with(old(k).cur_task().fd_table@, fd as int, old(k).files@.len() as usize)),
{
    let n = k.ctx.pipes.len();
    let (r, w) = create_pipe(&mut k.ctx.pipes);
    let idx = w.inner;
    assert(idx == n);
    k.ctx.pipes[idx].release_end(false);
    proof {
        assert forall|q: int| 0 <= q < k.files@.len() implies (#[trigger] k.files@[q]).obj.obj_wf(k.ctx.pipes@.len() as int) by {
            assert(old(k).files@[q].obj.obj_wf(old(k).ctx.pipes@.len() as int));
        }
    }
    let fd = k.install(FileObject::Pipe(r));
    proof { crate::task::task::lemma_first_free(old(k).cur_task().fd_table@, fd as int); }
    fd
}

/// Timer descriptors are pipes that never deliver: the read end of a fresh pipe without a
/// writer, under the lowest free descriptor.
pub fn sys_timerfd_create(k: &mut Kernel, clockid: i32, flags: i32) -> (r: i64)
    requires old(k).running(), old(k).fd_room(1),
    ensures
        final(k).running(),
        r == first_free(old(k).cur_task().fd_table@) as i64,
        final(k).ctx.pipes@.len() == old(k).ctx.pipes@.len() + 1,
        final(k).ctx.pipes@[old(k).ctx.pipes@.len() as int].writer_count == 0,
        final(k).files@ == old(k).files@.push(OpenFile {
            obj: FileObject::Pipe(Pipe { inner: old(k).ctx.pipes@.len() as usize, is_read_end: true }), refs: 1 }),
        final(k).fds_set(*old(k), crate::syscall::file::table_with(old(k).cur_task().fd_table@, r as int, old(k).files@.len() as usize)),
{
    lone_read_end(k) as i64
}

/// Change notifications never arrive: the read end of a fresh pipe without a writer.
pub fn sys_inotify_init1(k: &mut Kernel, flags: i32) -> (r: i64)
    requires old(k).running(), old(k).fd_room(1),
    ensures
        final(k).running(),
        r == first_free(old(k).cur_task().fd_table@) as i64,
        final(k).ctx.pipes@.len() == old(k).ctx.pipes@.len() + 1,
        final(k).ctx.pipes@[old(k).ctx.pipes@.len() as int].writer_count == 0,
        final(k).files@ == old(k).files@.push(OpenFile {
            obj: FileObject::Pipe(Pipe { inner: old(k).ctx.pipes@.len() as usize, is_read_end: true }), refs: 1 }),
        final(k).fds_set(*old(k), crate::syscall::file::table_with(old(k).cur_task().fd_table@, r as int, old(k).files@.len() as usize)),
{
    lone_read_end(k) as i64
}

} // verus!
