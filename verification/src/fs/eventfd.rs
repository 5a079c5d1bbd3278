//! Event counters (`eventfd`): a 64-bit counter that writes add to and reads drain.
use vstd::prelude::*;
use super::stat::{FileStat, zero_stat};
use super::tmpfile::{le_bytes, push_le};

verus! {

pub struct EventFd {
    pub counter: u64,
    /// EFD_SEMAPHORE: each read takes 1 instead of the whole count.
    pub semaphore: bool,
}

/// The number that little-endian bytes stand for.
pub open spec fn le_value(s: Seq<u8>) -> int
    decreases s.len(),
{
    if s.len() == 0 { 0 } else { s[0] as int + 256 * le_value(s.skip(1)) }
}

pub open spec fn pow256(n: nat) -> int
    decreases n,
{
    if n == 0 { 1 } else { 256 * pow256((n - 1) as nat) }
}

proof fn lemma_le_value_bound(s: Seq<u8>)
    ensures 0 <= le_value(s) < pow256(s.len()),
    decreases s.len(),
{
    if s.len() > 0 {
        lemma_le_value_bound(s.skip(1));
        assert(s.skip(1).len() == s.len() - 1);
    }
}

proof fn lemma_le_value_step(s: Seq<u8>, i: int)
    requires 0 <= i < s.len(),
    ensures le_value(s.subrange(i, s.len() as int)) == s[i] as int + 256 * le_value(s.subrange(i + 1, s.len() as int)),
{
    assert(s.subrange(i, s.len() as int).skip(1) =~= s.subrange(i + 1, s.len() as int));
}

pub proof fn lemma_le_bytes_len(v: int, n: nat)
    ensures le_bytes(v, n).len() == n,
    decreases n,
{
    if n > 0 { lemma_le_bytes_len(v / 256, (n - 1) as nat); }
}

/// The value of the first eight bytes of `b`, little-endian (the byte order of the machine).
pub fn read_u64_le(b: &[u8]) -> (r: u64)
    requires b@.len() >= 8,
    ensures r == le_value(b@.take(8)),
{
    let ghost s = b@.take(8);
    let mut acc: u128 = 0;
    let mut i: usize = 8;
    proof {
        assert(s.subrange(8, 8) =~= Seq::<u8>::empty());
    }
    while i > 0
        invariant
            i <= 8,
            b@.len() >= 8,
            s == b@.take(8),
            acc == le_value(s.subrange(i as int, 8)),
        decreases i,
    {
        proof {
            lemma_le_value_step(s, i - 1);
            lemma_le_value_bound(s.subrange(i as int, 8));
            lemma_pow256_8();
            lemma_pow256_mono((8 - i) as nat, 8);
        }
        acc = acc * 256 + b[i - 1] as u128;
        i = i - 1;
    }
    proof {
        assert(s.subrange(0, 8) =~= s);
        lemma_le_value_bound(s);
        lemma_pow256_8();
    }
    acc as u64
}

proof fn lemma_pow256_8()
    ensures pow256(8) == 0x1_0000_0000_0000_0000int,
{
    reveal_with_fuel(pow256, 9);
}

proof fn lemma_pow256_mono(a: nat, b: nat)
    requires a <= b,
    ensures 1 <= pow256(a) <= pow256(b),
    decreases b,
{
    if a < b {
        lemma_pow256_mono(a, (b - 1) as nat);
    } else if a > 0 {
        lemma_pow256_mono((a - 1) as nat, (a - 1) as nat);
    }
}

/// The counter after a write of `val`: it grows, stopping at the largest u64.
pub open spec fn saturating(c: u64, val: u64) -> u64 {
    if c as int + val as int > u64::MAX { u64::MAX } else { (c + val) as u64 }
}

pub open spec fn event_read_rel(e0: EventFd, e1: EventFd, len: usize, r: (isize, Seq<u8>)) -> bool {
    &&& (e1.semaphore == e0.semaphore)
    &&& (len < 8 ==> r.0 == -22 && r.1.len() == 0 && e1.counter == e0.counter)
    &&& (len >= 8 && e0.counter == 0 ==> r.0 == -11 && r.1.len() == 0 && e1.counter == 0)
    &&& (len >= 8 && e0.counter > 0 ==> {
            let val: u64 = if e0.semaphore { 1 } else { e0.counter };
            &&& r.0 == 8
            &&& r.1 == le_bytes(val as int, 8)
            &&& e1.counter == e0.counter - val
        })
}

pub open spec fn event_write_rel(e0: EventFd, e1: EventFd, buf: Seq<u8>, r: isize) -> bool {
    &&& (e1.semaphore == e0.semaphore)
    &&& (buf.len() < 8 ==> r == -22 && e1.counter == e0.counter)
    &&& (buf.len() >= 8 && le_value(buf.take(8)) == u64::MAX ==> r == -22 && e1.counter == e0.counter)
    &&& (buf.len() >= 8 && le_value(buf.take(8)) != u64::MAX ==> r == 8
            && e1.counter == saturating(e0.counter, le_value(buf.take(8)) as u64))
}

impl EventFd {
    pub fn new(initval: u32, flags: i32) -> (e: EventFd)
        ensures e.counter == initval as u64, e.semaphore == (flags & 1 != 0),
    {
        EventFd { counter: initval as u64, semaphore: flags & 1 != 0 }
    }

    /// Reads the counter into eight bytes: EINVAL (-22) for a shorter buffer, EAGAIN (-11)
    /// while it is 0; else takes the whole count (1 in semaphore mode) and gives it.
    pub fn read(&mut self, len: usize) -> (r: (isize, Vec<u8>))
        ensures
            event_read_rel(*old(self), *final(self), len, (r.0, r.1@)),
    {
        if len < 8 {
            return (-22, Vec::new());
        }
        if self.counter == 0 {
            return (-11, Vec::new());
        }
        let val: u64 = if self.semaphore { 1 } else { self.counter };
        self.counter = self.counter - val;
        let mut out: Vec<u8> = Vec::new();
        push_le(&mut out, val, 8);
        assert(out@ =~= le_bytes(val as int, 8));
        (8, out)
    }

    /// Adds the value in the first eight bytes of `buf` to the counter, stopping at the
    /// largest u64: EINVAL (-22) for fewer than eight bytes or the value `u64::MAX`.
    pub fn write(&mut self, buf: &[u8]) -> (r: isize)
        ensures
            event_write_rel(*old(self), *final(self), buf@, r),
    {
        if buf.len() < 8 {
            return -22;
        }
        let val = read_u64_le(buf);
        if val == u64::MAX {
            return -22;
        }
        self.counter = self.counter.saturating_add(val);
        8
    }

    /// Character device, rw-------.
    pub fn stat(&self) -> (st: FileStat)
        ensures st == (FileStat { st_mode: 0o20600u32, ..zero_stat() }),
    {
        FileStat::with_mode(0o20600u32)
    }

    pub fn can_read(&self) -> (r: bool)
        ensures r == (self.counter > 0),
    {
        self.counter > 0
    }
}

} // verus!
