//! Time system calls.
use vstd::prelude::*;
use super::Kernel;
use super::errno::EINVAL;
use crate::timer::{TimeSpec, TimeVal};

verus! {

/// Every clock reads the time since boot (`now_ns` nanoseconds); the time to store at the
/// argument.
pub fn sys_clock_gettime(clockid: i32, now_ns: u64) -> (r: (i64, TimeSpec))
    ensures
        r.0 == 0,
        r.1.tv_sec == (now_ns / 1_000_000_000) as i64,
        r.1.tv_nsec == (now_ns % 1_000_000_000) as i64,
{
    (0, TimeSpec::now(now_ns))
}

/// Clocks tick in nanoseconds.
pub fn sys_clock_getres(clockid: i32) -> (r: (i64, TimeSpec))
    ensures r.0 == 0, r.1 == (TimeSpec { tv_sec: 0, tv_nsec: 1 }),
{
    (0, TimeSpec { tv_sec: 0, tv_nsec: 1 })
}

/// How long a sleep of `ts` lasts, in microseconds.
pub open spec fn sleep_us(ts: TimeSpec) -> int {
    (ts.tv_sec as u64) as int * 1_000_000 + (ts.tv_nsec as u64) as int / 1000
}

/// A sleep of `req` starting at `start_us` (microseconds since boot): EINVAL (-22) without a
/// request; else 0 with the time it lasts until (the caller gives the processor up until
/// then) and a zero remainder to store where one is asked for.
pub fn sys_nanosleep(req: Option<TimeSpec>, start_us: u64) -> (r: (i64, u64))
    requires req matches Some(ts) ==> start_us + sleep_us(ts) <= u64::MAX,
    ensures
        req.is_none() ==> r.0 == EINVAL,
        req matches Some(ts) ==> r.0 == 0 && r.1 == start_us + sleep_us(ts),
{
    match req {
        None => (EINVAL, 0),
        Some(ts) => {
            let us = (ts.tv_sec as u64) * 1_000_000 + (ts.tv_nsec as u64) / 1000;
            (0, start_us + us)
        },
    }
}

/// `nanosleep` on any clock.
pub fn sys_clock_nanosleep(clockid: i32, flags: i32, req: Option<TimeSpec>, start_us: u64) -> (r: (i64, u64))
    requires req matches Some(ts) ==> start_us + sleep_us(ts) <= u64::MAX,
    ensures
        req.is_none() ==> r.0 == EINVAL,
        req matches Some(ts) ==> r.0 == 0 && r.1 == start_us + sleep_us(ts),
{
    match req {
        None => (EINVAL, 0),
        Some(_) => sys_nanosleep(req, start_us),
    }
}

/// The time since boot (`now_us` microseconds) to store at the argument.
pub fn sys_gettimeofday(now_us: u64, tz: usize) -> (r: (i64, TimeVal))
    ensures
        r.0 == 0,
        r.1.tv_sec == (now_us / 1_000_000) as i64,
        r.1.tv_usec == (now_us % 1_000_000) as i64,
{
    (0, TimeVal::now(now_us))
}

/// Size of `struct tms`.
pub const TMS_SIZE: usize = 32;

/// The ticks since boot; no time is counted per task, so the `struct tms` to store (where
/// one is asked for) is zero.
pub fn sys_times(k: &Kernel, buf: usize) -> (r: (i64, Vec<u8>))
    ensures
        r.0 == k.ticks as i64,
        r.1@ == (if buf != 0 { Seq::new(TMS_SIZE as nat, |i: int| 0u8) } else { Seq::<u8>::empty() }),
{
    let mut v: Vec<u8> = Vec::new();
    if buf != 0 {
        crate::fs::tmpfile::grow_zeros(&mut v, TMS_SIZE);
        assert(v@ =~= Seq::new(TMS_SIZE as nat, |i: int| 0u8));
    }
    (k.ticks as i64, v)
}

} // verus!
