//! Time since boot, from the raw counter of the platform timer (10 MHz).
use vstd::prelude::*;
use crate::arch::riscv64::sbi::{SbiCall, set_timer};

verus! {

pub const MS_PER_SEC: u64 = 1000;
/// Ticks of the raw counter per second.
pub const CLOCK_FREQ: u64 = 10_000_000;
/// Raw ticks between two timer interrupts: 10 ms.
pub const TICK_INTERVAL: u64 = 100_000;

/// The count of timer interrupts so far.
pub struct Ticks {
    pub count: usize,
}

/// The timer call that arms the next interrupt, 10 ms after the raw time `now_raw`.
pub open spec fn next_trigger(now_raw: u64) -> SbiCall {
    SbiCall { eid: 0x54494D45, fid: 0, arg0: (now_raw + TICK_INTERVAL) as usize, arg1: 0, arg2: 0 }
}

fn set_next_trigger(now_raw: u64) -> (call: SbiCall)
    requires now_raw + TICK_INTERVAL <= usize::MAX,
    ensures call == next_trigger(now_raw),
{
    set_timer(now_raw + TICK_INTERVAL)
}

/// One timer interrupt: counts it (wrapping) and arms the next one.
pub fn tick(ticks: &mut Ticks, now_raw: u64) -> (call: SbiCall)
    requires now_raw + TICK_INTERVAL <= usize::MAX,
    ensures
        final(ticks).count == (if old(ticks).count == usize::MAX { 0 } else { (old(ticks).count + 1) as usize }),
        call == next_trigger(now_raw),
{
    ticks.count = if ticks.count == usize::MAX { 0 } else { ticks.count + 1 };
    set_next_trigger(now_raw)
}

/// Arms the first timer interrupt.
pub fn init(now_raw: u64) -> (call: SbiCall)
    requires now_raw + TICK_INTERVAL <= usize::MAX,
    ensures call == next_trigger(now_raw),
{
    set_next_trigger(now_raw)
}

/// Nanoseconds since boot for a raw counter value: 100 ns a tick, stopping at the largest u64.
pub open spec fn spec_now_ns(raw: u64) -> u64 {
    if raw as int * 100 > u64::MAX { u64::MAX } else { (raw * 100) as u64 }
}

pub fn now_ns(raw: u64) -> (r: u64)
    ensures r == spec_now_ns(raw),
{
    let per_tick: u64 = 1_000_000_000 / CLOCK_FREQ;
    assert(per_tick == 100);
    if raw > u64::MAX / per_tick {
        u64::MAX
    } else {
        raw * per_tick
    }
}

pub fn now_us(raw: u64) -> (r: u64)
    ensures r == spec_now_ns(raw) / 1000,
{
    now_ns(raw) / 1000
}

pub fn now_ms(raw: u64) -> (r: u64)
    ensures r == spec_now_ns(raw) / 1_000_000,
{
    now_ns(raw) / 1_000_000
}

pub fn now_sec(raw: u64) -> (r: u64)
    ensures r == spec_now_ns(raw) / 1_000_000_000,
{
    now_ns(raw) / 1_000_000_000
}


/// A time as seconds and nanoseconds.
#[derive(Debug, Clone, Copy, PartialEq, Eq, Structural)]
pub struct TimeSpec {
    pub tv_sec: i64,
    pub tv_nsec: i64,
}

/// A time as seconds and microseconds.
#[derive(Debug, Clone, Copy, PartialEq, Eq, Structural)]
pub struct TimeVal {
    pub tv_sec: i64,
    pub tv_usec: i64,
}

impl TimeSpec {
    /// The time `ns` nanoseconds after boot.
    pub fn now(ns: u64) -> (t: TimeSpec)
        ensures t.tv_sec == (ns / 1_000_000_000) as i64, t.tv_nsec == (ns % 1_000_000_000) as i64,
    {
        TimeSpec { tv_sec: (ns / 1_000_000_000) as i64, tv_nsec: (ns % 1_000_000_000) as i64 }
    }
}

impl TimeVal {
    /// The time `us` microseconds after boot.
    pub fn now(us: u64) -> (t: TimeVal)
        ensures t.tv_sec == (us / 1_000_000) as i64, t.tv_usec == (us % 1_000_000) as i64,
    {
        TimeVal { tv_sec: (us / 1_000_000) as i64, tv_usec: (us % 1_000_000) as i64 }
    }
}
} // verus!
