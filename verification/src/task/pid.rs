//! Process ids, handed out in increasing order from 1.
use vstd::prelude::*;

verus! {

#[derive(Debug, Clone, Copy, PartialEq, Eq, Structural)]
pub struct Pid(pub i32);

pub struct PidAllocator {
    pub next: i32,
}

/// The id after `n`, wrapping around as an atomic add does.
pub open spec fn next_pid(n: i32) -> i32 {
    if n == i32::MAX { i32::MIN } else { (n + 1) as i32 }
}

impl PidAllocator {
    pub fn new() -> (a: PidAllocator)
        ensures a.next == 1,
    {
        PidAllocator { next: 1 }
    }

    /// Hands out the next id.
    pub fn allocate(&mut self) -> (p: Pid)
        ensures p.0 == old(self).next, final(self).next == next_pid(old(self).next),
    {
        let p = self.next;
        self.next = if self.next == i32::MAX { i32::MIN } else { self.next + 1 };
        Pid(p)
    }
}

/// Two ids handed out one after the other differ, short of the wrap-around at `i32::MAX`.
pub proof fn lemma_pids_increase(n: i32)
    requires n < i32::MAX,
    ensures next_pid(n) > n,
{
}

} // verus!
