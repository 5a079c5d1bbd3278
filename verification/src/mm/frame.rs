//! The physical frame allocator: frames are handed out from a contiguous range
//! `[current, end)`, and frames given back are reused first, last in first out.
use vstd::prelude::*;
use super::address::{PhysPageNum, PAGE_SIZE};
use super::phys::PhysMem;

verus! {

/// An allocated frame.
pub struct FrameTracker {
    pub ppn: PhysPageNum,
}

impl FrameTracker {
    /// Takes ownership of frame `ppn`, filling it with zeros.
    pub fn new(ppn: PhysPageNum, mem: &mut PhysMem) -> (f: Self)
        requires
            old(mem).wf(),
            old(mem).frame_valid(ppn.0 as int),
        ensures
            f.ppn == ppn,
            final(mem).wf(),
            final(mem).base_ppn == old(mem).base_ppn,
            final(mem).bytes.len() == old(mem).bytes.len(),
            forall|a: int| ppn.0 * PAGE_SIZE <= a < ppn.0 * PAGE_SIZE + PAGE_SIZE ==> #[trigger] final(mem).byte(a) == 0,
            forall|a: int| old(mem).in_range(a, 1) && !(ppn.0 * PAGE_SIZE <= a < ppn.0 * PAGE_SIZE + PAGE_SIZE)
                ==> #[trigger] final(mem).byte(a) == old(mem).byte(a),
    {
        mem.zero_frame(ppn);
        Self { ppn }
    }
}

pub struct StackFrameAllocator {
    pub current: usize,
    pub end: usize,
    pub recycled: Vec<usize>,
}

impl StackFrameAllocator {
    /// The frames that can be handed out.
    pub open spec fn is_free(&self, ppn: int) -> bool {
        self.recycled@.contains(ppn as usize) && 0 <= ppn <= usize::MAX || self.current <= ppn < self.end
    }

    pub open spec fn wf(&self) -> bool {
        &&& self.current <= self.end
        &&& self.recycled@.no_duplicates()
        &&& forall|i: int| 0 <= i < self.recycled@.len() ==> !(self.current <= #[trigger] self.recycled@[i] < self.end)
    }

    /// An allocator with no frames.
    pub fn new() -> (a: Self)
        ensures
            a.wf(),
            a.current == 0 && a.end == 0 && a.recycled@.len() == 0,
            forall|p: int| !a.is_free(p),
    {
        Self { current: 0, end: 0, recycled: Vec::new() }
    }

    /// Whether frame `ppn` can be handed out.
    pub fn frame_is_free(&self, ppn: usize) -> (r: bool)
        ensures r == self.is_free(ppn as int),
    {
        if self.current <= ppn && ppn < self.end {
            return true;
        }
        let mut i: usize = 0;
        while i < self.recycled.len()
            invariant
                i <= self.recycled@.len(),
                forall|j: int| 0 <= j < i ==> #[trigger] self.recycled@[j] != ppn,
            decreases self.recycled@.len() - i,
        {
            if self.recycled[i] == ppn {
                return true;
            }
            i = i + 1;
        }
        false
    }

    /// How many frames can still be handed out.
    pub fn free_frames(&self) -> (r: u128)
        requires self.wf(),
        ensures r == self.recycled@.len() + (self.end - self.current),
    {
        self.recycled.len() as u128 + (self.end - self.current) as u128
    }

    /// Hands out the frames `[l, r)`; frames given back earlier stay available.
    pub fn init(&mut self, l: PhysPageNum, r: PhysPageNum)
        requires
            old(self).wf(),
            l.0 <= r.0,
            forall|i: int| 0 <= i < old(self).recycled@.len() ==> !(l.0 <= #[trigger] old(self).recycled@[i] < r.0),
        ensures
            final(self).wf(),
            final(self).current == l.0,
            final(self).end == r.0,
            final(self).recycled@ == old(self).recycled@,
    {
        self.current = l.0;
        self.end = r.0;
    }

    /// Takes a free frame: the last one given back, else the next one of the range.
    pub fn allocate(&mut self) -> (r: Option<PhysPageNum>)
        requires
            old(self).wf(),
        ensures
            final(self).wf(),
            old(self).recycled@.len() > 0 ==> {
                &&& r == Some(PhysPageNum(old(self).recycled@.last()))
                &&& final(self).recycled@ == old(self).recycled@.drop_last()
                &&& final(self).current == old(self).current
                &&& final(self).end == old(self).end
            },
            old(self).recycled@.len() == 0 && old(self).current == old(self).end ==> r.is_none() && final(self).current == old(self).current && final(self).end == old(self).end && final(self).recycled@ == old(self).recycled@,
            old(self).recycled@.len() == 0 && old(self).current < old(self).end ==> {
                &&& r == Some(PhysPageNum(old(self).current))
                &&& final(self).current == old(self).current + 1
                &&& final(self).end == old(self).end
                &&& final(self).recycled@ == old(self).recycled@
            },
            r matches Some(p) ==> old(self).is_free(p.0 as int) && !final(self).is_free(p.0 as int),
            forall|q: int| #[trigger] final(self).is_free(q) <==> old(self).is_free(q) && (r matches Some(p) ==> q != p.0 as int),
    {
        if let Some(p) = self.recycled.pop() {
            proof {
                let s = old(self).recycled@;
                assert(s[s.len() - 1] == p);
                assert forall|q: int| #[trigger] self.is_free(q) <==> old(self).is_free(q) && q != p by {
                    if self.recycled@.contains(q as usize) && 0 <= q <= usize::MAX {
                        let k = choose|k: int| 0 <= k < self.recycled@.len() && self.recycled@[k] == q as usize;
                        assert(s[k] == q as usize);
                        assert(k != s.len() - 1);
                    }
                    if old(self).recycled@.contains(q as usize) && 0 <= q <= usize::MAX && q != p {
                        let k = choose|k: int| 0 <= k < s.len() && s[k] == q as usize;
                        assert(k != s.len() - 1);
                        assert(self.recycled@[k] == q as usize);
                    }
                }
            }
            Some(PhysPageNum(p))
        } else if self.current == self.end {
            None
        } else {
            let p = self.current;
            self.current = self.current + 1;
            Some(PhysPageNum(p))
        }
    }

    /// Gives frame `ppn` back.
    pub fn dealloc(&mut self, ppn: PhysPageNum)
        requires
            old(self).wf(),
            !old(self).is_free(ppn.0 as int),
        ensures
            final(self).wf(),
            final(self).recycled@ == old(self).recycled@.push(ppn.0),
            final(self).current == old(self).current,
            final(self).end == old(self).end,
            forall|q: int| #[trigger] final(self).is_free(q) <==> old(self).is_free(q) || q == ppn.0,
    {
        self.recycled.push(ppn.0);
        proof {
            let s = old(self).recycled@;
            assert forall|q: int| #[trigger] self.is_free(q) <==> old(self).is_free(q) || q == ppn.0 by {
                if self.recycled@.contains(q as usize) && 0 <= q <= usize::MAX {
                    let k = choose|k: int| 0 <= k < self.recycled@.len() && self.recycled@[k] == q as usize;
                    if k < s.len() { assert(s[k] == q as usize); }
                }
                if old(self).recycled@.contains(q as usize) && 0 <= q <= usize::MAX {
                    let k = choose|k: int| 0 <= k < s.len() && s[k] == q as usize;
                    assert(self.recycled@[k] == q as usize);
                }
                if q == ppn.0 {
                    assert(self.recycled@[s.len() as int] == ppn.0);
                }
            }
        }
    }
}

/// Allocates a zero-filled frame.
pub fn frame_alloc(fa: &mut StackFrameAllocator, mem: &mut PhysMem) -> (r: Option<FrameTracker>)
    requires
        old(fa).wf(),
        old(mem).wf(),
        forall|p: int| #[trigger] old(fa).is_free(p) ==> old(mem).frame_valid(p),
    ensures
        final(fa).wf(),
        final(mem).wf(),
        final(mem).base_ppn == old(mem).base_ppn,
        final(mem).bytes.len() == old(mem).bytes.len(),
        r.is_none() <==> old(fa).recycled@.len() == 0 && old(fa).current == old(fa).end,
        r.is_some() ==> final(fa).recycled@.len() + (final(fa).end - final(fa).current)
            == old(fa).recycled@.len() + (old(fa).end - old(fa).current) - 1,
        final(fa).end == old(fa).end,
        old(fa).recycled@.len() > 0 ==> final(fa).recycled@ == old(fa).recycled@.drop_last() && final(fa).current == old(fa).current,
        old(fa).recycled@.len() == 0 && r.is_some() ==> final(fa).current == old(fa).current + 1 && final(fa).recycled@.len() == 0,
        r.is_none() ==> final(mem).bytes@ == old(mem).bytes@ && final(fa).current == old(fa).current && final(fa).recycled@ == old(fa).recycled@,
        r matches Some(f) ==> {
            &&& old(fa).is_free(f.ppn.0 as int)
            &&& old(fa).recycled@.len() > 0 ==> f.ppn.0 == old(fa).recycled@.last()
            &&& old(fa).recycled@.len() == 0 ==> f.ppn.0 == old(fa).current
            &&& forall|a: int| f.ppn.0 * PAGE_SIZE <= a < f.ppn.0 * PAGE_SIZE + PAGE_SIZE ==> #[trigger] final(mem).byte(a) == 0
            &&& forall|a: int| old(mem).in_range(a, 1) && !(f.ppn.0 * PAGE_SIZE <= a < f.ppn.0 * PAGE_SIZE + PAGE_SIZE)
                ==> #[trigger] final(mem).byte(a) == old(mem).byte(a)
        },
        forall|q: int| #[trigger] final(fa).is_free(q) <==> old(fa).is_free(q) && (r matches Some(f) ==> q != f.ppn.0 as int),
        forall|p: int| #[trigger] final(fa).is_free(p) ==> final(mem).frame_valid(p),
{
    match fa.allocate() {
        Some(p) => {
            let f = FrameTracker::new(p, mem);
            Some(f)
        },
        None => None,
    }
}

/// Frame allocation never hands out a frame twice: once taken, a frame is not
/// free until it is given back, so two allocations in a row give different frames.
pub proof fn lemma_alloc_distinct(a0: StackFrameAllocator, a1: StackFrameAllocator, p: int, q: int)
    requires
        a0.is_free(p),
        forall|x: int| #[trigger] a1.is_free(x) <==> a0.is_free(x) && x != p,
        a1.is_free(q),
    ensures
        p != q,
{
}

/// The top of physical memory: 512 MiB past 0x8000_0000.
pub const MEMORY_END: usize = 0xa000_0000;

/// Hands the frames from the end of the kernel image (`ekernel`, rounded up to a page) to
/// the end of memory to a fresh allocator; the first and last frame numbers, for the boot
/// message.
pub fn init_frame_allocator(fa: &mut StackFrameAllocator, ekernel: usize) -> (r: (usize, usize))
    requires
        old(fa).wf(),
        old(fa).recycled@.len() == 0,
        ekernel + PAGE_SIZE - 1 <= MEMORY_END,
    ensures
        final(fa).wf(),
        r.0 == crate::mm::address::ceil_div_page(ekernel as int),
        r.1 == MEMORY_END / PAGE_SIZE,
        final(fa).current == r.0 && final(fa).end == r.1,
        final(fa).recycled@.len() == 0,
{
    let start = crate::mm::address::PhysAddr(ekernel).ceil();
    let end = crate::mm::address::PhysAddr(MEMORY_END).floor();
    fa.init(start, end);
    (start.0, end.0)
}

} // verus!
