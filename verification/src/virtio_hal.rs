//! Memory for the virtio devices' queues: runs of frames, taken from the frame allocator
//! and kept for the driver's lifetime. Physical memory is identity mapped, so a run's
//! physical address is also where the kernel reaches it.
use vstd::prelude::*;
use crate::mm::address::PAGE_SIZE;
use crate::mm::frame::{FrameTracker, StackFrameAllocator, frame_alloc};
use crate::mm::page_table::alloc_ok;
use crate::mm::phys::PhysMem;

verus! {

/// Takes a run of `pages` frames (at least one) for a device's buffers: the physical
/// address of the first and the frames, which must come out one after the other. `None`
/// when a frame runs out or the frames handed out are not consecutive.
pub fn dma_alloc(fa: &mut StackFrameAllocator, mem: &mut PhysMem, pages: usize) -> (r: Option<(usize, Vec<FrameTracker>)>)
    requires alloc_ok(*old(fa), *old(mem)),
    ensures
        alloc_ok(*final(fa), *final(mem)),
        old(fa).recycled@.len() == 0 && old(fa).current + (if pages == 0 { 1 } else { pages as int }) <= old(fa).end
            && old(fa).current <= usize::MAX / PAGE_SIZE
            ==> r is Some && r.unwrap().1@[0].ppn.0 == old(fa).current,
        r matches Some((pa, frames)) ==> {
            let n: int = if pages == 0 { 1 } else { pages as int };
            &&& frames@.len() == n
            &&& pa == frames@[0].ppn.0 * PAGE_SIZE
            &&& forall|i: int| 0 <= i < n ==> #[trigger] frames@[i].ppn.0 == frames@[0].ppn.0 + i
            &&& forall|i: int| 0 <= i < n ==> old(fa).is_free(#[trigger] frames@[i].ppn.0 as int)
                && !final(fa).is_free(frames@[i].ppn.0 as int)
        },
{
    let f0 = match frame_alloc(fa, mem) {
        Some(f) => f,
        None => return None,
    };
    let first = f0.ppn.0;
    if first > usize::MAX / PAGE_SIZE {
        return None;
    }
    let mut frames: Vec<FrameTracker> = Vec::new();
    frames.push(f0);
    let mut i: usize = 1;
    while i < pages
        invariant
            alloc_ok(*fa, *mem),
            1 <= i, i <= (if pages == 0 { 1 } else { pages }), frames@.len() == i, frames@[0].ppn.0 == first,
            forall|j: int| 0 <= j < i ==> #[trigger] frames@[j].ppn.0 == first + j,
            forall|j: int| 0 <= j < i ==> old(fa).is_free(#[trigger] frames@[j].ppn.0 as int),
            forall|j: int| 0 <= j < i ==> !fa.is_free(#[trigger] frames@[j].ppn.0 as int),
            forall|q: int| #[trigger] fa.is_free(q) ==> old(fa).is_free(q),
            fa.end == old(fa).end,
            old(fa).recycled@.len() == 0 ==> fa.recycled@.len() == 0 && fa.current == first + i,
            old(fa).recycled@.len() == 0 ==> first == old(fa).current,
        decreases pages - i,
    {
        let f = match frame_alloc(fa, mem) {
            Some(f) => f,
            None => return None,
        };
        if first > usize::MAX - i || f.ppn.0 != first + i {
            return None;
        }
        frames.push(f);
        i = i + 1;
    }
    Some((first * PAGE_SIZE, frames))
}

} // verus!
