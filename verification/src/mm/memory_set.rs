//! Address spaces: areas of pages mapped with one set of permissions, over a page table.
use vstd::prelude::*;
use super::address::{VirtAddr, VirtPageNum, PhysPageNum, PAGE_SIZE, ceil_div_page};
use super::frame::{FrameTracker, StackFrameAllocator, frame_alloc};
use super::page_table::{PageTable, PTEFlags, alloc_ok, lookup, pte_bits, pte_ppn, free_count, next_frame, pt_inv,
    lemma_paths_differ, lemma_inv_path, lemma_fresh_frame_kept, lemma_inv_same, lemma_inv_distinct};
use super::phys::PhysMem;

verus! {

/// Mapping permissions, as page table entry bits.
#[derive(Clone, Copy, Debug)]
pub struct MapPerm {
    pub bits: usize,
}

pub const MAP_R: usize = 2;
pub const MAP_W: usize = 4;
pub const MAP_X: usize = 8;
pub const MAP_U: usize = 16;

/// The page table flags of a permission: its bits among the eight defined ones.
pub open spec fn perm_flags(p: MapPerm) -> u64 {
    (p.bits as u64) & 0xff
}

/// The entry that maps a page to frame `ppn` with permission `p`.
pub open spec fn entry_for(ppn: usize, p: MapPerm) -> u64 {
    pte_bits(ppn, perm_flags(p) | 1)
}

impl MapPerm {
    pub fn pte_flags(&self) -> (f: PTEFlags)
        ensures f.bits == perm_flags(*self), f.bits < 256,
    {
        let b = self.bits as u64;
        assert(b & 0xff < 256) by (bit_vector);
        PTEFlags::from_bits_truncate(b)
    }

    pub fn union(&self, other: MapPerm) -> (r: MapPerm)
        ensures r.bits == self.bits | other.bits,
    {
        MapPerm { bits: self.bits | other.bits }
    }
}

pub struct MapArea {
    pub start_vpn: VirtPageNum,
    pub end_vpn: VirtPageNum,
    /// The frame behind each mapped page, by increasing page.
    pub frames: Vec<(VirtPageNum, FrameTracker)>,
    pub perm: MapPerm,
}

/// Every page of `a` is mapped in the table rooted at `root` to the frame `a` keeps for it,
/// with the area's permission.
pub open spec fn area_mapped(a: MapArea, mem: PhysMem, root: int) -> bool {
    &&& a.frames@.len() == (if a.end_vpn.0 >= a.start_vpn.0 { a.end_vpn.0 - a.start_vpn.0 } else { 0 })
    &&& forall|k: int| 0 <= k < a.frames@.len() ==> (#[trigger] a.frames@[k]).0.0 == a.start_vpn.0 + k
    &&& forall|k: int| 0 <= k < a.frames@.len() ==>
        lookup(mem, root, (#[trigger] a.frames@[k]).0.0 as int) == Some(entry_for(a.frames@[k].1.ppn.0, a.perm))
}

/// No page of `[start, end)` is mapped in the table rooted at `root`.
pub open spec fn range_unmapped(mem: PhysMem, root: int, start: int, end: int) -> bool {
    forall|v: int| start <= v < end ==> #[trigger] lookup(mem, root, v).is_none()
}

/// What the table effects of a call may be: the allocator and memory stay consistent, the
/// table keeps its root.
pub open spec fn table_kept(fa1: StackFrameAllocator, m0: PhysMem, m1: PhysMem, r0: PhysPageNum, r1: PhysPageNum) -> bool {
    &&& alloc_ok(fa1, m1)
    &&& m1.base_ppn == m0.base_ppn
    &&& m1.bytes.len() == m0.bytes.len()
    &&& r1 == r0
}

/// The bytes of `data` read back through the table rooted at `root` from the start of
/// the first page of `a`, as far as its pages go.
pub open spec fn copied(a: MapArea, mem: PhysMem, root: int, data: Seq<u8>) -> bool {
    forall|i: int| 0 <= i < data.len() && a.start_vpn.0 + i / (PAGE_SIZE as int) < a.end_vpn.0 ==>
        #[trigger] user_byte(mem, root, a.start_vpn.0 * PAGE_SIZE + i) == Some(data[i])
}

impl MapArea {
    /// The area of the pages that `[start_va, end_va)` touches; no page is mapped yet.
    pub fn new(start_va: VirtAddr, end_va: VirtAddr, perm: MapPerm) -> (a: MapArea)
        requires end_va.0 + PAGE_SIZE - 1 <= usize::MAX,
        ensures
            a.start_vpn.0 == start_va.0 / PAGE_SIZE,
            a.end_vpn.0 == ceil_div_page(end_va.0 as int),
            a.frames@.len() == 0,
            a.perm == perm,
    {
        MapArea { start_vpn: start_va.floor(), end_vpn: end_va.ceil(), frames: Vec::new(), perm }
    }

    /// An area for an identity mapping: the same pages; it keeps no frames.
    pub fn new_identity(start_va: VirtAddr, end_va: VirtAddr, perm: MapPerm) -> (a: MapArea)
        requires end_va.0 + PAGE_SIZE - 1 <= usize::MAX,
        ensures
            a.start_vpn.0 == start_va.0 / PAGE_SIZE,
            a.end_vpn.0 == ceil_div_page(end_va.0 as int),
            a.frames@.len() == 0,
            a.perm == perm,
    {
        MapArea { start_vpn: start_va.floor(), end_vpn: end_va.ceil(), frames: Vec::new(), perm }
    }

    /// Whether the table maps every page of the area as `area_mapped` says; each page is
    /// read back through the table.
    pub fn check_mapped(&self, pt: &PageTable, mem: &PhysMem) -> (r: bool)
        requires mem.wf(),
        ensures r == area_mapped(*self, *mem, pt.root_ppn.0 as int),
    {
        let n = if self.end_vpn.0 >= self.start_vpn.0 { self.end_vpn.0 - self.start_vpn.0 } else { 0 };
        if self.frames.len() != n {
            return false;
        }
        let flags = self.perm.pte_flags();
        let mut k: usize = 0;
        while k < self.frames.len()
            invariant
                mem.wf(),
                k <= self.frames@.len(),
                flags.bits == perm_flags(self.perm),
                forall|j: int| 0 <= j < k ==> (#[trigger] self.frames@[j]).0.0 == self.start_vpn.0 + j,
                forall|j: int| 0 <= j < k ==>
                    lookup(*mem, pt.root_ppn.0 as int, (#[trigger] self.frames@[j]).0.0 as int) == Some(entry_for(self.frames@[j].1.ppn.0, self.perm)),
            decreases self.frames@.len() - k,
        {
            let vpn = self.frames[k].0;
            let ppn = self.frames[k].1.ppn.0;
            if self.start_vpn.0 > usize::MAX - k || vpn.0 != self.start_vpn.0 + k {
                return false;
            }
            let want = ((ppn as u64) << 10u64) | (flags.bits | 1);
            match pt.translate(mem, vpn) {
                Some(e) => {
                    if e.bits != want {
                        return false;
                    }
                },
                None => {
                    return false;
                },
            }
            k = k + 1;
        }
        true
    }

    /// Maps every page of the area to a fresh zeroed frame with the area's permission;
    /// whether the area then reads back as mapped (see `area_mapped`). It stops at the first
    /// page for which a frame runs out or that is mapped already or cannot be mapped (the
    /// pages before it stay mapped, and the area keeps their frames only). On a table that is
    /// a tree (`pt_inv`) it succeeds when none of the area's pages is mapped, they lie in the
    /// 39-bit address space, and the allocator has three frames per page (one for the page,
    /// at most two for tables); the table stays a tree.
    #[verifier::rlimit(50)]
    #[verifier::spinoff_prover]
    pub fn map(&mut self, pt: &mut PageTable, fa: &mut StackFrameAllocator, mem: &mut PhysMem) -> (ok: bool)
        requires alloc_ok(*old(fa), *old(mem)),
        ensures
            table_kept(*final(fa), *old(mem), *final(mem), old(pt).root_ppn, final(pt).root_ppn),
            final(self).start_vpn == old(self).start_vpn,
            final(self).end_vpn == old(self).end_vpn,
            final(self).perm == old(self).perm,
            ok == area_mapped(*final(self), *final(mem), final(pt).root_ppn.0 as int),
            pt_inv(*old(mem), *old(fa), old(pt).root_ppn.0 as int) ==> pt_inv(*final(mem), *final(fa), old(pt).root_ppn.0 as int),
            pt_inv(*old(mem), *old(fa), old(pt).root_ppn.0 as int)
                && range_unmapped(*old(mem), old(pt).root_ppn.0 as int, old(self).start_vpn.0 as int, old(self).end_vpn.0 as int)
                && old(self).end_vpn.0 <= 0x800_0000
                && free_count(*old(fa)) >= 3 * (old(self).end_vpn.0 - old(self).start_vpn.0) ==> ok,
            free_count(*final(fa)) >= free_count(*old(fa)) - 3 * (if old(self).end_vpn.0 >= old(self).start_vpn.0 { old(self).end_vpn.0 - old(self).start_vpn.0 } else { 0 }),
            pt_inv(*old(mem), *old(fa), old(pt).root_ppn.0 as int) && old(self).end_vpn.0 <= 0x800_0000 ==>
                forall|w: int| 0 <= w < 0x800_0000 && !(old(self).start_vpn.0 <= w < old(self).end_vpn.0) ==>
                    #[trigger] lookup(*final(mem), old(pt).root_ppn.0 as int, w) == lookup(*old(mem), old(pt).root_ppn.0 as int, w),
    {
        let ghost root = pt.root_ppn.0 as int;
        let ghost start = self.start_vpn.0 as int;
        let ghost end = self.end_vpn.0 as int;
        let ghost good = pt_inv(*old(mem), *old(fa), root) && range_unmapped(*old(mem), root, start, end)
            && end <= 0x800_0000 && free_count(*old(fa)) >= 3 * (end - start);
        let mut frames: Vec<(VirtPageNum, FrameTracker)> = Vec::new();
        let flags = self.perm.pte_flags();
        let mut vpn = self.start_vpn.0;
        while vpn < self.end_vpn.0
            invariant
                table_kept(*fa, *old(mem), *mem, old(pt).root_ppn, pt.root_ppn),
                self.start_vpn == old(self).start_vpn,
                self.end_vpn == old(self).end_vpn,
                self.perm == old(self).perm,
                self.start_vpn.0 <= vpn,
                vpn <= self.end_vpn.0 || vpn == self.start_vpn.0,
                frames@.len() == vpn - self.start_vpn.0,
                flags.bits == perm_flags(self.perm),
                flags.bits < 256,
                root == pt.root_ppn.0, start == self.start_vpn.0, end == self.end_vpn.0,
                pt_inv(*old(mem), *old(fa), root) ==> pt_inv(*mem, *fa, root),
                good == (pt_inv(*old(mem), *old(fa), root) && range_unmapped(*old(mem), root, start, end)
                    && end <= 0x800_0000 && free_count(*old(fa)) >= 3 * (end - start)),
                good ==> end <= 0x800_0000,
                free_count(*fa) >= free_count(*old(fa)) - 3 * (vpn - start),
                pt_inv(*old(mem), *old(fa), root) && end <= 0x800_0000 ==>
                    forall|w: int| 0 <= w < 0x800_0000 && !(start <= w < end) ==>
                        #[trigger] lookup(*mem, root, w) == lookup(*old(mem), root, w),
                good ==> forall|k: int| 0 <= k < frames@.len() ==> (#[trigger] frames@[k]).0.0 == start + k
                    && lookup(*mem, root, frames@[k].0.0 as int) == Some(entry_for(frames@[k].1.ppn.0, self.perm)),
                good ==> free_count(*fa) >= 3 * (end - vpn),
                good ==> forall|w: int| vpn <= w < end ==> #[trigger] lookup(*mem, root, w).is_none(),
            decreases self.end_vpn.0 - vpn,
        {
            let ghost m0 = *mem;
            let ghost fa0 = *fa;
            let f = match frame_alloc(fa, mem) {
                Some(f) => f,
                None => {
                    proof {
                        if pt_inv(m0, fa0, root) {
                            lemma_inv_same(m0, *mem, fa0, *fa, root);
                        }
                    }
                    self.frames = frames;
                    return false;
                },
            };
            proof {
                if pt_inv(m0, fa0, root) {
                    lemma_fresh_frame_kept(m0, *mem, fa0, *fa, root, f.ppn.0 as int);
                    lemma_inv_path(*mem, *fa, root, vpn as int);
                }
                if good {
                    assert(lookup(m0, root, vpn as int).is_none());
                    assert(free_count(*fa) >= 2);
                }
            }
            if !pt.map_ready(fa, mem, VirtPageNum(vpn)) {
                self.frames = frames;
                return false;
            }
            proof {
                assert(mem.frame_valid(f.ppn.0 as int));
                assert(f.ppn.0 <= 0xfff_ffff_ffff) by (nonlinear_arith)
                    requires
                        (f.ppn.0 + 1) * PAGE_SIZE <= mem.start() + mem.bytes.len(),
                        mem.start() + mem.bytes.len() <= 0x1000_0000_0000 * PAGE_SIZE;
            }
            let ghost m1 = *mem;
            pt.map(fa, mem, VirtPageNum(vpn), f.ppn, flags);
            proof {
                if pt_inv(*old(mem), *old(fa), root) && end <= 0x800_0000 {
                    assert forall|w: int| 0 <= w < 0x800_0000 && !(start <= w < end) implies
                        #[trigger] lookup(*mem, root, w) == lookup(*old(mem), root, w) by {
                        lemma_paths_differ(w, vpn as int);
                        assert(lookup(m1, root, w) == lookup(m0, root, w));
                    }
                }
                if good {
                    assert forall|w: int| vpn + 1 <= w < end implies #[trigger] lookup(*mem, root, w).is_none() by {
                        lemma_paths_differ(w, vpn as int);
                        assert(lookup(m1, root, w) == lookup(m0, root, w));
                    }
                }
            }
            let ghost frames0 = frames@;
            frames.push((VirtPageNum(vpn), f));
            proof {
                if good {
                    assert forall|k: int| 0 <= k < frames@.len() implies (#[trigger] frames@[k]).0.0 == start + k
                        && lookup(*mem, root, frames@[k].0.0 as int) == Some(entry_for(frames@[k].1.ppn.0, self.perm)) by {
                        if k < frames@.len() - 1 {
                            assert(frames@[k] == frames0[k]);
                            lemma_paths_differ(frames@[k].0.0 as int, vpn as int);
                            assert(lookup(m1, root, frames@[k].0.0 as int) == lookup(m0, root, frames@[k].0.0 as int));
                        }
                    }
                }
            }
            vpn = vpn + 1;
        }
        self.frames = frames;
        self.check_mapped(pt, mem)
    }

    /// Unmaps every mapped page of the area and gives up its frames; false when a page
    /// could not be unmapped or is still mapped afterwards (read back through the table).
    /// On a table that is a tree, with the area in the 39-bit address space, it succeeds and
    /// the table stays a tree.
    pub fn unmap(&mut self, pt: &mut PageTable, mem: &mut PhysMem) -> (ok: bool)
        requires old(mem).wf(),
        ensures
            final(mem).wf(),
            final(mem).base_ppn == old(mem).base_ppn,
            final(mem).bytes.len() == old(mem).bytes.len(),
            final(pt).root_ppn == old(pt).root_ppn,
            final(self).frames@.len() == 0,
            final(self).start_vpn == old(self).start_vpn,
            final(self).end_vpn == old(self).end_vpn,
            final(self).perm == old(self).perm,
            ok == range_unmapped(*final(mem), final(pt).root_ppn.0 as int, old(self).start_vpn.0 as int, old(self).end_vpn.0 as int),
            forall|fa: StackFrameAllocator| #[trigger] pt_inv(*old(mem), fa, old(pt).root_ppn.0 as int) && old(self).end_vpn.0 <= 0x800_0000
                ==> ok && pt_inv(*final(mem), fa, old(pt).root_ppn.0 as int),
    {
        let ghost root = pt.root_ppn.0 as int;
        let mut vpn = self.start_vpn.0;
        while vpn < self.end_vpn.0
            invariant
                mem.wf(),
                mem.base_ppn == old(mem).base_ppn,
                mem.bytes.len() == old(mem).bytes.len(),
                pt.root_ppn == old(pt).root_ppn,
                root == pt.root_ppn.0,
                self.start_vpn.0 <= vpn,
                self.end_vpn == old(self).end_vpn,
                self.start_vpn == old(self).start_vpn,
                vpn <= self.end_vpn.0 || vpn == self.start_vpn.0,
                forall|fa: StackFrameAllocator| #[trigger] pt_inv(*old(mem), fa, root) && self.end_vpn.0 <= 0x800_0000 ==> {
                    &&& pt_inv(*mem, fa, root)
                    &&& forall|w: int| self.start_vpn.0 <= w < vpn ==> #[trigger] lookup(*mem, root, w).is_none()
                },
            decreases self.end_vpn.0 - vpn,
        {
            let ghost m0 = *mem;
            if pt.find_pte(mem, VirtPageNum(vpn)).is_some() {
                if pt.unmap_ready(mem, VirtPageNum(vpn)) {
                    pt.unmap(mem, VirtPageNum(vpn));
                }
            }
            proof {
                assert forall|fa: StackFrameAllocator| #[trigger] pt_inv(*old(mem), fa, root) && self.end_vpn.0 <= 0x800_0000 implies {
                    &&& pt_inv(*mem, fa, root)
                    &&& forall|w: int| self.start_vpn.0 <= w < vpn + 1 ==> #[trigger] lookup(*mem, root, w).is_none()
                } by {
                    assert(pt_inv(m0, fa, root));
                    if lookup(m0, root, vpn as int).is_some() {
                        lemma_inv_distinct(m0, fa, root, vpn as int);
                        assert(pt_inv(*mem, fa, root));
                        assert forall|w: int| self.start_vpn.0 <= w < vpn + 1 implies #[trigger] lookup(*mem, root, w).is_none() by {
                            if w < vpn {
                                lemma_paths_differ(w, vpn as int);
                                assert(lookup(m0, root, w).is_none());
                            }
                        }
                    }
                }
            }
            vpn = vpn + 1;
        }
        self.frames = Vec::new();
        let mut v = self.start_vpn.0;
        while v < self.end_vpn.0
            invariant
                mem.wf(),
                mem.base_ppn == old(mem).base_ppn,
                mem.bytes.len() == old(mem).bytes.len(),
                pt.root_ppn == old(pt).root_ppn,
                root == pt.root_ppn.0,
                self.frames@.len() == 0,
                self.start_vpn == old(self).start_vpn,
                self.end_vpn == old(self).end_vpn,
                self.perm == old(self).perm,
                self.start_vpn.0 <= v,
                forall|w: int| self.start_vpn.0 <= w < v ==> #[trigger] lookup(*mem, pt.root_ppn.0 as int, w).is_none(),
                forall|fa: StackFrameAllocator| #[trigger] pt_inv(*old(mem), fa, root) && self.end_vpn.0 <= 0x800_0000 ==> {
                    &&& pt_inv(*mem, fa, root)
                    &&& forall|w: int| self.start_vpn.0 <= w < self.end_vpn.0 ==> #[trigger] lookup(*mem, root, w).is_none()
                },
            decreases self.end_vpn.0 - v,
        {
            if pt.find_pte(mem, VirtPageNum(v)).is_some() {
                proof {
                    assert(!lookup(*mem, pt.root_ppn.0 as int, v as int).is_none());
                    assert forall|fa: StackFrameAllocator| #[trigger] pt_inv(*old(mem), fa, root) implies !(self.end_vpn.0 <= 0x800_0000) by {
                        if self.end_vpn.0 <= 0x800_0000 {
                            assert(lookup(*mem, root, v as int).is_none());
                        }
                    }
                }
                return false;
            }
            v = v + 1;
        }
        true
    }

    /// Copies `data` into the area's pages from the start of its first page, page by page,
    /// stopping at the end of the data or of the area (a page not mapped to memory is
    /// passed over); whether the bytes then read back through the table (see `copied`).
    pub fn copy_from(&mut self, pt: &PageTable, mem: &mut PhysMem, data: &[u8]) -> (ok: bool)
        requires old(mem).wf(),
        ensures
            final(mem).wf(),
            final(mem).base_ppn == old(mem).base_ppn,
            final(mem).bytes.len() == old(mem).bytes.len(),
            *final(self) == *old(self),
            ok ==> copied(*old(self), *final(mem), pt.root_ppn.0 as int, data@),
            copied(*old(self), *final(mem), pt.root_ppn.0 as int, data@)
                && old(self).start_vpn.0 * PAGE_SIZE + data@.len() <= usize::MAX ==> ok,
    {
        let mut offset: usize = 0;
        let mut vpn = self.start_vpn.0;
        while vpn < self.end_vpn.0 && offset < data.len()
            invariant
                mem.wf(),
                mem.base_ppn == old(mem).base_ppn,
                mem.bytes.len() == old(mem).bytes.len(),
                self.start_vpn.0 <= vpn,
            decreases self.end_vpn.0 - vpn,
        {
            let n = if data.len() - offset < PAGE_SIZE { data.len() - offset } else { PAGE_SIZE };
            let ppn = match pt.translate(mem, VirtPageNum(vpn)) {
                Some(e) => e.ppn().0,
                None => 0,
            };
            let mut j: usize = 0;
            let present = mem.frame_in_range(ppn);
            while present && j < n
                invariant
                    mem.wf(),
                    mem.base_ppn == old(mem).base_ppn,
                    mem.bytes.len() == old(mem).bytes.len(),
                    present ==> mem.frame_valid(ppn as int),
                    n <= PAGE_SIZE,
                    offset + n <= data.len(),
                    j <= n,
                decreases n - j,
            {
                mem.write_byte(ppn * PAGE_SIZE + j, data[offset + j]);
                j = j + 1;
            }
            offset = offset + n;
            vpn = vpn + 1;
        }
        self.check_copied(pt, mem, data)
    }

    /// Whether the bytes of `data` read back through the table where `copy_from` puts them.
    fn check_copied(&self, pt: &PageTable, mem: &PhysMem, data: &[u8]) -> (r: bool)
        requires mem.wf(),
        ensures
            r ==> copied(*self, *mem, pt.root_ppn.0 as int, data@),
            copied(*self, *mem, pt.root_ppn.0 as int, data@) && self.start_vpn.0 * PAGE_SIZE + data@.len() <= usize::MAX ==> r,
    {
        if self.start_vpn.0 > usize::MAX / PAGE_SIZE {
            return data.len() == 0;
        }
        let base = self.start_vpn.0 * PAGE_SIZE;
        let mut i: usize = 0;
        while i < data.len()
            invariant
                mem.wf(),
                base == self.start_vpn.0 * PAGE_SIZE,
                i <= data@.len(),
                forall|q: int| 0 <= q < i && self.start_vpn.0 + q / (PAGE_SIZE as int) < self.end_vpn.0 ==>
                    #[trigger] user_byte(*mem, pt.root_ppn.0 as int, self.start_vpn.0 * PAGE_SIZE + q) == Some(data@[q]),
            decreases data@.len() - i,
        {
            if self.start_vpn.0 + i / PAGE_SIZE >= self.end_vpn.0 {
                assert forall|q: int| #![trigger data@[q]] i <= q < data@.len() implies self.start_vpn.0 + q / (PAGE_SIZE as int) >= self.end_vpn.0 by {
                    let ii = i as int;
                    assert(q / 4096 >= ii / 4096) by (nonlinear_arith) requires ii <= q, 0 <= ii;
                }
                return true;
            }
            if base > usize::MAX - i {
                return false;
            }
            match read_user_byte(pt, mem, base + i) {
                Some(b) => {
                    if b != data[i] {
                        assert(user_byte(*mem, pt.root_ppn.0 as int, self.start_vpn.0 * PAGE_SIZE + i) != Some(data@[i as int]));
                        return false;
                    }
                },
                None => {
                    assert(user_byte(*mem, pt.root_ppn.0 as int, self.start_vpn.0 * PAGE_SIZE + i) != Some(data@[i as int]));
                    return false;
                },
            }
            i = i + 1;
        }
        true
    }
}

/// The byte at virtual address `va` through the table rooted at `root`, when its page is
/// mapped to a frame of memory.
pub open spec fn user_byte(mem: PhysMem, root: int, va: int) -> Option<u8> {
    match lookup(mem, root, va / PAGE_SIZE as int) {
        Some(e) => {
            let pa = pte_ppn(e) * PAGE_SIZE + va % PAGE_SIZE as int;
            if mem.in_range(pa, 1) { Some(mem.byte(pa)) } else { None }
        },
        None => None,
    }
}

/// Writes `b` at virtual address `va` through the table; false when its page is not mapped
/// to a frame of memory.
pub fn write_user_byte(pt: &PageTable, mem: &mut PhysMem, va: usize, b: u8) -> (ok: bool)
    requires old(mem).wf(),
    ensures
        final(mem).wf(),
        final(mem).base_ppn == old(mem).base_ppn,
        final(mem).bytes.len() == old(mem).bytes.len(),
        ok == user_byte(*old(mem), pt.root_ppn.0 as int, va as int).is_some(),
        !ok ==> *final(mem) == *old(mem),
        ok ==> final(mem).bytes@ == old(mem).bytes@.update(
            pte_ppn(lookup(*old(mem), pt.root_ppn.0 as int, va as int / PAGE_SIZE as int).unwrap()) * PAGE_SIZE + va as int % PAGE_SIZE as int - old(mem).start(), b),
{
    let e = match pt.translate(mem, VirtAddr(va).floor()) {
        Some(e) => e,
        None => return false,
    };
    let pa = (e.ppn().0 as u128) * 4096 + (va % PAGE_SIZE) as u128;
    let start = (mem.base_ppn as u128) * 4096;
    let end = start + mem.bytes.len() as u128;
    if pa < start || pa >= end {
        return false;
    }
    mem.write_byte(pa as usize, b);
    true
}

/// Reads the byte at virtual address `va` through the table.
pub fn read_user_byte(pt: &PageTable, mem: &PhysMem, va: usize) -> (r: Option<u8>)
    requires mem.wf(),
    ensures r == user_byte(*mem, pt.root_ppn.0 as int, va as int),
{
    let e = match pt.translate(mem, VirtAddr(va).floor()) {
        Some(e) => e,
        None => return None,
    };
    let pa = (e.ppn().0 as u128) * 4096 + (va % PAGE_SIZE) as u128;
    let start = (mem.base_ppn as u128) * 4096;
    let end = start + mem.bytes.len() as u128;
    if pa < start || pa >= end {
        return None;
    }
    Some(mem.read_byte(pa as usize))
}

pub struct MemorySet {
    pub page_table: PageTable,
    pub areas: Vec<MapArea>,
}

/// Where the kernel image's sections start and end (from the link), and where memory ends.
#[derive(Clone, Copy, Debug)]
pub struct KernelLayout {
    pub stext: usize,
    pub etext: usize,
    pub srodata: usize,
    pub erodata: usize,
    pub sdata: usize,
    pub edata: usize,
    pub sbss: usize,
    pub ebss: usize,
    pub ekernel: usize,
}

/// The areas of the kernel's address space, in order: text (R|X), read-only data (R), data
/// and bss (R|W), the rest of memory up to 512 MiB past 0x8000_0000 (R|W), the virtio
/// devices, the interrupt controller and the UART (R|W).
pub open spec fn kernel_areas(l: KernelLayout) -> Seq<(usize, usize, usize)> {
    seq![
        (l.stext, l.etext, MAP_R | MAP_X),
        (l.srodata, l.erodata, MAP_R),
        (l.sdata, l.edata, MAP_R | MAP_W),
        (l.sbss, l.ebss, MAP_R | MAP_W),
        (l.ekernel, 0xa000_0000usize, MAP_R | MAP_W),
        (0x1000_1000usize, 0x1000_9000usize, MAP_R | MAP_W),
        (0x0c00_0000usize, 0x1000_0000usize, MAP_R | MAP_W),
        (0x1000_0000usize, 0x1000_1000usize, MAP_R | MAP_W)
    ]
}

/// The number of pages the area `(s, e, _)` of `kernel_areas` covers.
pub open spec fn area_pages(a: (usize, usize, usize)) -> int {
    let s = (a.0 / PAGE_SIZE) as int;
    let e = ceil_div_page(a.1 as int);
    if e >= s { e - s } else { 0 }
}

/// The pages of the areas from the `k`-th on.
pub open spec fn pages_from(areas: Seq<(usize, usize, usize)>, k: int) -> int
    decreases areas.len() - k,
{
    if k < 0 || k >= areas.len() { 0 } else { area_pages(areas[k]) + pages_from(areas, k + 1) }
}

proof fn lemma_pages_from(areas: Seq<(usize, usize, usize)>, k: int)
    ensures pages_from(areas, k) >= 0,
    decreases areas.len() - k,
{
    if 0 <= k < areas.len() {
        lemma_pages_from(areas, k + 1);
    }
}

/// The page ranges `[s1, e1)` and `[s2, e2)` have no page in common.
pub open spec fn ranges_apart(s1: int, e1: int, s2: int, e2: int) -> bool {
    e1 <= s2 || e2 <= s1 || e1 <= s1 || e2 <= s2
}

/// The areas' pages lie in the 39-bit address space and no two areas share a page.
pub open spec fn layout_fits(areas: Seq<(usize, usize, usize)>) -> bool {
    &&& forall|i: int| 0 <= i < areas.len() ==> ceil_div_page((#[trigger] areas[i]).1 as int) <= 0x800_0000
    &&& forall|i: int, j: int| 0 <= i < j < areas.len() ==> ranges_apart(
        ((#[trigger] areas[i]).0 / PAGE_SIZE) as int, ceil_div_page(areas[i].1 as int),
        ((#[trigger] areas[j]).0 / PAGE_SIZE) as int, ceil_div_page(areas[j].1 as int))
}

/// An area stays mapped while only pages outside it, below 2^27, change.
proof fn lemma_area_kept(a: MapArea, m0: PhysMem, m1: PhysMem, root: int, s: int, e: int)
    requires
        area_mapped(a, m0, root),
        a.end_vpn.0 <= 0x800_0000,
        ranges_apart(a.start_vpn.0 as int, a.end_vpn.0 as int, s, e),
        forall|w: int| 0 <= w < 0x800_0000 && !(s <= w < e) ==> #[trigger] lookup(m1, root, w) == lookup(m0, root, w),
    ensures area_mapped(a, m1, root),
{
    assert forall|k: int| 0 <= k < a.frames@.len() implies
        lookup(m1, root, (#[trigger] a.frames@[k]).0.0 as int) == Some(entry_for(a.frames@[k].1.ppn.0, a.perm)) by {
        assert(lookup(m1, root, a.frames@[k].0.0 as int) == lookup(m0, root, a.frames@[k].0.0 as int));
    }
}

/// A range stays unmapped while only pages outside it, below 2^27, change.
proof fn lemma_unmapped_kept(m0: PhysMem, m1: PhysMem, root: int, rs: int, re: int, s: int, e: int)
    requires
        range_unmapped(m0, root, rs, re),
        re <= 0x800_0000, rs >= 0,
        ranges_apart(rs, re, s, e),
        forall|w: int| 0 <= w < 0x800_0000 && !(s <= w < e) ==> #[trigger] lookup(m1, root, w) == lookup(m0, root, w),
    ensures range_unmapped(m1, root, rs, re),
{
    assert forall|w: int| rs <= w < re implies #[trigger] lookup(m1, root, w).is_none() by {
        assert(lookup(m1, root, w) == lookup(m0, root, w));
        assert(lookup(m0, root, w).is_none());
    }
}

impl MemorySet {
    /// An address space with an empty page table (its root in a fresh frame) and no areas.
    pub fn new_bare(fa: &mut StackFrameAllocator, mem: &mut PhysMem) -> (ms: MemorySet)
        requires alloc_ok(*old(fa), *old(mem)), free_count(*old(fa)) > 0,
        ensures
            alloc_ok(*final(fa), *final(mem)),
            final(mem).base_ppn == old(mem).base_ppn,
            final(mem).bytes.len() == old(mem).bytes.len(),
            ms.areas@.len() == 0,
            ms.page_table.root_ppn.0 == next_frame(*old(fa)),
            forall|v: int| #[trigger] lookup(*final(mem), ms.page_table.root_ppn.0 as int, v).is_none(),
            pt_inv(*final(mem), *final(fa), ms.page_table.root_ppn.0 as int),
            free_count(*final(fa)) == free_count(*old(fa)) - 1,
    {
        MemorySet { page_table: PageTable::new(fa, mem), areas: Vec::new() }
    }

    /// The `satp` value that selects this address space.
    pub fn token(&self) -> (t: usize)
        requires self.page_table.root_ppn.0 < 0x1000_0000_0000,
        ensures t == (0x8000_0000_0000_0000u64 + self.page_table.root_ppn.0) as usize,
    {
        self.page_table.token() as usize
    }

    /// Whether every area is mapped as `area_mapped` says (each page read back).
    pub fn check_areas(&self, mem: &PhysMem) -> (r: bool)
        requires mem.wf(),
        ensures r == forall|i: int| 0 <= i < self.areas@.len() ==> area_mapped(#[trigger] self.areas@[i], *mem, self.page_table.root_ppn.0 as int),
    {
        let mut i: usize = 0;
        while i < self.areas.len()
            invariant
                mem.wf(),
                i <= self.areas@.len(),
                forall|j: int| 0 <= j < i ==> area_mapped(#[trigger] self.areas@[j], *mem, self.page_table.root_ppn.0 as int),
            decreases self.areas@.len() - i,
        {
            if !self.areas[i].check_mapped(&self.page_table, mem) {
                return false;
            }
            i = i + 1;
        }
        true
    }

    /// Maps the pages of `area` to fresh frames, copies `data` (if any) into them, and adds
    /// the area; false when mapping or copying failed (see `MapArea::map`, which also says
    /// when mapping succeeds).
    pub fn push(&mut self, area: MapArea, data: Option<&[u8]>, fa: &mut StackFrameAllocator, mem: &mut PhysMem) -> (ok: bool)
        requires alloc_ok(*old(fa), *old(mem)),
        ensures
            table_kept(*final(fa), *old(mem), *final(mem), old(self).page_table.root_ppn, final(self).page_table.root_ppn),
            final(self).areas@.len() == old(self).areas@.len() + 1,
            forall|j: int| 0 <= j < old(self).areas@.len() ==> #[trigger] final(self).areas@[j] == old(self).areas@[j],
            final(self).areas@.last().start_vpn == area.start_vpn,
            final(self).areas@.last().end_vpn == area.end_vpn,
            final(self).areas@.last().perm == area.perm,
            ok ==> area_mapped(final(self).areas@.last(), *final(mem), final(self).page_table.root_ppn.0 as int),
            ok ==> (data matches Some(d) ==> forall|i: int| 0 <= i < d@.len() && area.start_vpn.0 + i / (PAGE_SIZE as int) < area.end_vpn.0 ==>
                #[trigger] user_byte(*final(mem), final(self).page_table.root_ppn.0 as int, area.start_vpn.0 * PAGE_SIZE + i) == Some(d@[i])),
            free_count(*final(fa)) >= free_count(*old(fa)) - 3 * (if area.end_vpn.0 >= area.start_vpn.0 { area.end_vpn.0 - area.start_vpn.0 } else { 0 }),
            data.is_none() && pt_inv(*old(mem), *old(fa), old(self).page_table.root_ppn.0 as int) ==> {
                &&& pt_inv(*final(mem), *final(fa), old(self).page_table.root_ppn.0 as int)
                &&& range_unmapped(*old(mem), old(self).page_table.root_ppn.0 as int, area.start_vpn.0 as int, area.end_vpn.0 as int)
                    && area.end_vpn.0 <= 0x800_0000
                    && free_count(*old(fa)) >= 3 * (area.end_vpn.0 - area.start_vpn.0) ==> ok
                &&& area.end_vpn.0 <= 0x800_0000 ==> forall|w: int| 0 <= w < 0x800_0000 && !(area.start_vpn.0 <= w < area.end_vpn.0) ==>
                    #[trigger] lookup(*final(mem), old(self).page_table.root_ppn.0 as int, w) == lookup(*old(mem), old(self).page_table.root_ppn.0 as int, w)
            },
    {
        let mut area = area;
        let mut ok = area.map(&mut self.page_table, fa, mem);
        match data {
            Some(d) => {
                let ghost m1 = *mem;
                if !area.copy_from(&self.page_table, mem, d) {
                    ok = false;
                }
                proof {
                    assert(alloc_ok(*fa, *mem)) by {
                        assert forall|p: int| #[trigger] fa.is_free(p) implies mem.frame_valid(p) by {
                            assert(m1.frame_valid(p));
                        }
                    }
                }
                if ok && !area.check_mapped(&self.page_table, mem) {
                    ok = false;
                }
            },
            None => {},
        }
        self.areas.push(area);
        ok
    }

    /// Maps each page of `[start_va, end_va)` to the frame of the same number with `perm`
    /// (a page that cannot be mapped is passed over); no area is recorded. Whether every
    /// page then reads back as so mapped. On a table that is a tree it succeeds when none of
    /// the pages is mapped, they lie in the 39-bit address space and the allocator has two
    /// frames per page for tables; the table stays a tree.
    #[verifier::rlimit(50)]
    #[verifier::spinoff_prover]
    pub fn push_identity(&mut self, start_va: usize, end_va: usize, perm: MapPerm, fa: &mut StackFrameAllocator, mem: &mut PhysMem) -> (ok: bool)
        requires
            alloc_ok(*old(fa), *old(mem)),
            end_va + PAGE_SIZE - 1 <= usize::MAX,
        ensures
            table_kept(*final(fa), *old(mem), *final(mem), old(self).page_table.root_ppn, final(self).page_table.root_ppn),
            final(self).areas == old(self).areas,
            ok == range_identity(*final(mem), final(self).page_table.root_ppn.0 as int, start_va, end_va, perm),
            pt_inv(*old(mem), *old(fa), old(self).page_table.root_ppn.0 as int) ==> pt_inv(*final(mem), *final(fa), old(self).page_table.root_ppn.0 as int),
            pt_inv(*old(mem), *old(fa), old(self).page_table.root_ppn.0 as int)
                && range_unmapped(*old(mem), old(self).page_table.root_ppn.0 as int, (start_va / PAGE_SIZE) as int, ceil_div_page(end_va as int))
                && ceil_div_page(end_va as int) <= 0x800_0000
                && free_count(*old(fa)) >= 2 * (ceil_div_page(end_va as int) - (start_va / PAGE_SIZE) as int) ==> ok,
            free_count(*final(fa)) >= free_count(*old(fa)) - 2 * (if ceil_div_page(end_va as int) >= (start_va / PAGE_SIZE) as int {
                ceil_div_page(end_va as int) - (start_va / PAGE_SIZE) as int } else { 0 }),
            pt_inv(*old(mem), *old(fa), old(self).page_table.root_ppn.0 as int) && ceil_div_page(end_va as int) <= 0x800_0000 ==>
                forall|w: int| 0 <= w < 0x800_0000 && !((start_va / PAGE_SIZE) as int <= w < ceil_div_page(end_va as int)) ==>
                    #[trigger] lookup(*final(mem), old(self).page_table.root_ppn.0 as int, w) == lookup(*old(mem), old(self).page_table.root_ppn.0 as int, w),
    {
        let svpn = VirtAddr(start_va).floor();
        let evpn = VirtAddr(end_va).ceil();
        let flags = perm.pte_flags();
        let ghost root = self.page_table.root_ppn.0 as int;
        let ghost good = pt_inv(*old(mem), *old(fa), root) && range_unmapped(*old(mem), root, svpn.0 as int, evpn.0 as int)
            && evpn.0 <= 0x800_0000 && free_count(*old(fa)) >= 2 * (evpn.0 - svpn.0);
        let mut vpn = svpn.0;
        while vpn < evpn.0
            invariant
                table_kept(*fa, *old(mem), *mem, old(self).page_table.root_ppn, self.page_table.root_ppn),
                self.areas == old(self).areas,
                svpn.0 <= vpn,
                flags.bits == perm_flags(perm),
                flags.bits < 256,
                root == self.page_table.root_ppn.0,
                pt_inv(*old(mem), *old(fa), root) ==> pt_inv(*mem, *fa, root),
                good == (pt_inv(*old(mem), *old(fa), root) && range_unmapped(*old(mem), root, svpn.0 as int, evpn.0 as int)
                    && evpn.0 <= 0x800_0000 && free_count(*old(fa)) >= 2 * (evpn.0 - svpn.0)),
                good ==> free_count(*fa) >= 2 * (evpn.0 - vpn),
                free_count(*fa) >= free_count(*old(fa)) - 2 * (vpn - svpn.0),
                vpn <= evpn.0 || vpn == svpn.0,
                pt_inv(*old(mem), *old(fa), root) && evpn.0 <= 0x800_0000 ==>
                    forall|w: int| 0 <= w < 0x800_0000 && !(svpn.0 <= w < evpn.0) ==>
                        #[trigger] lookup(*mem, root, w) == lookup(*old(mem), root, w),
                good ==> forall|w: int| vpn <= w < evpn.0 ==> #[trigger] lookup(*mem, root, w).is_none(),
                good ==> forall|w: int| svpn.0 <= w < vpn ==> #[trigger] lookup(*mem, root, w) == Some(entry_for(w as usize, perm)),
            decreases evpn.0 - vpn,
        {
            proof {
                if pt_inv(*mem, *fa, root) {
                    lemma_inv_path(*mem, *fa, root, vpn as int);
                }
                if good {
                    assert(lookup(*mem, root, vpn as int).is_none());
                }
            }
            if vpn as u64 <= 0xfff_ffff_ffff && self.page_table.map_ready(fa, mem, VirtPageNum(vpn)) {
                let ghost m1 = *mem;
                self.page_table.map(fa, mem, VirtPageNum(vpn), PhysPageNum(vpn), flags);
                proof {
                    if pt_inv(*old(mem), *old(fa), root) && evpn.0 <= 0x800_0000 {
                        assert forall|w: int| 0 <= w < 0x800_0000 && !(svpn.0 <= w < evpn.0) implies
                            #[trigger] lookup(*mem, root, w) == lookup(*old(mem), root, w) by {
                            lemma_paths_differ(w, vpn as int);
                            assert(lookup(m1, root, w) == lookup(*old(mem), root, w));
                        }
                    }
                    if good {
                        assert forall|w: int| vpn + 1 <= w < evpn.0 implies #[trigger] lookup(*mem, root, w).is_none() by {
                            lemma_paths_differ(w, vpn as int);
                            assert(lookup(m1, root, w).is_none());
                        }
                        assert forall|w: int| svpn.0 <= w < vpn + 1 implies #[trigger] lookup(*mem, root, w) == Some(entry_for(w as usize, perm)) by {
                            if w < vpn {
                                lemma_paths_differ(w, vpn as int);
                                assert(lookup(m1, root, w) == Some(entry_for(w as usize, perm)));
                            }
                        }
                    }
                }
            }
            vpn = vpn + 1;
        }
        self.check_identity(mem, start_va, end_va, perm)
    }

    /// The kernel's address space: an empty table, then the areas of `kernel_areas`, each
    /// mapped to fresh frames. `None` when a frame runs out or a page cannot be mapped;
    /// otherwise every area reads back as mapped. It succeeds when the areas do not overlap
    /// and lie in the 39-bit address space, and the allocator has a frame for the root and
    /// three per page.
    pub fn new_kernel(l: KernelLayout, fa: &mut StackFrameAllocator, mem: &mut PhysMem) -> (r: Option<MemorySet>)
        requires
            alloc_ok(*old(fa), *old(mem)),
            free_count(*old(fa)) > 0,
            l.etext + PAGE_SIZE - 1 <= usize::MAX,
            l.erodata + PAGE_SIZE - 1 <= usize::MAX,
            l.edata + PAGE_SIZE - 1 <= usize::MAX,
            l.ebss + PAGE_SIZE - 1 <= usize::MAX,
        ensures
            alloc_ok(*final(fa), *final(mem)),
            r matches Some(ms) ==> {
                &&& ms.areas@.len() == 8
                &&& forall|i: int| 0 <= i < 8 ==> {
                    let (s, e, p) = #[trigger] kernel_areas(l)[i];
                    &&& ms.areas@[i].start_vpn.0 == s / PAGE_SIZE
                    &&& ms.areas@[i].end_vpn.0 == ceil_div_page(e as int)
                    &&& ms.areas@[i].perm.bits == p
                    &&& area_mapped(ms.areas@[i], *final(mem), ms.page_table.root_ppn.0 as int)
                }
            },
            layout_fits(kernel_areas(l)) && free_count(*old(fa)) >= 1 + 3 * pages_from(kernel_areas(l), 0) ==> r.is_some(),
    {
        let areas: Vec<(usize, usize, usize)> = vec![
            (l.stext, l.etext, MAP_R | MAP_X),
            (l.srodata, l.erodata, MAP_R),
            (l.sdata, l.edata, MAP_R | MAP_W),
            (l.sbss, l.ebss, MAP_R | MAP_W),
            (l.ekernel, 0xa000_0000usize, MAP_R | MAP_W),
            (0x1000_1000usize, 0x1000_9000usize, MAP_R | MAP_W),
            (0x0c00_0000usize, 0x1000_0000usize, MAP_R | MAP_W),
            (0x1000_0000usize, 0x1000_1000usize, MAP_R | MAP_W),
        ];
        assert(areas@ =~= kernel_areas(l));
        let ghost good = layout_fits(kernel_areas(l)) && free_count(*old(fa)) >= 1 + 3 * pages_from(kernel_areas(l), 0);
        let mut ms = MemorySet::new_bare(fa, mem);
        let ghost root = ms.page_table.root_ppn.0 as int;
        proof {
            assert forall|j: int| 0 <= j < 8 implies
                range_unmapped(*mem, root, ((#[trigger] areas@[j]).0 / PAGE_SIZE) as int, ceil_div_page(areas@[j].1 as int)) by {}
        }
        let mut ok = true;
        let mut k: usize = 0;
        while k < 8
            invariant
                areas@ == kernel_areas(l),
                alloc_ok(*fa, *mem),
                k <= 8,
                ms.areas@.len() == k,
                root == ms.page_table.root_ppn.0,
                pt_inv(*mem, *fa, root),
                forall|i: int| 0 <= i < 8 ==> (#[trigger] areas@[i]).1 + PAGE_SIZE - 1 <= usize::MAX,
                forall|i: int| 0 <= i < k ==> {
                    let (s, e, p) = #[trigger] kernel_areas(l)[i];
                    &&& ms.areas@[i].start_vpn.0 == s / PAGE_SIZE
                    &&& ms.areas@[i].end_vpn.0 == ceil_div_page(e as int)
                    &&& ms.areas@[i].perm.bits == p
                },
                good == (layout_fits(kernel_areas(l)) && free_count(*old(fa)) >= 1 + 3 * pages_from(kernel_areas(l), 0)),
                good ==> ok,
                good ==> free_count(*fa) >= 3 * pages_from(areas@, k as int),
                good ==> forall|i: int| 0 <= i < k ==> area_mapped(#[trigger] ms.areas@[i], *mem, root),
                good ==> forall|j: int| k <= j < 8 ==>
                    range_unmapped(*mem, root, ((#[trigger] areas@[j]).0 / PAGE_SIZE) as int, ceil_div_page(areas@[j].1 as int)),
            decreases 8 - k,
        {
            let (s, e, p) = areas[k];
            let area = MapArea::new_identity(VirtAddr(s), VirtAddr(e), MapPerm { bits: p });
            let ghost m0 = *mem;
            let ghost ms0 = ms;
            proof {
                if good {
                    assert(area_pages(areas@[k as int]) + pages_from(areas@, k + 1) == pages_from(areas@, k as int));
                    assert(ceil_div_page(areas@[k as int].1 as int) <= 0x800_0000);
                    assert(range_unmapped(*mem, root, (areas@[k as int].0 / PAGE_SIZE) as int, ceil_div_page(areas@[k as int].1 as int)));
                    lemma_pages_from(areas@, k + 1);
                    assert(free_count(*fa) >= 3 * (area.end_vpn.0 - area.start_vpn.0));
                }
            }
            let pushed = ms.push(area, None, fa, mem);
            proof {
                if good {
                    assert forall|i: int| 0 <= i < k + 1 implies area_mapped(#[trigger] ms.areas@[i], *mem, root) by {
                        if i < k {
                            assert(ms.areas@[i] == ms0.areas@[i]);
                            lemma_area_kept(ms0.areas@[i], m0, *mem, root, area.start_vpn.0 as int, area.end_vpn.0 as int);
                        }
                    }
                    assert forall|j: int| k + 1 <= j < 8 implies
                        range_unmapped(*mem, root, ((#[trigger] areas@[j]).0 / PAGE_SIZE) as int, ceil_div_page(areas@[j].1 as int)) by {
                        lemma_unmapped_kept(m0, *mem, root, (areas@[j].0 / PAGE_SIZE) as int, ceil_div_page(areas@[j].1 as int),
                            area.start_vpn.0 as int, area.end_vpn.0 as int);
                    }
                }
            }
            ok = ok && pushed;
            k = k + 1;
        }
        if !ok || !ms.check_areas(mem) {
            return None;
        }
        Some(ms)
    }
}

/// The `len` bytes from virtual address `va` through the table; `None` when one of them is
/// not mapped to memory (or the range passes the end of the address space).
pub fn read_user_bytes(pt: &PageTable, mem: &PhysMem, va: usize, len: usize) -> (r: Option<Vec<u8>>)
    requires mem.wf(),
    ensures
        r matches Some(b) ==> b@.len() == len
            && forall|i: int| 0 <= i < len ==> #[trigger] user_byte(*mem, pt.root_ppn.0 as int, va + i) == Some(b@[i]),
        r.is_none() ==> va + len > usize::MAX + 1 || exists|i: int| 0 <= i < len && #[trigger] user_byte(*mem, pt.root_ppn.0 as int, va + i).is_none(),
{
    let mut out: Vec<u8> = Vec::new();
    let mut i: usize = 0;
    while i < len
        invariant
            mem.wf(),
            i <= len,
            out@.len() == i,
            forall|j: int| 0 <= j < i ==> #[trigger] user_byte(*mem, pt.root_ppn.0 as int, va + j) == Some(out@[j]),
        decreases len - i,
    {
        if va > usize::MAX - i {
            return None;
        }
        match read_user_byte(pt, mem, va + i) {
            Some(b) => out.push(b),
            None => return None,
        }
        i = i + 1;
    }
    Some(out)
}

/// Writes `data` from virtual address `va` through the table, byte by byte (a byte whose
/// page is not mapped to memory, or that passes the end of the address space, is not
/// written); whether the bytes then read back as `data`.
pub fn write_user_bytes(pt: &PageTable, mem: &mut PhysMem, va: usize, data: &[u8]) -> (ok: bool)
    requires old(mem).wf(),
    ensures
        final(mem).wf(),
        final(mem).base_ppn == old(mem).base_ppn,
        final(mem).bytes.len() == old(mem).bytes.len(),
        ok ==> forall|i: int| 0 <= i < data@.len() ==> #[trigger] user_byte(*final(mem), pt.root_ppn.0 as int, va + i) == Some(data@[i]),
        (forall|i: int| 0 <= i < data@.len() ==> #[trigger] user_byte(*final(mem), pt.root_ppn.0 as int, va + i) == Some(data@[i]))
            && va + data@.len() <= usize::MAX + 1 ==> ok,
{
    let mut i: usize = 0;
    while i < data.len()
        invariant
            mem.wf(),
            mem.base_ppn == old(mem).base_ppn,
            mem.bytes.len() == old(mem).bytes.len(),
            i <= data@.len(),
        decreases data@.len() - i,
    {
        if va > usize::MAX - i {
            break;
        }
        write_user_byte(pt, mem, va + i, data[i]);
        i = i + 1;
    }
    let mut j: usize = 0;
    while j < data.len()
        invariant
            mem.wf(),
            mem.base_ppn == old(mem).base_ppn,
            mem.bytes.len() == old(mem).bytes.len(),
            j <= data@.len(),
            forall|q: int| 0 <= q < j ==> #[trigger] user_byte(*mem, pt.root_ppn.0 as int, va + q) == Some(data@[q]),
        decreases data@.len() - j,
    {
        if va > usize::MAX - j {
            return false;
        }
        match read_user_byte(pt, mem, va + j) {
            Some(b) => {
                if b != data[j] {
                    assert(user_byte(*mem, pt.root_ppn.0 as int, va + j) != Some(data@[j as int]));
                    return false;
                }
            },
            None => {
                assert(user_byte(*mem, pt.root_ppn.0 as int, va + j) != Some(data@[j as int]));
                return false;
            },
        }
        j = j + 1;
    }
    true
}

/// At `va` is a string of `n` bytes other than 0, each mapped to memory, then a 0, all
/// within the address space.
pub open spec fn cstr_at(mem: PhysMem, root: int, va: int, n: int) -> bool {
    &&& 0 <= n && va + n <= usize::MAX
    &&& forall|i: int| 0 <= i < n ==> (#[trigger] user_byte(mem, root, va + i)).is_some() && user_byte(mem, root, va + i).unwrap() != 0
    &&& user_byte(mem, root, va + n) == Some(0u8)
}

/// The bytes of the NUL-terminated string at virtual address `va`, without the NUL; `None`
/// when a byte before the NUL is not mapped to memory.
pub fn read_cstr(pt: &PageTable, mem: &PhysMem, va: usize) -> (r: Option<Vec<u8>>)
    requires mem.wf(),
    ensures
        r.is_none() ==> forall|n: int| !#[trigger] cstr_at(*mem, pt.root_ppn.0 as int, va as int, n),
        r matches Some(s) ==> cstr_at(*mem, pt.root_ppn.0 as int, va as int, s@.len() as int),
        r matches Some(s) ==> {
            &&& forall|i: int| 0 <= i < s@.len() ==> #[trigger] user_byte(*mem, pt.root_ppn.0 as int, va + i) == Some(s@[i]) && s@[i] != 0
            &&& user_byte(*mem, pt.root_ppn.0 as int, va + s@.len()) == Some(0u8)
        },
{
    let mut out: Vec<u8> = Vec::new();
    let mut cur = va;
    loop
        invariant
            mem.wf(),
            va <= cur,
            out@.len() == cur - va,
            forall|i: int| 0 <= i < out@.len() ==> #[trigger] user_byte(*mem, pt.root_ppn.0 as int, va + i) == Some(out@[i]) && out@[i] != 0,
        decreases usize::MAX - cur,
    {
        let b = match read_user_byte(pt, mem, cur) {
            Some(b) => b,
            None => {
                proof {
                    assert forall|n: int| !#[trigger] cstr_at(*mem, pt.root_ppn.0 as int, va as int, n) by {
                        let c = cur - va;
                        if n > c && 0 <= n && va + n <= usize::MAX {
                            assert(user_byte(*mem, pt.root_ppn.0 as int, va + c) is None);
                        } else if n < c && 0 <= n {
                            assert(user_byte(*mem, pt.root_ppn.0 as int, va + n) == Some(out@[n]));
                        }
                    }
                }
                return None;
            },
        };
        if b == 0 {
            return Some(out);
        }
        if cur == usize::MAX {
            proof {
                assert forall|n: int| !#[trigger] cstr_at(*mem, pt.root_ppn.0 as int, va as int, n) by {
                    let c = cur - va;
                    if n < c && 0 <= n {
                        assert(user_byte(*mem, pt.root_ppn.0 as int, va + n) == Some(out@[n]));
                    }
                }
            }
            return None;
        }
        out.push(b);
        cur = cur + 1;
    }
}

impl MemorySet {
    /// Whether every page of `[start_va, end_va)` maps to the frame of the same number with
    /// `perm` (each read back through the table).
    pub fn check_identity(&self, mem: &PhysMem, start_va: usize, end_va: usize, perm: MapPerm) -> (r: bool)
        requires mem.wf(), end_va + PAGE_SIZE - 1 <= usize::MAX,
        ensures
            r == range_identity(*mem, self.page_table.root_ppn.0 as int, start_va, end_va, perm),
    {
        let svpn = VirtAddr(start_va).floor();
        let evpn = VirtAddr(end_va).ceil();
        let flags = perm.pte_flags();
        let mut v = svpn.0;
        while v < evpn.0
            invariant
                mem.wf(),
                svpn.0 <= v,
                svpn.0 == start_va / PAGE_SIZE,
                evpn.0 == ceil_div_page(end_va as int),
                flags.bits == perm_flags(perm),
                forall|w: int| svpn.0 <= w < v ==>
                    #[trigger] lookup(*mem, self.page_table.root_ppn.0 as int, w) == Some(entry_for(w as usize, perm)),
            decreases evpn.0 - v,
        {
            let want = ((v as u64) << 10u64) | (flags.bits | 1);
            match self.page_table.translate(mem, VirtPageNum(v)) {
                Some(e) => {
                    if e.bits != want {
                        assert(lookup(*mem, self.page_table.root_ppn.0 as int, v as int) != Some(entry_for(v as usize, perm)));
                        return false;
                    }
                },
                None => {
                    assert(lookup(*mem, self.page_table.root_ppn.0 as int, v as int) != Some(entry_for(v as usize, perm)));
                    return false;
                },
            }
            v = v + 1;
        }
        true
    }
}

/// The identity ranges of every user address space, in order: the kernel's sections (text
/// R|X, read-only data R, data and bss R|W), the rest of memory up to 512 MiB past
/// 0x8000_0000, and the devices (test device, UART, virtio, interrupt controller), R|W.
pub open spec fn identity_ranges(l: KernelLayout) -> Seq<(usize, usize, usize)> {
    seq![
        (l.stext, l.etext, MAP_R | MAP_X),
        (l.srodata, l.erodata, MAP_R),
        (l.sdata, l.edata, MAP_R | MAP_W),
        (l.sbss, l.ebss, MAP_R | MAP_W),
        (l.ekernel, 0xa000_0000usize, MAP_R | MAP_W),
        (0x0010_0000usize, 0x0010_1000usize, MAP_R | MAP_W),
        (0x1000_0000usize, 0x1000_1000usize, MAP_R | MAP_W),
        (0x1000_1000usize, 0x1000_9000usize, MAP_R | MAP_W),
        (0x0c00_0000usize, 0x1000_0000usize, MAP_R | MAP_W)
    ]
}

/// Every page of `[s, e)` maps, in the table rooted at `root`, to the frame of the same
/// number with permission `p`.
pub open spec fn range_identity(mem: PhysMem, root: int, s: usize, e: usize, p: MapPerm) -> bool {
    forall|v: int| s / PAGE_SIZE <= v < ceil_div_page(e as int) ==>
        #[trigger] lookup(mem, root, v) == Some(entry_for(v as usize, p))
}

proof fn lemma_identity_mapped(l: KernelLayout, mem: PhysMem, root: int)
    ensures
        identity_mapped(l, mem, root) <==> (
            range_identity(mem, root, l.stext, l.etext, MapPerm { bits: MAP_R | MAP_X })
            && range_identity(mem, root, l.srodata, l.erodata, MapPerm { bits: MAP_R })
            && range_identity(mem, root, l.sdata, l.edata, MapPerm { bits: MAP_R | MAP_W })
            && range_identity(mem, root, l.sbss, l.ebss, MapPerm { bits: MAP_R | MAP_W })
            && range_identity(mem, root, l.ekernel, 0xa000_0000, MapPerm { bits: MAP_R | MAP_W })
            && range_identity(mem, root, 0x0010_0000, 0x0010_1000, MapPerm { bits: MAP_R | MAP_W })
            && range_identity(mem, root, 0x1000_0000, 0x1000_1000, MapPerm { bits: MAP_R | MAP_W })
            && range_identity(mem, root, 0x1000_1000, 0x1000_9000, MapPerm { bits: MAP_R | MAP_W })
            && range_identity(mem, root, 0x0c00_0000, 0x1000_0000, MapPerm { bits: MAP_R | MAP_W })),
{
    let ir = identity_ranges(l);
    assert(ir[0] == (l.stext, l.etext, MAP_R | MAP_X));
    assert(ir[1] == (l.srodata, l.erodata, MAP_R));
    assert(ir[2] == (l.sdata, l.edata, MAP_R | MAP_W));
    assert(ir[3] == (l.sbss, l.ebss, MAP_R | MAP_W));
    assert(ir[4] == (l.ekernel, 0xa000_0000usize, MAP_R | MAP_W));
    assert(ir[5] == (0x0010_0000usize, 0x0010_1000usize, MAP_R | MAP_W));
    assert(ir[6] == (0x1000_0000usize, 0x1000_1000usize, MAP_R | MAP_W));
    assert(ir[7] == (0x1000_1000usize, 0x1000_9000usize, MAP_R | MAP_W));
    assert(ir[8] == (0x0c00_0000usize, 0x1000_0000usize, MAP_R | MAP_W));
    if identity_mapped(l, mem, root) {
        assert(range_identity(mem, root, l.stext, l.etext, MapPerm { bits: MAP_R | MAP_X })) by {
            assert forall|v: int| l.stext / PAGE_SIZE <= v < ceil_div_page(l.etext as int) implies
                #[trigger] lookup(mem, root, v) == Some(entry_for(v as usize, MapPerm { bits: MAP_R | MAP_X })) by {
                let _ = identity_ranges(l)[0];
            }
        }
        assert(range_identity(mem, root, l.srodata, l.erodata, MapPerm { bits: MAP_R })) by {
            assert forall|v: int| l.srodata / PAGE_SIZE <= v < ceil_div_page(l.erodata as int) implies
                #[trigger] lookup(mem, root, v) == Some(entry_for(v as usize, MapPerm { bits: MAP_R })) by {
                let _ = identity_ranges(l)[1];
            }
        }
        assert(range_identity(mem, root, l.sdata, l.edata, MapPerm { bits: MAP_R | MAP_W })) by {
            assert forall|v: int| l.sdata / PAGE_SIZE <= v < ceil_div_page(l.edata as int) implies
                #[trigger] lookup(mem, root, v) == Some(entry_for(v as usize, MapPerm { bits: MAP_R | MAP_W })) by {
                let _ = identity_ranges(l)[2];
            }
        }
        assert(range_identity(mem, root, l.sbss, l.ebss, MapPerm { bits: MAP_R | MAP_W })) by {
            assert forall|v: int| l.sbss / PAGE_SIZE <= v < ceil_div_page(l.ebss as int) implies
                #[trigger] lookup(mem, root, v) == Some(entry_for(v as usize, MapPerm { bits: MAP_R | MAP_W })) by {
                let _ = identity_ranges(l)[3];
            }
        }
        assert(range_identity(mem, root, l.ekernel, 0xa000_0000, MapPerm { bits: MAP_R | MAP_W })) by {
            assert forall|v: int| l.ekernel / PAGE_SIZE <= v < ceil_div_page(0xa000_0000 as int) implies
                #[trigger] lookup(mem, root, v) == Some(entry_for(v as usize, MapPerm { bits: MAP_R | MAP_W })) by {
                let _ = identity_ranges(l)[4];
            }
        }
        assert(range_identity(mem, root, 0x0010_0000, 0x0010_1000, MapPerm { bits: MAP_R | MAP_W })) by {
            assert forall|v: int| 0x0010_0000usize / PAGE_SIZE <= v < ceil_div_page(0x0010_1000 as int) implies
                #[trigger] lookup(mem, root, v) == Some(entry_for(v as usize, MapPerm { bits: MAP_R | MAP_W })) by {
                let _ = identity_ranges(l)[5];
            }
        }
        assert(range_identity(mem, root, 0x1000_0000, 0x1000_1000, MapPerm { bits: MAP_R | MAP_W })) by {
            assert forall|v: int| 0x1000_0000usize / PAGE_SIZE <= v < ceil_div_page(0x1000_1000 as int) implies
                #[trigger] lookup(mem, root, v) == Some(entry_for(v as usize, MapPerm { bits: MAP_R | MAP_W })) by {
                let _ = identity_ranges(l)[6];
            }
        }
        assert(range_identity(mem, root, 0x1000_1000, 0x1000_9000, MapPerm { bits: MAP_R | MAP_W })) by {
            assert forall|v: int| 0x1000_1000usize / PAGE_SIZE <= v < ceil_div_page(0x1000_9000 as int) implies
                #[trigger] lookup(mem, root, v) == Some(entry_for(v as usize, MapPerm { bits: MAP_R | MAP_W })) by {
                let _ = identity_ranges(l)[7];
            }
        }
        assert(range_identity(mem, root, 0x0c00_0000, 0x1000_0000, MapPerm { bits: MAP_R | MAP_W })) by {
            assert forall|v: int| 0x0c00_0000usize / PAGE_SIZE <= v < ceil_div_page(0x1000_0000 as int) implies
                #[trigger] lookup(mem, root, v) == Some(entry_for(v as usize, MapPerm { bits: MAP_R | MAP_W })) by {
                let _ = identity_ranges(l)[8];
            }
        }
    }
    if range_identity(mem, root, l.stext, l.etext, MapPerm { bits: MAP_R | MAP_X }) && range_identity(mem, root, l.srodata, l.erodata, MapPerm { bits: MAP_R }) && range_identity(mem, root, l.sdata, l.edata, MapPerm { bits: MAP_R | MAP_W }) && range_identity(mem, root, l.sbss, l.ebss, MapPerm { bits: MAP_R | MAP_W }) && range_identity(mem, root, l.ekernel, 0xa000_0000, MapPerm { bits: MAP_R | MAP_W }) && range_identity(mem, root, 0x0010_0000, 0x0010_1000, MapPerm { bits: MAP_R | MAP_W }) && range_identity(mem, root, 0x1000_0000, 0x1000_1000, MapPerm { bits: MAP_R | MAP_W }) && range_identity(mem, root, 0x1000_1000, 0x1000_9000, MapPerm { bits: MAP_R | MAP_W }) && range_identity(mem, root, 0x0c00_0000, 0x1000_0000, MapPerm { bits: MAP_R | MAP_W }) {
        assert forall|i: int, v: int| 0 <= i < 9 && {
            let (s, e, p) = #[trigger] identity_ranges(l)[i];
            s / PAGE_SIZE <= v < ceil_div_page(e as int)
        } implies {
            let (s, e, p) = identity_ranges(l)[i];
            #[trigger] lookup(mem, root, v) == Some(entry_for(v as usize, MapPerm { bits: p }))
        } by {
            if i == 0 { assert(lookup(mem, root, v) == Some(entry_for(v as usize, MapPerm { bits: MAP_R | MAP_X }))); }
            if i == 1 { assert(lookup(mem, root, v) == Some(entry_for(v as usize, MapPerm { bits: MAP_R }))); }
            if i == 2 { assert(lookup(mem, root, v) == Some(entry_for(v as usize, MapPerm { bits: MAP_R | MAP_W }))); }
            if i == 3 { assert(lookup(mem, root, v) == Some(entry_for(v as usize, MapPerm { bits: MAP_R | MAP_W }))); }
            if i == 4 { assert(lookup(mem, root, v) == Some(entry_for(v as usize, MapPerm { bits: MAP_R | MAP_W }))); }
            if i == 5 { assert(lookup(mem, root, v) == Some(entry_for(v as usize, MapPerm { bits: MAP_R | MAP_W }))); }
            if i == 6 { assert(lookup(mem, root, v) == Some(entry_for(v as usize, MapPerm { bits: MAP_R | MAP_W }))); }
            if i == 7 { assert(lookup(mem, root, v) == Some(entry_for(v as usize, MapPerm { bits: MAP_R | MAP_W }))); }
            if i == 8 { assert(lookup(mem, root, v) == Some(entry_for(v as usize, MapPerm { bits: MAP_R | MAP_W }))); }
        }
    }
}

/// Every page of the ranges of `identity_ranges` maps, in the table rooted at `root`, to
/// the frame of the same number with the range's permission.
pub open spec fn identity_mapped(l: KernelLayout, mem: PhysMem, root: int) -> bool {
    forall|i: int, v: int| 0 <= i < 9 && {
        let (s, e, p) = #[trigger] identity_ranges(l)[i];
        s / PAGE_SIZE <= v < ceil_div_page(e as int)
    } ==> {
        let (s, e, p) = identity_ranges(l)[i];
        #[trigger] lookup(mem, root, v) == Some(entry_for(v as usize, MapPerm { bits: p }))
    }
}

/// A range stays identity-mapped while only pages outside it, below 2^27, change.
proof fn lemma_identity_kept(m0: PhysMem, m1: PhysMem, root: int, rs: usize, re: usize, p: MapPerm, s: int, e: int)
    requires
        range_identity(m0, root, rs, re, p),
        ceil_div_page(re as int) <= 0x800_0000,
        ranges_apart((rs / PAGE_SIZE) as int, ceil_div_page(re as int), s, e),
        forall|w: int| 0 <= w < 0x800_0000 && !(s <= w < e) ==> #[trigger] lookup(m1, root, w) == lookup(m0, root, w),
    ensures range_identity(m1, root, rs, re, p),
{
    assert forall|v: int| rs / PAGE_SIZE <= v < ceil_div_page(re as int) implies
        #[trigger] lookup(m1, root, v) == Some(entry_for(v as usize, p)) by {
        assert(lookup(m1, root, v) == lookup(m0, root, v));
    }
}

/// An address space holding only the identity mappings of `identity_ranges`, its table
/// rooted at the frame the allocator hands out first (pages that cannot be mapped are
/// passed over); `None` when the ranges do not then read back as so mapped. It succeeds
/// when the ranges do not overlap and lie in the 39-bit address space, and the allocator
/// has a frame for the root and two per page for tables.
pub fn kernel_identity_space(l: KernelLayout, fa: &mut StackFrameAllocator, mem: &mut PhysMem) -> (r: Option<MemorySet>)
    requires
        alloc_ok(*old(fa), *old(mem)),
        free_count(*old(fa)) > 0,
        l.etext + PAGE_SIZE - 1 <= usize::MAX,
        l.erodata + PAGE_SIZE - 1 <= usize::MAX,
        l.edata + PAGE_SIZE - 1 <= usize::MAX,
        l.ebss + PAGE_SIZE - 1 <= usize::MAX,
    ensures
        alloc_ok(*final(fa), *final(mem)),
        r.is_none() <==> !identity_mapped(l, *final(mem), next_frame(*old(fa))),
        r matches Some(ms) ==> ms.areas@.len() == 0 && ms.page_table.root_ppn.0 == next_frame(*old(fa))
            && identity_mapped(l, *final(mem), ms.page_table.root_ppn.0 as int),
        layout_fits(identity_ranges(l)) && free_count(*old(fa)) >= 1 + 2 * pages_from(identity_ranges(l), 0) ==> r.is_some(),
{
    let ranges: Vec<(usize, usize, usize)> = vec![
        (l.stext, l.etext, MAP_R | MAP_X),
        (l.srodata, l.erodata, MAP_R),
        (l.sdata, l.edata, MAP_R | MAP_W),
        (l.sbss, l.ebss, MAP_R | MAP_W),
        (l.ekernel, 0xa000_0000usize, MAP_R | MAP_W),
        (0x0010_0000usize, 0x0010_1000usize, MAP_R | MAP_W),
        (0x1000_0000usize, 0x1000_1000usize, MAP_R | MAP_W),
        (0x1000_1000usize, 0x1000_9000usize, MAP_R | MAP_W),
        (0x0c00_0000usize, 0x1000_0000usize, MAP_R | MAP_W),
    ];
    assert(ranges@ =~= identity_ranges(l));
    let ghost good = layout_fits(identity_ranges(l)) && free_count(*old(fa)) >= 1 + 2 * pages_from(identity_ranges(l), 0);
    let mut ms = MemorySet::new_bare(fa, mem);
    let ghost root = ms.page_table.root_ppn.0 as int;
    let mut k: usize = 0;
    while k < 9
        invariant
            ranges@ == identity_ranges(l),
            alloc_ok(*fa, *mem),
            k <= 9,
            ms.areas@.len() == 0,
            root == ms.page_table.root_ppn.0,
            root == next_frame(*old(fa)),
            pt_inv(*mem, *fa, root),
            forall|i: int| 0 <= i < 9 ==> (#[trigger] ranges@[i]).1 + PAGE_SIZE - 1 <= usize::MAX,
            good == (layout_fits(identity_ranges(l)) && free_count(*old(fa)) >= 1 + 2 * pages_from(identity_ranges(l), 0)),
            good ==> free_count(*fa) >= 2 * pages_from(ranges@, k as int),
            good ==> forall|i: int| 0 <= i < k ==>
                range_identity(*mem, root, (#[trigger] ranges@[i]).0, ranges@[i].1, MapPerm { bits: ranges@[i].2 }),
            good ==> forall|j: int| k <= j < 9 ==>
                range_unmapped(*mem, root, ((#[trigger] ranges@[j]).0 / PAGE_SIZE) as int, ceil_div_page(ranges@[j].1 as int)),
        decreases 9 - k,
    {
        let (s, e, p) = ranges[k];
        let ghost m0 = *mem;
        proof {
            if good {
                lemma_pages_from(ranges@, k + 1);
                assert(area_pages(ranges@[k as int]) + pages_from(ranges@, k + 1) == pages_from(ranges@, k as int));
                assert(ceil_div_page(ranges@[k as int].1 as int) <= 0x800_0000);
                assert(range_unmapped(*mem, root, (ranges@[k as int].0 / PAGE_SIZE) as int, ceil_div_page(ranges@[k as int].1 as int)));
            }
        }
        ms.push_identity(s, e, MapPerm { bits: p }, fa, mem);
        proof {
            if good {
                let sk = (s / PAGE_SIZE) as int;
                let ek = ceil_div_page(e as int);
                assert forall|i: int| 0 <= i < k + 1 implies
                    range_identity(*mem, root, (#[trigger] ranges@[i]).0, ranges@[i].1, MapPerm { bits: ranges@[i].2 }) by {
                    if i < k {
                        lemma_identity_kept(m0, *mem, root, ranges@[i].0, ranges@[i].1, MapPerm { bits: ranges@[i].2 }, sk, ek);
                    }
                }
                assert forall|j: int| k + 1 <= j < 9 implies
                    range_unmapped(*mem, root, ((#[trigger] ranges@[j]).0 / PAGE_SIZE) as int, ceil_div_page(ranges@[j].1 as int)) by {
                    lemma_unmapped_kept(m0, *mem, root, (ranges@[j].0 / PAGE_SIZE) as int, ceil_div_page(ranges@[j].1 as int), sk, ek);
                }
            }
        }
        k = k + 1;
    }
    let rw = MapPerm { bits: MAP_R | MAP_W };
    let c0 = ms.check_identity(mem, l.stext, l.etext, MapPerm { bits: MAP_R | MAP_X });
    let c1 = ms.check_identity(mem, l.srodata, l.erodata, MapPerm { bits: MAP_R });
    let c2 = ms.check_identity(mem, l.sdata, l.edata, rw);
    let c3 = ms.check_identity(mem, l.sbss, l.ebss, rw);
    let c4 = ms.check_identity(mem, l.ekernel, 0xa000_0000, rw);
    let c5 = ms.check_identity(mem, 0x0010_0000, 0x0010_1000, rw);
    let c6 = ms.check_identity(mem, 0x1000_0000, 0x1000_1000, rw);
    let c7 = ms.check_identity(mem, 0x1000_1000, 0x1000_9000, rw);
    let c8 = ms.check_identity(mem, 0x0c00_0000, 0x1000_0000, rw);
    proof {
        lemma_identity_mapped(l, *mem, ms.page_table.root_ppn.0 as int);
        if good {
            assert(range_identity(*mem, root, ranges@[0].0, ranges@[0].1, MapPerm { bits: ranges@[0].2 }));
            assert(range_identity(*mem, root, ranges@[1].0, ranges@[1].1, MapPerm { bits: ranges@[1].2 }));
            assert(range_identity(*mem, root, ranges@[2].0, ranges@[2].1, MapPerm { bits: ranges@[2].2 }));
            assert(range_identity(*mem, root, ranges@[3].0, ranges@[3].1, MapPerm { bits: ranges@[3].2 }));
            assert(range_identity(*mem, root, ranges@[4].0, ranges@[4].1, MapPerm { bits: ranges@[4].2 }));
            assert(range_identity(*mem, root, ranges@[5].0, ranges@[5].1, MapPerm { bits: ranges@[5].2 }));
            assert(range_identity(*mem, root, ranges@[6].0, ranges@[6].1, MapPerm { bits: ranges@[6].2 }));
            assert(range_identity(*mem, root, ranges@[7].0, ranges@[7].1, MapPerm { bits: ranges@[7].2 }));
            assert(range_identity(*mem, root, ranges@[8].0, ranges@[8].1, MapPerm { bits: ranges@[8].2 }));
        }
    }
    if !(c0 && c1 && c2 && c3 && c4 && c5 && c6 && c7 && c8) {
        return None;
    }
    Some(ms)
}

} // verus!
