//! Sv39 page tables kept in physical memory: three levels of 512 eight-byte entries.
use vstd::prelude::*;
use super::address::{PhysAddr, PhysPageNum, VirtAddr, VirtPageNum, PAGE_SIZE, vpn_index};
use super::frame::{frame_alloc, FrameTracker, StackFrameAllocator};
use super::phys::{PhysMem, lemma_le_word_zero, lemma_page_of, lemma_word_in_frame, lemma_word_unchanged, lemma_word_zero};

verus! {

/// Page table entry flag bits.
#[derive(Copy, Clone, Debug, PartialEq, Eq, Structural)]
pub struct PTEFlags {
    pub bits: u64,
}

pub const PTE_V: u64 = 1;
pub const PTE_R: u64 = 2;
pub const PTE_W: u64 = 4;
pub const PTE_X: u64 = 8;
pub const PTE_U: u64 = 16;
pub const PTE_G: u64 = 32;
pub const PTE_A: u64 = 64;
pub const PTE_D: u64 = 128;

impl PTEFlags {
    pub fn bits(&self) -> (r: u64)
        ensures r == self.bits,
    {
        self.bits
    }

    /// The flags among the eight defined ones that `bits` sets.
    pub fn from_bits_truncate(bits: u64) -> (r: Self)
        ensures r.bits == bits & 0xff,
    {
        PTEFlags { bits: bits & 0xff }
    }

    pub fn contains(&self, other: PTEFlags) -> (r: bool)
        ensures r == (self.bits & other.bits == other.bits),
    {
        self.bits & other.bits == other.bits
    }

    pub fn union(&self, other: PTEFlags) -> (r: PTEFlags)
        ensures r.bits == self.bits | other.bits,
    {
        PTEFlags { bits: self.bits | other.bits }
    }
}

/// The mask of the 44 physical page number bits.
pub const PPN_MASK: u64 = 0xfff_ffff_ffff;

pub open spec fn pte_valid(e: u64) -> bool {
    e & 1 == 1
}

pub open spec fn pte_ppn(e: u64) -> int {
    (((e >> 10u64) & 0xfff_ffff_ffff) as usize) as int
}

/// The bits of an entry that points to `ppn` with `flags`.
pub open spec fn pte_bits(ppn: usize, flags: u64) -> u64 {
    ((ppn as u64) << 10u64) | flags
}

proof fn lemma_pte_bits(ppn: u64, flags: u64)
    requires
        ppn <= 0xfff_ffff_ffff,
        flags < 1024,
    ensures
        (((ppn << 10u64) | flags) >> 10u64) & 0xfff_ffff_ffff == ppn,
        ((ppn << 10u64) | flags) & 1 == flags & 1,
        ((ppn << 10u64) | flags) & 0xff == flags & 0xff,
{
    assert((((ppn << 10u64) | flags) >> 10u64) & 0xfff_ffff_ffff == ppn) by (bit_vector)
        requires ppn <= 0xfff_ffff_ffff, flags < 1024;
    assert(((ppn << 10u64) | flags) & 1 == flags & 1) by (bit_vector);
    assert(((ppn << 10u64) | flags) & 0xff == flags & 0xff) by (bit_vector)
        requires flags < 1024;
}

proof fn lemma_zero_invalid()
    ensures !pte_valid(0u64),
{
    assert(0u64 & 1 == 0) by (bit_vector);
}

proof fn lemma_flag_bits(b: u64)
    ensures
        b & 0xff & 1 == b & 1,
        b & 0xff & 2 == b & 2,
        b & 0xff & 4 == b & 4,
        b & 0xff & 8 == b & 8,
{
    assert(b & 0xff & 1 == b & 1) by (bit_vector);
    assert(b & 0xff & 2 == b & 2) by (bit_vector);
    assert(b & 0xff & 4 == b & 4) by (bit_vector);
    assert(b & 0xff & 8 == b & 8) by (bit_vector);
}

#[derive(Copy, Clone, PartialEq, Eq, Structural)]
pub struct PageTableEntry {
    pub bits: u64,
}

impl PageTableEntry {
    pub fn new(ppn: PhysPageNum, flags: PTEFlags) -> (r: Self)
        ensures r.bits == pte_bits(ppn.0, flags.bits),
    {
        Self { bits: ((ppn.0 as u64) << 10u64) | flags.bits() }
    }

    pub fn empty() -> (r: Self)
        ensures r.bits == 0,
    {
        Self { bits: 0 }
    }

    pub fn ppn(&self) -> (r: PhysPageNum)
        ensures r.0 == pte_ppn(self.bits),
    {
        PhysPageNum(((self.bits >> 10u64) & PPN_MASK) as usize)
    }

    pub fn flags(&self) -> (r: PTEFlags)
        ensures r.bits == self.bits & 0xff,
    {
        PTEFlags::from_bits_truncate(self.bits)
    }

    pub fn is_valid(&self) -> (r: bool)
        ensures r == pte_valid(self.bits),
    {
        proof { lemma_flag_bits(self.bits); }
        self.flags().contains(PTEFlags { bits: PTE_V })
    }

    pub fn readable(&self) -> (r: bool)
        ensures r == (self.bits & 2 == 2),
    {
        proof { lemma_flag_bits(self.bits); }
        self.flags().contains(PTEFlags { bits: PTE_R })
    }

    pub fn writable(&self) -> (r: bool)
        ensures r == (self.bits & 4 == 4),
    {
        proof { lemma_flag_bits(self.bits); }
        self.flags().contains(PTEFlags { bits: PTE_W })
    }

    pub fn executable(&self) -> (r: bool)
        ensures r == (self.bits & 8 == 8),
    {
        proof { lemma_flag_bits(self.bits); }
        self.flags().contains(PTEFlags { bits: PTE_X })
    }
}

/// The physical address of entry `idx` of the table in frame `table`.
pub open spec fn slot(table: int, idx: int) -> int {
    table * PAGE_SIZE + idx * 8
}

/// The physical address of the leaf entry for `vpn` in the table rooted at `root`,
/// when both upper levels hold valid entries that point into physical memory.
pub open spec fn leaf_slot(mem: PhysMem, root: int, vpn: int) -> Option<int> {
    if !mem.frame_valid(root) {
        None
    } else {
        let e0 = mem.word(slot(root, vpn_index(vpn, 0)));
        if !pte_valid(e0) || !mem.frame_valid(pte_ppn(e0)) {
            None
        } else {
            let e1 = mem.word(slot(pte_ppn(e0), vpn_index(vpn, 1)));
            if !pte_valid(e1) || !mem.frame_valid(pte_ppn(e1)) {
                None
            } else {
                Some(slot(pte_ppn(e1), vpn_index(vpn, 2)))
            }
        }
    }
}

/// The valid leaf entry that maps `vpn`, if there is one.
pub open spec fn lookup(mem: PhysMem, root: int, vpn: int) -> Option<u64> {
    match leaf_slot(mem, root, vpn) {
        Some(a) => if pte_valid(mem.word(a)) { Some(mem.word(a)) } else { None },
        None => None,
    }
}

/// The frames that the walk for `vpn` reads: the root, then each table that a valid
/// entry on the way points to.
pub open spec fn path_frames_ok(mem: PhysMem, fa: StackFrameAllocator, root: int, vpn: int) -> bool {
    let e0 = mem.word(slot(root, vpn_index(vpn, 0)));
    let t1 = pte_ppn(e0);
    let e1 = mem.word(slot(t1, vpn_index(vpn, 1)));
    let t2 = pte_ppn(e1);
    &&& mem.frame_valid(root)
    &&& !fa.is_free(root)
    &&& pte_valid(e0) ==> {
        &&& mem.frame_valid(t1) && !fa.is_free(t1) && t1 != root
        &&& pte_valid(e1) ==> mem.frame_valid(t2) && !fa.is_free(t2) && t2 != root && t2 != t1
    }
}

/// The number of tables a walk for `vpn` has to create.
pub open spec fn tables_missing(mem: PhysMem, root: int, vpn: int) -> int {
    let e0 = mem.word(slot(root, vpn_index(vpn, 0)));
    let e1 = mem.word(slot(pte_ppn(e0), vpn_index(vpn, 1)));
    if !pte_valid(e0) { 2 } else if !pte_valid(e1) { 1 } else { 0 }
}

/// The frame the allocator hands out next: the last one given back, else the first of its
/// range.
pub open spec fn next_frame(fa: StackFrameAllocator) -> int {
    if fa.recycled@.len() > 0 { fa.recycled@.last() as int } else { fa.current as int }
}

/// The number of frames the allocator can still hand out.
pub open spec fn free_count(fa: StackFrameAllocator) -> int {
    fa.recycled@.len() + (fa.end - fa.current)
}

/// A frame the allocator handed out between two states.
pub open spec fn taken(fa0: StackFrameAllocator, fa1: StackFrameAllocator, ppn: int) -> bool {
    fa0.is_free(ppn) && !fa1.is_free(ppn)
}

pub open spec fn alloc_ok(fa: StackFrameAllocator, mem: PhysMem) -> bool {
    &&& fa.wf()
    &&& mem.wf()
    &&& forall|p: int| #[trigger] fa.is_free(p) ==> mem.frame_valid(p)
}

proof fn lemma_slot_in_frame(mem: PhysMem, t: int, idx: int)
    requires
        mem.frame_valid(t),
        0 <= idx < 512,
    ensures
        mem.in_range(slot(t, idx), 8),
        t * PAGE_SIZE <= slot(t, idx),
        slot(t, idx) + 8 <= t * PAGE_SIZE + PAGE_SIZE,
{
}

proof fn lemma_free_count(fa: StackFrameAllocator)
    requires fa.wf(),
    ensures free_count(fa) > 0 ==> (fa.recycled@.len() > 0 || fa.current < fa.end),
{
}

pub struct PageTable {
    pub root_ppn: PhysPageNum,
    pub frames: Vec<FrameTracker>,
}

impl PageTable {
    /// A page table with an empty root table in a fresh frame.
    pub fn new(fa: &mut StackFrameAllocator, mem: &mut PhysMem) -> (pt: Self)
        requires
            alloc_ok(*old(fa), *old(mem)),
            free_count(*old(fa)) > 0,
        ensures
            alloc_ok(*final(fa), *final(mem)),
            final(mem).base_ppn == old(mem).base_ppn,
            final(mem).bytes.len() == old(mem).bytes.len(),
            taken(*old(fa), *final(fa), pt.root_ppn.0 as int),
            pt.root_ppn.0 == next_frame(*old(fa)),
            forall|q: int| #[trigger] final(fa).is_free(q) <==> old(fa).is_free(q) && q != pt.root_ppn.0,
            pt.frames@.len() == 1 && pt.frames@[0].ppn == pt.root_ppn,
            forall|vpn: int| #[trigger] lookup(*final(mem), pt.root_ppn.0 as int, vpn).is_none(),
            forall|a: int| old(mem).in_range(a, 1) && !taken(*old(fa), *final(fa), a / PAGE_SIZE as int)
                ==> #[trigger] final(mem).byte(a) == old(mem).byte(a),
            pt_inv(*final(mem), *final(fa), pt.root_ppn.0 as int),
            free_count(*final(fa)) == free_count(*old(fa)) - 1,
    {
        proof { lemma_free_count(*fa); }
        let f = frame_alloc(fa, mem);
        let f = f.unwrap();
        let root = f.ppn;
        let mut frames: Vec<FrameTracker> = Vec::new();
        frames.push(f);
        proof {
            lemma_zero_invalid();
            assert forall|vpn: int| #[trigger] lookup(*mem, root.0 as int, vpn).is_none() by {
                let i0 = vpn_index(vpn, 0);
                assert(0 <= i0 < 512) by {
                    vstd::arithmetic::div_mod::lemma_mod_bound(vpn / (512 * 512int), 512);
                }
                lemma_slot_in_frame(*mem, root.0 as int, i0);
                let a0 = slot(root.0 as int, i0);
                assert(mem.byte(a0) == 0 && mem.byte(a0 + 1) == 0 && mem.byte(a0 + 2) == 0 && mem.byte(a0 + 3) == 0);
                assert(mem.byte(a0 + 4) == 0 && mem.byte(a0 + 5) == 0 && mem.byte(a0 + 6) == 0 && mem.byte(a0 + 7) == 0);
                lemma_le_word_zero();
            }
            assert forall|a: int| old(mem).in_range(a, 1) && !taken(*old(fa), *fa, a / PAGE_SIZE as int)
                implies #[trigger] mem.byte(a) == old(mem).byte(a) by {
                lemma_page_of(a, root.0 as int);
            }
            let r = root.0 as int;
            assert forall|i: int| 0 <= i < 512 implies !#[trigger] has1(*mem, r, i) by {
                lemma_slot_eq(r, i, r + 1, 0);
                lemma_zero_slot(*mem, r, i, slot(r + 1, 0));
            }
        }
        PageTable { root_ppn: root, frames }
    }

    /// A handle for walking the table that a satp value points to; it owns no frames.
    pub fn from_token(satp: u64) -> (pt: Self)
        ensures
            pt.root_ppn.0 == (satp % 0x1000_0000_0000) as usize,
            pt.frames@.len() == 0,
    {
        proof { assert(satp & 0xfff_ffff_ffff == satp % 0x1000_0000_0000) by (bit_vector); }
        Self { root_ppn: PhysPageNum((satp & PPN_MASK) as usize), frames: Vec::new() }
    }

    /// The satp value for this table: mode Sv39 (8), ASID 0.
    pub fn token(&self) -> (t: u64)
        requires self.root_ppn.0 < 0x1000_0000_0000,
        ensures t == 0x8000_0000_0000_0000u64 + self.root_ppn.0,
    {
        let r = self.root_ppn.0 as u64;
        proof {
            assert(r < 0x1000_0000_0000 ==> 8u64 << 60u64 | r == 0x8000_0000_0000_0000u64 + r) by (bit_vector);
        }
        8u64 << 60u64 | r
    }

    /// Follows the entry in `slot_pa`, creating the next table when the entry is not valid.
    fn next_table_create(&mut self, fa: &mut StackFrameAllocator, mem: &mut PhysMem, slot_pa: usize) -> (r: Option<PhysPageNum>)
        requires
            alloc_ok(*old(fa), *old(mem)),
            old(mem).in_range(slot_pa as int, 8),
            slot_pa % 8 == 0,
            !old(fa).is_free(slot_pa as int / PAGE_SIZE as int),
            pte_valid(old(mem).word(slot_pa as int)) ==> {
                let t = pte_ppn(old(mem).word(slot_pa as int));
                old(mem).frame_valid(t) && !old(fa).is_free(t)
            },
        ensures
            alloc_ok(*final(fa), *final(mem)),
            final(mem).base_ppn == old(mem).base_ppn,
            final(mem).bytes.len() == old(mem).bytes.len(),
            forall|q: int| #[trigger] final(fa).is_free(q) ==> old(fa).is_free(q),
            forall|a: int| old(mem).in_range(a, 1) && !(slot_pa <= a < slot_pa + 8) && !taken(*old(fa), *final(fa), a / PAGE_SIZE as int)
                ==> #[trigger] final(mem).byte(a) == old(mem).byte(a),
            pte_valid(old(mem).word(slot_pa as int)) ==> {
                &&& r == Some(PhysPageNum(pte_ppn(old(mem).word(slot_pa as int)) as usize))
                &&& final(mem).bytes@ == old(mem).bytes@
                &&& forall|q: int| #[trigger] final(fa).is_free(q) == old(fa).is_free(q)
                &&& free_count(*final(fa)) == free_count(*old(fa))
            },
            !pte_valid(old(mem).word(slot_pa as int)) ==> {
                &&& (r.is_none() <==> free_count(*old(fa)) == 0)
                &&& r.is_none() ==> final(mem).bytes@ == old(mem).bytes@
                    && forall|q: int| #[trigger] final(fa).is_free(q) == old(fa).is_free(q)
                &&& r matches Some(p) ==> {
                    &&& taken(*old(fa), *final(fa), p.0 as int)
                    &&& forall|q: int| #[trigger] final(fa).is_free(q) <==> old(fa).is_free(q) && q != p.0
                    &&& free_count(*final(fa)) == free_count(*old(fa)) - 1
                    &&& forall|a: int| p.0 * PAGE_SIZE <= a < p.0 * PAGE_SIZE + PAGE_SIZE ==> #[trigger] final(mem).byte(a) == 0
                }
            },
            r matches Some(p) ==> {
                &&& pte_valid(final(mem).word(slot_pa as int))
                &&& pte_ppn(final(mem).word(slot_pa as int)) == p.0
                &&& final(mem).frame_valid(p.0 as int)
                &&& !final(fa).is_free(p.0 as int)
            },
            final(self).root_ppn == old(self).root_ppn,
    {
        let e = PageTableEntry { bits: mem.read_word(slot_pa) };
        if e.is_valid() {
            return Some(e.ppn());
        }
        proof { lemma_free_count(*fa); }
        let f = match frame_alloc(fa, mem) {
            Some(f) => f,
            None => return None,
        };
        let p = f.ppn;
        proof {
            assert(p.0 <= 0xfff_ffff_ffff);
            lemma_pte_bits(p.0 as u64, 1);
            assert(1u64 & 1 == 1) by (bit_vector);
        }
        let ghost m1 = *mem;
        mem.write_word(slot_pa, PageTableEntry::new(p, PTEFlags { bits: PTE_V }).bits);
        self.frames.push(f);
        proof {
            assert forall|a: int| p.0 * PAGE_SIZE <= a < p.0 * PAGE_SIZE + PAGE_SIZE implies #[trigger] mem.byte(a) == 0 by {
                assert(!(slot_pa <= a < slot_pa + 8)) by {
                    lemma_page_of(a, p.0 as int);
                    if slot_pa <= a < slot_pa + 8 {
                        lemma_word_in_frame(slot_pa as int, a);
                    }
                }
                assert(m1.byte(a) == 0);
            }
        }
        Some(p)
    }
}

/// The entry of the root table for top index `i`, and the table it points to.
pub open spec fn has1(mem: PhysMem, root: int, i: int) -> bool {
    pte_valid(mem.word(slot(root, i)))
}

pub open spec fn t1_of(mem: PhysMem, root: int, i: int) -> int {
    pte_ppn(mem.word(slot(root, i)))
}

/// The entry of the middle table for indices `i`, `j`, and the leaf table it points to.
pub open spec fn has2(mem: PhysMem, root: int, i: int, j: int) -> bool {
    has1(mem, root, i) && pte_valid(mem.word(slot(t1_of(mem, root, i), j)))
}

pub open spec fn t2_of(mem: PhysMem, root: int, i: int, j: int) -> int {
    pte_ppn(mem.word(slot(t1_of(mem, root, i), j)))
}

/// The walk for `w` reads the entry at `a`: its root slot, or the slot of a table that a
/// valid entry on the way points to.
pub open spec fn walk_reads(mem: PhysMem, root: int, w: int, a: int) -> bool {
    let s0 = slot(root, vpn_index(w, 0));
    let e0 = mem.word(s0);
    let s1 = slot(pte_ppn(e0), vpn_index(w, 1));
    let e1 = mem.word(s1);
    ||| a == s0
    ||| pte_valid(e0) && a == s1
    ||| pte_valid(e0) && pte_valid(e1) && a == slot(pte_ppn(e1), vpn_index(w, 2))
}

/// The walk for `w` in `mw` reads none of the three entries of the walk for `v` in `mv`.
pub open spec fn walks_apart(mw: PhysMem, mv: PhysMem, root: int, w: int, v: int) -> bool {
    let s0 = slot(root, vpn_index(v, 0));
    let s1 = slot(pte_ppn(mv.word(s0)), vpn_index(v, 1));
    let s2 = slot(pte_ppn(mv.word(s1)), vpn_index(v, 2));
    !walk_reads(mw, root, w, s0) && !walk_reads(mw, root, w, s1) && !walk_reads(mw, root, w, s2)
}

/// Two different 8-aligned addresses are 8 bytes apart at least.
proof fn lemma_aligned_apart(s: int, a: int, k: int)
    requires s % 8 == 0, a % 8 == 0, s != a, 0 <= k < 8,
    ensures !(a <= s + k < a + 8),
{
    assert(!(a <= s + k < a + 8)) by (nonlinear_arith)
        requires s % 8 == 0, a % 8 == 0, s != a, 0 <= k < 8;
}

/// The word at slot `s` of a table is kept when the bytes that changed lie in three other
/// slots or in frames `kept` says nothing of.
proof fn lemma_slot_kept(m0: PhysMem, m1: PhysMem, fa0: StackFrameAllocator, fa1: StackFrameAllocator, t: int, idx: int, a0: int, a1: int, a2: int)
    requires
        m0.wf(),
        m0.frame_valid(t),
        0 <= idx < 512,
        !taken(fa0, fa1, t),
        a0 % 8 == 0, a1 % 8 == 0, a2 % 8 == 0,
        slot(t, idx) != a0, slot(t, idx) != a1, slot(t, idx) != a2,
        forall|b: int| m0.in_range(b, 1) && !(a0 <= b < a0 + 8) && !(a1 <= b < a1 + 8) && !(a2 <= b < a2 + 8)
            && !taken(fa0, fa1, b / PAGE_SIZE as int) ==> #[trigger] m1.byte(b) == m0.byte(b),
    ensures m1.word(slot(t, idx)) == m0.word(slot(t, idx)),
{
    lemma_slot_facts(m0, t, idx);
    let s = slot(t, idx);
    assert forall|k: int| 0 <= k < 8 implies #[trigger] m1.byte(s + k) == m0.byte(s + k) by {
        lemma_aligned_apart(s, a0, k);
        lemma_aligned_apart(s, a1, k);
        lemma_aligned_apart(s, a2, k);
        assert((s + k) / PAGE_SIZE as int == t);
    }
    lemma_word_unchanged(m0, m1, s);
}

/// A page whose walk reads none of three changed slots and whose tables were not handed out
/// in between maps as before.
proof fn lemma_walk_kept(m0: PhysMem, m1: PhysMem, fa0: StackFrameAllocator, fa1: StackFrameAllocator, root: int, w: int, a0: int, a1: int, a2: int)
    requires
        m0.wf(),
        m1.base_ppn == m0.base_ppn,
        m1.bytes.len() == m0.bytes.len(),
        w >= 0,
        a0 % 8 == 0, a1 % 8 == 0, a2 % 8 == 0,
        forall|b: int| m0.in_range(b, 1) && !(a0 <= b < a0 + 8) && !(a1 <= b < a1 + 8) && !(a2 <= b < a2 + 8)
            && !taken(fa0, fa1, b / PAGE_SIZE as int) ==> #[trigger] m1.byte(b) == m0.byte(b),
        !walk_reads(m0, root, w, a0), !walk_reads(m0, root, w, a1), !walk_reads(m0, root, w, a2),
        !taken(fa0, fa1, root),
        pte_valid(m0.word(slot(root, vpn_index(w, 0)))) ==> !taken(fa0, fa1, pte_ppn(m0.word(slot(root, vpn_index(w, 0))))),
        pte_valid(m0.word(slot(root, vpn_index(w, 0)))) && pte_valid(m0.word(slot(pte_ppn(m0.word(slot(root, vpn_index(w, 0)))), vpn_index(w, 1))))
            ==> !taken(fa0, fa1, pte_ppn(m0.word(slot(pte_ppn(m0.word(slot(root, vpn_index(w, 0)))), vpn_index(w, 1))))),
    ensures lookup(m1, root, w) == lookup(m0, root, w),
{
    lemma_index_bound(w, 0);
    lemma_index_bound(w, 1);
    lemma_index_bound(w, 2);
    if m0.frame_valid(root) {
        let i0 = vpn_index(w, 0);
        lemma_slot_kept(m0, m1, fa0, fa1, root, i0, a0, a1, a2);
        let e0 = m0.word(slot(root, i0));
        let t1 = pte_ppn(e0);
        if pte_valid(e0) && m0.frame_valid(t1) {
            let i1 = vpn_index(w, 1);
            lemma_slot_kept(m0, m1, fa0, fa1, t1, i1, a0, a1, a2);
            let e1 = m0.word(slot(t1, i1));
            let t2 = pte_ppn(e1);
            if pte_valid(e1) && m0.frame_valid(t2) {
                lemma_slot_kept(m0, m1, fa0, fa1, t2, vpn_index(w, 2), a0, a1, a2);
            }
        }
    }
}

/// What creating the walk for `v` did: each upper entry that was valid is kept, and each
/// that was not now points to a frame handed out in between, zeroed but for the entry the
/// walk set in it; no other frame was handed out.
pub open spec fn created(m0: PhysMem, m1: PhysMem, fa0: StackFrameAllocator, fa1: StackFrameAllocator, root: int, v: int) -> bool {
    let i0 = vpn_index(v, 0);
    let i1 = vpn_index(v, 1);
    let s0 = slot(root, i0);
    let t1 = t1_of(m1, root, i0);
    let s1 = slot(t1, i1);
    let t2 = t2_of(m1, root, i0, i1);
    &&& has2(m1, root, i0, i1)
    &&& m1.frame_valid(t1) && m1.frame_valid(t2)
    &&& has1(m0, root, i0) ==> m1.word(s0) == m0.word(s0)
    &&& !has1(m0, root, i0) ==> taken(fa0, fa1, t1)
        && forall|b: int| t1 * PAGE_SIZE <= b < t1 * PAGE_SIZE + PAGE_SIZE && !(s1 <= b < s1 + 8) ==> #[trigger] m1.byte(b) == 0
    &&& has2(m0, root, i0, i1) ==> m1.word(s1) == m0.word(s1)
    &&& !has2(m0, root, i0, i1) ==> taken(fa0, fa1, t2)
        && forall|b: int| t2 * PAGE_SIZE <= b < t2 * PAGE_SIZE + PAGE_SIZE ==> #[trigger] m1.byte(b) == 0
    &&& forall|p: int| #[trigger] taken(fa0, fa1, p) ==> (p == t1 && !has1(m0, root, i0)) || (p == t2 && !has2(m0, root, i0, i1))
}

/// The table rooted at `root` is a tree: its tables are frames of memory that the
/// allocator does not hand out, and no table is used twice, in two places or at two levels.
pub closed spec fn pt_inv(mem: PhysMem, fa: StackFrameAllocator, root: int) -> bool {
    &&& mem.frame_valid(root) && !fa.is_free(root)
    &&& forall|i: int| 0 <= i < 512 && #[trigger] has1(mem, root, i) ==>
        mem.frame_valid(t1_of(mem, root, i)) && !fa.is_free(t1_of(mem, root, i)) && t1_of(mem, root, i) != root
    &&& forall|i: int, j: int| 0 <= i < 512 && 0 <= j < 512 && #[trigger] has2(mem, root, i, j) ==>
        mem.frame_valid(t2_of(mem, root, i, j)) && !fa.is_free(t2_of(mem, root, i, j)) && t2_of(mem, root, i, j) != root
    &&& forall|i: int, k: int| 0 <= i < 512 && 0 <= k < 512 && #[trigger] has1(mem, root, i) && #[trigger] has1(mem, root, k)
        && t1_of(mem, root, i) == t1_of(mem, root, k) ==> i == k
    &&& forall|i: int, j: int, k: int| 0 <= i < 512 && 0 <= j < 512 && 0 <= k < 512
        && #[trigger] has2(mem, root, i, j) && #[trigger] has1(mem, root, k) ==> t2_of(mem, root, i, j) != t1_of(mem, root, k)
    &&& forall|i: int, j: int, k: int, l: int| 0 <= i < 512 && 0 <= j < 512 && 0 <= k < 512 && 0 <= l < 512
        && #[trigger] has2(mem, root, i, j) && #[trigger] has2(mem, root, k, l)
        && t2_of(mem, root, i, j) == t2_of(mem, root, k, l) ==> i == k && j == l
}

/// Two slots of tables are the same address only for the same table and index.
proof fn lemma_slot_eq(t: int, i: int, u: int, j: int)
    requires t >= 0, u >= 0, 0 <= i < 512, 0 <= j < 512,
    ensures slot(t, i) == slot(u, j) <==> t == u && i == j,
{
    assert(slot(t, i) == slot(u, j) ==> t == u && i == j) by (nonlinear_arith)
        requires t >= 0, u >= 0, 0 <= i < 512, 0 <= j < 512;
}

/// Pages `w` and `v` have the same three table indices (the same entry in the same leaf
/// table, for any table).
pub open spec fn same_path(w: int, v: int) -> bool {
    vpn_index(w, 0) == vpn_index(v, 0) && vpn_index(w, 1) == vpn_index(v, 1) && vpn_index(w, 2) == vpn_index(v, 2)
}

/// An entry at slot `j` of a zeroed table (but for the slot at `keep`) is not valid.
proof fn lemma_zero_slot(m: PhysMem, t: int, j: int, keep: int)
    requires
        m.wf(), m.frame_valid(t), 0 <= j < 512, keep % 8 == 0, slot(t, j) != keep,
        forall|b: int| t * PAGE_SIZE <= b < t * PAGE_SIZE + PAGE_SIZE && !(keep <= b < keep + 8) ==> #[trigger] m.byte(b) == 0,
    ensures !pte_valid(m.word(slot(t, j))),
{
    lemma_slot_facts(m, t, j);
    let s = slot(t, j);
    assert forall|k: int| 0 <= k < 8 implies #[trigger] m.byte(s + k) == 0 by {
        lemma_aligned_apart(s, keep, k);
        lemma_page_of(s + k, t);
    }
    lemma_word_zero(m, s);
    lemma_zero_invalid();
}

/// How the upper entries after creating the walk for `v` (in `m1`) stand to those before
/// (in `m0`): the same, but for the walk's own two entries, which are kept where they were
/// valid and otherwise point to frames handed out in between; the tables that were there
/// were not handed out.
pub open spec fn entries_rel(m0: PhysMem, m1: PhysMem, fa0: StackFrameAllocator, fa1: StackFrameAllocator, root: int, v: int) -> bool {
    let i0 = vpn_index(v, 0);
    let i1 = vpn_index(v, 1);
    let t1f = t1_of(m1, root, i0);
    let t2f = t2_of(m1, root, i0, i1);
    &&& forall|i: int| 0 <= i < 512 && i != i0 ==>
        (#[trigger] has1(m1, root, i)) == has1(m0, root, i) && t1_of(m1, root, i) == t1_of(m0, root, i)
    &&& has1(m1, root, i0)
    &&& has1(m0, root, i0) ==> t1f == t1_of(m0, root, i0)
    &&& !has1(m0, root, i0) ==> taken(fa0, fa1, t1f)
    &&& forall|i: int, j: int| 0 <= i < 512 && 0 <= j < 512 && !(i == i0 && j == i1) ==>
        (#[trigger] has2(m1, root, i, j)) == has2(m0, root, i, j)
        && (has2(m0, root, i, j) ==> t2_of(m1, root, i, j) == t2_of(m0, root, i, j))
    &&& has2(m1, root, i0, i1)
    &&& has2(m0, root, i0, i1) ==> t2f == t2_of(m0, root, i0, i1)
    &&& !has2(m0, root, i0, i1) ==> taken(fa0, fa1, t2f)
    &&& forall|i: int| 0 <= i < 512 && #[trigger] has1(m0, root, i) ==> !taken(fa0, fa1, t1_of(m0, root, i))
    &&& forall|i: int, j: int| 0 <= i < 512 && 0 <= j < 512 && #[trigger] has2(m0, root, i, j)
        ==> !taken(fa0, fa1, t2_of(m0, root, i, j))
    &&& !taken(fa0, fa1, root)
}

/// The upper entries after creating the walk for `v`, as `entries_rel` says.
proof fn lemma_create_facts(m0: PhysMem, m1: PhysMem, fa0: StackFrameAllocator, fa1: StackFrameAllocator, root: int, v: int)
    requires
        m0.wf(), m1.wf(), m1.base_ppn == m0.base_ppn, m1.bytes.len() == m0.bytes.len(),
        v >= 0,
        pt_inv(m0, fa0, root),
        forall|q: int| #[trigger] fa1.is_free(q) ==> fa0.is_free(q),
        created(m0, m1, fa0, fa1, root, v),
        kept_outside(m0, m1, fa0, fa1, slot(root, vpn_index(v, 0)), slot(t1_of(m1, root, vpn_index(v, 0)), vpn_index(v, 1))),
        walk_distinct(m1, root, v),
    ensures entries_rel(m0, m1, fa0, fa1, root, v),
{
    let i0 = vpn_index(v, 0);
    let i1 = vpn_index(v, 1);
    lemma_index_bound(v, 0);
    lemma_index_bound(v, 1);
    lemma_index_bound(v, 2);
    let s0 = slot(root, i0);
    let t1f = t1_of(m1, root, i0);
    let s1 = slot(t1f, i1);
    let t2f = t2_of(m1, root, i0, i1);
    lemma_slot_facts(m0, root, i0);
    lemma_slot_facts(m1, t1f, i1);
    assert(!taken(fa0, fa1, root));
    assert(t1f != root);
    // the root's other entries are kept
    assert forall|i: int| 0 <= i < 512 && i != i0 implies #[trigger] m1.word(slot(root, i)) == m0.word(slot(root, i)) by {
        lemma_slot_eq(root, i, root, i0);
        lemma_slot_eq(root, i, t1f, i1);
        lemma_slot_kept(m0, m1, fa0, fa1, root, i, s0, s1, s1);
    }
    // the middle tables that were there are kept, but for the entry the walk set
    assert forall|i: int, j: int| 0 <= i < 512 && 0 <= j < 512 && has1(m0, root, i) && !(i == i0 && j == i1)
        implies #[trigger] m1.word(slot(t1_of(m0, root, i), j)) == m0.word(slot(t1_of(m0, root, i), j)) by {
        let t = t1_of(m0, root, i);
        lemma_slot_eq(t, j, root, i0);
        if i != i0 {
            if has1(m0, root, i0) {
                assert(t1f == t1_of(m0, root, i0));
            }
            assert(t != t1f);
        }
        lemma_slot_eq(t, j, t1f, i1);
        lemma_slot_kept(m0, m1, fa0, fa1, t, j, s0, s1, s1);
    }
    if !has1(m0, root, i0) {
        assert forall|j: int| 0 <= j < 512 && j != i1 implies !#[trigger] has2(m1, root, i0, j) by {
            lemma_slot_eq(t1f, j, t1f, i1);
            lemma_zero_slot(m1, t1f, j, s1);
        }
    }
    // how the entries of the new state stand to the old ones
    assert forall|i: int| 0 <= i < 512 && i != i0 implies
        (#[trigger] has1(m1, root, i)) == has1(m0, root, i) && t1_of(m1, root, i) == t1_of(m0, root, i) by {
        assert(m1.word(slot(root, i)) == m0.word(slot(root, i)));
    }
    assert(has1(m0, root, i0) ==> t1f == t1_of(m0, root, i0));
    assert forall|i: int, j: int| 0 <= i < 512 && 0 <= j < 512 && !(i == i0 && j == i1) implies
        (#[trigger] has2(m1, root, i, j)) == has2(m0, root, i, j)
        && (has2(m0, root, i, j) ==> t2_of(m1, root, i, j) == t2_of(m0, root, i, j)) by {
        if i != i0 {
            assert(m1.word(slot(root, i)) == m0.word(slot(root, i)));
            if has1(m0, root, i) {
                assert(m1.word(slot(t1_of(m0, root, i), j)) == m0.word(slot(t1_of(m0, root, i), j)));
            }
        } else if has1(m0, root, i0) {
            assert(m1.word(slot(t1_of(m0, root, i), j)) == m0.word(slot(t1_of(m0, root, i), j)));
        }
    }
    assert(has2(m0, root, i0, i1) ==> t2f == t2_of(m0, root, i0, i1));
    // the tables that were there are not among the frames handed out
    assert forall|i: int| 0 <= i < 512 && #[trigger] has1(m0, root, i) implies !taken(fa0, fa1, t1_of(m0, root, i)) by {}
    assert forall|i: int, j: int| 0 <= i < 512 && 0 <= j < 512 && #[trigger] has2(m0, root, i, j)
        implies !taken(fa0, fa1, t2_of(m0, root, i, j)) by {}
}

/// Creating the walk for `v` keeps the table a tree.
proof fn lemma_create_inv(m0: PhysMem, m1: PhysMem, fa0: StackFrameAllocator, fa1: StackFrameAllocator, root: int, v: int)
    requires
        m1.base_ppn == m0.base_ppn, m1.bytes.len() == m0.bytes.len(),
        v >= 0,
        pt_inv(m0, fa0, root),
        forall|q: int| #[trigger] fa1.is_free(q) ==> fa0.is_free(q),
        entries_rel(m0, m1, fa0, fa1, root, v),
        created(m0, m1, fa0, fa1, root, v),
        walk_distinct(m1, root, v),
    ensures pt_inv(m1, fa1, root),
{
    lemma_index_bound(v, 0);
    lemma_index_bound(v, 1);
}

/// Creating the walk for `v` keeps the mapping of page `w`, whose path differs.
#[verifier::spinoff_prover]
proof fn lemma_create_kept(m0: PhysMem, m1: PhysMem, fa0: StackFrameAllocator, fa1: StackFrameAllocator, root: int, v: int, w: int)
    requires
        m0.wf(), m1.wf(), m1.base_ppn == m0.base_ppn, m1.bytes.len() == m0.bytes.len(),
        v >= 0, w >= 0, !same_path(w, v),
        pt_inv(m0, fa0, root),
        entries_rel(m0, m1, fa0, fa1, root, v),
        created(m0, m1, fa0, fa1, root, v),
        kept_outside(m0, m1, fa0, fa1, slot(root, vpn_index(v, 0)), slot(t1_of(m1, root, vpn_index(v, 0)), vpn_index(v, 1))),
        walk_distinct(m1, root, v),
    ensures lookup(m1, root, w) == lookup(m0, root, w),
{
    let i0 = vpn_index(v, 0);
    let i1 = vpn_index(v, 1);
    lemma_index_bound(v, 0);
    lemma_index_bound(v, 1);
    lemma_index_bound(v, 2);
    let s0 = slot(root, i0);
    let t1f = t1_of(m1, root, i0);
    let s1 = slot(t1f, i1);
    let t2f = t2_of(m1, root, i0, i1);
    lemma_slot_facts(m0, root, i0);
    lemma_slot_facts(m1, t1f, i1);
    let w0 = vpn_index(w, 0);
    let w1 = vpn_index(w, 1);
    let w2 = vpn_index(w, 2);
    lemma_index_bound(w, 0);
    lemma_index_bound(w, 1);
    lemma_index_bound(w, 2);
    assert(has1(m1, root, w0) == has1(m0, root, w0) || w0 == i0);
    assert(has2(m1, root, w0, w1) == has2(m0, root, w0, w1) || (w0 == i0 && w1 == i1));
    if has2(m0, root, w0, w1) && !(w0 == i0 && w1 == i1) {
        let t = t2_of(m0, root, w0, w1);
        assert(t2_of(m1, root, w0, w1) == t);
        assert(t1_of(m1, root, w0) == t1_of(m0, root, w0));
        lemma_slot_eq(t, w2, root, i0);
        lemma_slot_eq(t, w2, t1f, i1);
        lemma_slot_kept(m0, m1, fa0, fa1, t, w2, s0, s1, s1);
    } else if has2(m0, root, w0, w1) {
        lemma_slot_eq(t2f, w2, root, i0);
        lemma_slot_eq(t2f, w2, t1f, i1);
        lemma_slot_kept(m0, m1, fa0, fa1, t2f, w2, s0, s1, s1);
    } else if w0 == i0 && w1 == i1 {
        lemma_slot_eq(t2f, w2, t1f, i1);
        lemma_zero_slot(m1, t2f, w2, s1);
    }
}

/// Writing the leaf entry of `v` (at `a`) leaves the upper entries, and so the tree.
proof fn lemma_leaf_inv(m1: PhysMem, m2: PhysMem, fa: StackFrameAllocator, root: int, v: int, a: int)
    requires
        m1.wf(), m2.base_ppn == m1.base_ppn, m2.bytes.len() == m1.bytes.len(),
        v >= 0,
        pt_inv(m1, fa, root),
        has2(m1, root, vpn_index(v, 0), vpn_index(v, 1)),
        a == slot(t2_of(m1, root, vpn_index(v, 0), vpn_index(v, 1)), vpn_index(v, 2)),
        forall|b: int| m1.in_range(b, 1) && !(a <= b < a + 8) ==> #[trigger] m2.byte(b) == m1.byte(b),
    ensures
        pt_inv(m2, fa, root),
        forall|i: int| 0 <= i < 512 ==> #[trigger] m2.word(slot(root, i)) == m1.word(slot(root, i)),
        forall|i: int, j: int| 0 <= i < 512 && 0 <= j < 512 && has1(m1, root, i) ==>
            #[trigger] m2.word(slot(t1_of(m1, root, i), j)) == m1.word(slot(t1_of(m1, root, i), j)),
{
    let i0 = vpn_index(v, 0);
    let i1 = vpn_index(v, 1);
    lemma_index_bound(v, 0);
    lemma_index_bound(v, 1);
    lemma_index_bound(v, 2);
    let t2f = t2_of(m1, root, i0, i1);
    lemma_slot_facts(m1, t2f, vpn_index(v, 2));
    let fa0 = fa;
    assert forall|i: int| 0 <= i < 512 implies #[trigger] m2.word(slot(root, i)) == m1.word(slot(root, i)) by {
        lemma_slot_eq(root, i, t2f, vpn_index(v, 2));
        lemma_slot_kept(m1, m2, fa0, fa0, root, i, a, a, a);
    }
    assert forall|i: int, j: int| 0 <= i < 512 && 0 <= j < 512 && has1(m1, root, i) implies
        #[trigger] m2.word(slot(t1_of(m1, root, i), j)) == m1.word(slot(t1_of(m1, root, i), j)) by {
        let t = t1_of(m1, root, i);
        assert(t != t2f);
        lemma_slot_eq(t, j, t2f, vpn_index(v, 2));
        lemma_slot_kept(m1, m2, fa0, fa0, t, j, a, a, a);
    }
    assert forall|i: int| 0 <= i < 512 implies
        (#[trigger] has1(m2, root, i)) == has1(m1, root, i) && t1_of(m2, root, i) == t1_of(m1, root, i) by {
        assert(m2.word(slot(root, i)) == m1.word(slot(root, i)));
    }
    assert forall|i: int, j: int| 0 <= i < 512 && 0 <= j < 512 implies
        (#[trigger] has2(m2, root, i, j)) == has2(m1, root, i, j) && (has2(m1, root, i, j) ==> t2_of(m2, root, i, j) == t2_of(m1, root, i, j)) by {
        assert(m2.word(slot(root, i)) == m1.word(slot(root, i)));
        if has1(m1, root, i) {
            assert(m2.word(slot(t1_of(m1, root, i), j)) == m1.word(slot(t1_of(m1, root, i), j)));
        }
    }
}

/// Writing the leaf entry of `v` (at `a`) leaves the mapping of a page `w` whose path differs.
proof fn lemma_leaf_kept(m1: PhysMem, m2: PhysMem, fa: StackFrameAllocator, root: int, v: int, a: int, w: int)
    requires
        m1.wf(), m2.base_ppn == m1.base_ppn, m2.bytes.len() == m1.bytes.len(),
        v >= 0, w >= 0, !same_path(w, v),
        pt_inv(m1, fa, root),
        has2(m1, root, vpn_index(v, 0), vpn_index(v, 1)),
        a == slot(t2_of(m1, root, vpn_index(v, 0), vpn_index(v, 1)), vpn_index(v, 2)),
        forall|b: int| m1.in_range(b, 1) && !(a <= b < a + 8) ==> #[trigger] m2.byte(b) == m1.byte(b),
        forall|i: int| 0 <= i < 512 ==> #[trigger] m2.word(slot(root, i)) == m1.word(slot(root, i)),
        forall|i: int, j: int| 0 <= i < 512 && 0 <= j < 512 && has1(m1, root, i) ==>
            #[trigger] m2.word(slot(t1_of(m1, root, i), j)) == m1.word(slot(t1_of(m1, root, i), j)),
    ensures lookup(m2, root, w) == lookup(m1, root, w),
{
    let i0 = vpn_index(v, 0);
    let i1 = vpn_index(v, 1);
    lemma_index_bound(v, 0);
    lemma_index_bound(v, 1);
    lemma_index_bound(v, 2);
    lemma_index_bound(w, 0);
    lemma_index_bound(w, 1);
    lemma_index_bound(w, 2);
    let w0 = vpn_index(w, 0);
    let w1 = vpn_index(w, 1);
    let w2 = vpn_index(w, 2);
    let t2f = t2_of(m1, root, i0, i1);
    lemma_slot_facts(m1, t2f, vpn_index(v, 2));
    assert(m2.word(slot(root, w0)) == m1.word(slot(root, w0)));
    if has2(m1, root, w0, w1) {
        let t = t2_of(m1, root, w0, w1);
        assert(m2.word(slot(t1_of(m1, root, w0), w1)) == m1.word(slot(t1_of(m1, root, w0), w1)));
        lemma_slot_eq(t, w2, t2f, vpn_index(v, 2));
        lemma_slot_kept(m1, m2, fa, fa, t, w2, a, a, a);
    } else if has1(m1, root, w0) {
        assert(m2.word(slot(t1_of(m1, root, w0), w1)) == m1.word(slot(t1_of(m1, root, w0), w1)));
    }
}

/// Two different pages below 2^27 (the pages of a 39-bit address space) have different
/// paths.
pub proof fn lemma_paths_differ(w: int, v: int)
    requires 0 <= w < 0x800_0000, 0 <= v < 0x800_0000, w != v,
    ensures !same_path(w, v),
{
    assert(w == (w / (512 * 512int)) % 512 * (512 * 512int) + (w / 512) % 512 * 512 + w % 512) by (nonlinear_arith)
        requires 0 <= w < 0x800_0000;
    assert(v == (v / (512 * 512int)) % 512 * (512 * 512int) + (v / 512) % 512 * 512 + v % 512) by (nonlinear_arith)
        requires 0 <= v < 0x800_0000;
}

/// In a tree, the walk of every page reads tables the allocator keeps.
pub proof fn lemma_inv_path(mem: PhysMem, fa: StackFrameAllocator, root: int, w: int)
    requires pt_inv(mem, fa, root), w >= 0,
    ensures path_frames_ok(mem, fa, root, w),
{
    lemma_index_bound(w, 0);
    lemma_index_bound(w, 1);
    let i0 = vpn_index(w, 0);
    let i1 = vpn_index(w, 1);
    if has1(mem, root, i0) {
        assert(has1(mem, root, i0));
        if has2(mem, root, i0, i1) {
            assert(has2(mem, root, i0, i1));
        }
    }
}

/// Zeroing a frame the allocator hands out leaves the tree and every mapping.
pub proof fn lemma_fresh_frame_kept(m0: PhysMem, m1: PhysMem, fa0: StackFrameAllocator, fa1: StackFrameAllocator, root: int, p: int)
    requires
        m0.wf(), m1.base_ppn == m0.base_ppn, m1.bytes.len() == m0.bytes.len(),
        pt_inv(m0, fa0, root),
        fa0.is_free(p), p >= 0,
        forall|q: int| #[trigger] fa1.is_free(q) <==> fa0.is_free(q) && q != p,
        forall|a: int| m0.in_range(a, 1) && !(p * PAGE_SIZE <= a < p * PAGE_SIZE + PAGE_SIZE) ==> #[trigger] m1.byte(a) == m0.byte(a),
    ensures
        pt_inv(m1, fa1, root),
        forall|w: int| w >= 0 ==> #[trigger] lookup(m1, root, w) == lookup(m0, root, w),
{
    assert forall|b: int| m0.in_range(b, 1) && !(-8 <= b < -8 + 8) && !taken(fa0, fa1, b / PAGE_SIZE as int)
        implies #[trigger] m1.byte(b) == m0.byte(b) by {
        lemma_page_of(b, p);
    }
    assert forall|t: int, j: int| m0.frame_valid(t) && !taken(fa0, fa1, t) && 0 <= j < 512
        implies #[trigger] m1.word(slot(t, j)) == m0.word(slot(t, j)) by {
        lemma_slot_facts(m0, t, j);
        lemma_slot_kept(m0, m1, fa0, fa1, t, j, -8, -8, -8);
    }
    assert forall|i: int| 0 <= i < 512 implies
        (#[trigger] has1(m1, root, i)) == has1(m0, root, i) && t1_of(m1, root, i) == t1_of(m0, root, i) by {
        assert(m1.word(slot(root, i)) == m0.word(slot(root, i)));
    }
    assert forall|i: int, j: int| 0 <= i < 512 && 0 <= j < 512 implies
        (#[trigger] has2(m1, root, i, j)) == has2(m0, root, i, j) && (has2(m0, root, i, j) ==> t2_of(m1, root, i, j) == t2_of(m0, root, i, j)) by {
        assert(m1.word(slot(root, i)) == m0.word(slot(root, i)));
        if has1(m0, root, i) {
            assert(m1.word(slot(t1_of(m0, root, i), j)) == m0.word(slot(t1_of(m0, root, i), j)));
        }
    }
    assert forall|w: int| w >= 0 implies #[trigger] lookup(m1, root, w) == lookup(m0, root, w) by {
        lemma_index_bound(w, 0);
        lemma_index_bound(w, 1);
        lemma_index_bound(w, 2);
        let w0 = vpn_index(w, 0);
        let w1 = vpn_index(w, 1);
        assert(has1(m1, root, w0) == has1(m0, root, w0));
        assert(has2(m1, root, w0, w1) == has2(m0, root, w0, w1));
        if has2(m0, root, w0, w1) {
            assert(m1.word(slot(t2_of(m0, root, w0, w1), vpn_index(w, 2))) == m0.word(slot(t2_of(m0, root, w0, w1), vpn_index(w, 2))));
        }
    }
}

/// The same bytes and the same free frames keep a tree a tree.
pub proof fn lemma_inv_same(m0: PhysMem, m1: PhysMem, fa0: StackFrameAllocator, fa1: StackFrameAllocator, root: int)
    requires
        pt_inv(m0, fa0, root),
        m1.base_ppn == m0.base_ppn, m1.bytes@ == m0.bytes@,
        forall|q: int| #[trigger] fa1.is_free(q) == fa0.is_free(q),
    ensures
        pt_inv(m1, fa1, root),
        forall|w: int| #[trigger] lookup(m1, root, w) == lookup(m0, root, w),
{
    assert forall|a: int| #[trigger] m1.word(a) == m0.word(a) by {}
    assert forall|t: int| #[trigger] m1.frame_valid(t) == m0.frame_valid(t) by {}
    assert forall|i: int| #[trigger] has1(m1, root, i) == has1(m0, root, i) && t1_of(m1, root, i) == t1_of(m0, root, i) by {
        assert(m1.word(slot(root, i)) == m0.word(slot(root, i)));
    }
    assert forall|i: int, j: int| #[trigger] has2(m1, root, i, j) == has2(m0, root, i, j)
        && t2_of(m1, root, i, j) == t2_of(m0, root, i, j) by {
        assert(m1.word(slot(root, i)) == m0.word(slot(root, i)));
        assert(m1.word(slot(t1_of(m0, root, i), j)) == m0.word(slot(t1_of(m0, root, i), j)));
    }
}

/// In a tree, the walk of a mapped page passes three different tables.
pub proof fn lemma_inv_distinct(mem: PhysMem, fa: StackFrameAllocator, root: int, v: int)
    requires pt_inv(mem, fa, root), v >= 0, lookup(mem, root, v).is_some(),
    ensures walk_distinct(mem, root, v),
{
    lemma_index_bound(v, 0);
    lemma_index_bound(v, 1);
    let i0 = vpn_index(v, 0);
    let i1 = vpn_index(v, 1);
    assert(has1(mem, root, i0));
    assert(has2(mem, root, i0, i1));
}

/// The tables on the walk for `vpn` are three different frames.
pub open spec fn walk_distinct(mem: PhysMem, root: int, vpn: int) -> bool {
    let t1 = pte_ppn(mem.word(slot(root, vpn_index(vpn, 0))));
    let t2 = pte_ppn(mem.word(slot(t1, vpn_index(vpn, 1))));
    root != t1 && root != t2 && t1 != t2
}

/// Bytes outside the two upper slots of the walk and outside the frames taken are kept.
pub open spec fn kept_outside(m0: PhysMem, m1: PhysMem, fa0: StackFrameAllocator, fa1: StackFrameAllocator, s0: int, s1: int) -> bool {
    forall|a: int| m0.in_range(a, 1) && !(s0 <= a < s0 + 8) && !(s1 <= a < s1 + 8) && !taken(fa0, fa1, a / PAGE_SIZE as int)
        ==> #[trigger] m1.byte(a) == m0.byte(a)
}

proof fn lemma_index_bound(vpn: int, level: int)
    requires 0 <= vpn, 0 <= level < 3,
    ensures 0 <= vpn_index(vpn, level) < 512,
{
    vstd::arithmetic::div_mod::lemma_mod_bound(vpn / (512 * 512int), 512);
    vstd::arithmetic::div_mod::lemma_mod_bound(vpn / 512, 512);
    vstd::arithmetic::div_mod::lemma_mod_bound(vpn, 512);
}

proof fn lemma_slot_facts(mem: PhysMem, t: int, idx: int)
    requires
        mem.wf(),
        mem.frame_valid(t),
        0 <= idx < 512,
    ensures
        mem.in_range(slot(t, idx), 8),
        slot(t, idx) % 8 == 0,
        slot(t, idx) / PAGE_SIZE as int == t,
        forall|k: int| 0 <= k < 8 ==> (#[trigger] (slot(t, idx) + k)) / PAGE_SIZE as int == t,
{
    assert(slot(t, idx) % 8 == 0) by (nonlinear_arith) requires t >= 0, 0 <= idx < 512;
    assert forall|k: int| 0 <= k < 8 implies (#[trigger] (slot(t, idx) + k)) / PAGE_SIZE as int == t by {
        lemma_page_of(slot(t, idx) + k, t);
    }
    lemma_page_of(slot(t, idx), t);
}

impl PageTable {
    /// The physical address of the leaf entry for `vpn`, creating missing tables;
    /// `None` when a table is needed and no frame is left.
    pub fn find_pte_create(&mut self, fa: &mut StackFrameAllocator, mem: &mut PhysMem, vpn: VirtPageNum) -> (r: Option<usize>)
        requires
            alloc_ok(*old(fa), *old(mem)),
            path_frames_ok(*old(mem), *old(fa), old(self).root_ppn.0 as int, vpn.0 as int),
        ensures
            alloc_ok(*final(fa), *final(mem)),
            final(mem).base_ppn == old(mem).base_ppn,
            final(mem).bytes.len() == old(mem).bytes.len(),
            final(self).root_ppn == old(self).root_ppn,
            forall|q: int| #[trigger] final(fa).is_free(q) ==> old(fa).is_free(q),
            r.is_none() <==> free_count(*old(fa)) < tables_missing(*old(mem), old(self).root_ppn.0 as int, vpn.0 as int),
            kept_outside(*old(mem), *final(mem), *old(fa), *final(fa),
                slot(old(self).root_ppn.0 as int, vpn_index(vpn.0 as int, 0)),
                slot(pte_ppn(final(mem).word(slot(old(self).root_ppn.0 as int, vpn_index(vpn.0 as int, 0)))), vpn_index(vpn.0 as int, 1))),
            lookup(*final(mem), old(self).root_ppn.0 as int, vpn.0 as int) == lookup(*old(mem), old(self).root_ppn.0 as int, vpn.0 as int),
            r matches Some(a) ==> {
                &&& leaf_slot(*final(mem), old(self).root_ppn.0 as int, vpn.0 as int) == Some(a as int)
                &&& walk_distinct(*final(mem), old(self).root_ppn.0 as int, vpn.0 as int)
            },
            r is Some ==> created(*old(mem), *final(mem), *old(fa), *final(fa), old(self).root_ppn.0 as int, vpn.0 as int),
            free_count(*final(fa)) >= free_count(*old(fa)) - 2,
    {
        let ghost m0 = *mem;
        let ghost f0 = *fa;
        let root = self.root_ppn;
        let ghost v = vpn.0 as int;
        let idxs = vpn.indices();
        proof {
            lemma_index_bound(v, 0);
            lemma_index_bound(v, 1);
            lemma_index_bound(v, 2);
            lemma_slot_facts(m0, root.0 as int, idxs@[0] as int);
        }
        let a0 = root.0 * PAGE_SIZE + idxs[0] * 8;
        let ghost e0 = m0.word(a0 as int);
        let p1 = match self.next_table_create(fa, mem, a0) {
            Some(p) => p,
            None => {
                proof { lemma_zero_invalid(); }
                return None;
            },
        };
        let ghost m1 = *mem;
        let ghost f1 = *fa;
        proof {
            lemma_slot_facts(m1, p1.0 as int, idxs@[1] as int);
            if !pte_valid(e0) {
                assert forall|k: int| 0 <= k < 8 implies #[trigger] m1.byte(slot(p1.0 as int, idxs@[1] as int) + k) == 0 by {
                    lemma_page_of(slot(p1.0 as int, idxs@[1] as int) + k, p1.0 as int);
                }
                lemma_word_zero(m1, slot(p1.0 as int, idxs@[1] as int));
                lemma_zero_invalid();
            }
        }
        let a1 = p1.0 * PAGE_SIZE + idxs[1] * 8;
        let ghost e1 = m1.word(a1 as int);
        let p2 = match self.next_table_create(fa, mem, a1) {
            Some(p) => p,
            None => {
                proof {
                    lemma_zero_invalid();
                    assert(mem.word(a0 as int) == m1.word(a0 as int)) by {
                        assert forall|k: int| 0 <= k < 8 implies #[trigger] mem.byte(a0 + k) == m1.byte(a0 + k) by {
                            assert((a0 + k) / PAGE_SIZE as int == root.0);
                        }
                        lemma_word_unchanged(m1, *mem, a0 as int);
                    }
                    assert(m1.bytes@ == mem.bytes@);
                    assert forall|a: int| m0.in_range(a, 1) && !(a0 <= a < a0 + 8) && !(a1 <= a < a1 + 8) && !taken(f0, *fa, a / PAGE_SIZE as int)
                        implies #[trigger] mem.byte(a) == m0.byte(a) by {
                        assert(m1.byte(a) == m0.byte(a));
                    }
                    if pte_valid(e0) {
                        assert(m1.bytes@ == m0.bytes@);
                        assert(tables_missing(m0, root.0 as int, v) == 1);
                    }
                }
                return None;
            },
        };
        let ghost m2 = *mem;
        proof {
            lemma_slot_facts(m2, p2.0 as int, idxs@[2] as int);
            // the root slot survived the second step
            assert forall|k: int| 0 <= k < 8 implies #[trigger] m2.byte(a0 + k) == m1.byte(a0 + k) by {
                assert((a0 + k) / PAGE_SIZE as int == root.0);
                assert(!taken(f1, *fa, root.0 as int));
                if a1 <= a0 + k < a1 + 8 {
                    lemma_word_in_frame(a1 as int, a0 + k);
                }
            }
            lemma_word_unchanged(m1, m2, a0 as int);
            assert forall|a: int| m0.in_range(a, 1) && !(a0 <= a < a0 + 8) && !(a1 <= a < a1 + 8) && !taken(f0, *fa, a / PAGE_SIZE as int)
                implies #[trigger] m2.byte(a) == m0.byte(a) by {
                assert(m1.byte(a) == m0.byte(a));
            }
            assert(leaf_slot(m2, root.0 as int, v) == Some(slot(p2.0 as int, idxs@[2] as int)));
            if pte_valid(e0) && pte_valid(e1) {
                assert(m2.bytes@ == m0.bytes@);
            } else {
                // the leaf table is a fresh, zeroed frame
                assert forall|k: int| 0 <= k < 8 implies #[trigger] m2.byte(slot(p2.0 as int, idxs@[2] as int) + k) == 0 by {
                    lemma_page_of(slot(p2.0 as int, idxs@[2] as int) + k, p2.0 as int);
                }
                lemma_word_zero(m2, slot(p2.0 as int, idxs@[2] as int));
                lemma_zero_invalid();
            }
        }
        Some(p2.0 * PAGE_SIZE + idxs[2] * 8)
    }

    /// The physical address of the valid leaf entry that maps `vpn`, if there is one.
    pub fn find_pte(&self, mem: &PhysMem, vpn: VirtPageNum) -> (r: Option<usize>)
        requires mem.wf(),
        ensures
            r == (match leaf_slot(*mem, self.root_ppn.0 as int, vpn.0 as int) {
                Some(a) => if pte_valid(mem.word(a)) { Some(a as usize) } else { None },
                None => None,
            }),
            r matches Some(a) ==> mem.in_range(a as int, 8) && a % 8 == 0,
    {
        let idxs = vpn.indices();
        let root = self.root_ppn;
        let ghost v = vpn.0 as int;
        proof {
            lemma_index_bound(v, 0);
            lemma_index_bound(v, 1);
            lemma_index_bound(v, 2);
        }
        if !mem.frame_in_range(root.0) {
            return None;
        }
        proof { lemma_slot_facts(*mem, root.0 as int, idxs@[0] as int); }
        let e0 = PageTableEntry { bits: mem.read_word(root.0 * PAGE_SIZE + idxs[0] * 8) };
        if !e0.is_valid() {
            return None;
        }
        let t1 = e0.ppn();
        if !mem.frame_in_range(t1.0) {
            return None;
        }
        proof { lemma_slot_facts(*mem, t1.0 as int, idxs@[1] as int); }
        let e1 = PageTableEntry { bits: mem.read_word(t1.0 * PAGE_SIZE + idxs[1] * 8) };
        if !e1.is_valid() {
            return None;
        }
        let t2 = e1.ppn();
        if !mem.frame_in_range(t2.0) {
            return None;
        }
        proof { lemma_slot_facts(*mem, t2.0 as int, idxs@[2] as int); }
        let a2 = t2.0 * PAGE_SIZE + idxs[2] * 8;
        let e2 = PageTableEntry { bits: mem.read_word(a2) };
        if e2.is_valid() { Some(a2) } else { None }
    }

    /// Maps `vpn` to frame `ppn` with `flags` (and the valid bit), creating tables on the way.
    /// Every page whose walk shares no entry with that of `vpn` maps as before; on a table
    /// that is a tree (`pt_inv`), every page with another path does, and the table stays a
    /// tree.
    pub fn map(&mut self, fa: &mut StackFrameAllocator, mem: &mut PhysMem, vpn: VirtPageNum, ppn: PhysPageNum, flags: PTEFlags)
        requires
            alloc_ok(*old(fa), *old(mem)),
            path_frames_ok(*old(mem), *old(fa), old(self).root_ppn.0 as int, vpn.0 as int),
            free_count(*old(fa)) >= tables_missing(*old(mem), old(self).root_ppn.0 as int, vpn.0 as int),
            lookup(*old(mem), old(self).root_ppn.0 as int, vpn.0 as int).is_none(),
            ppn.0 <= 0xfff_ffff_ffff,
            flags.bits < 256,
        ensures
            alloc_ok(*final(fa), *final(mem)),
            final(mem).base_ppn == old(mem).base_ppn,
            final(mem).bytes.len() == old(mem).bytes.len(),
            final(self).root_ppn == old(self).root_ppn,
            forall|q: int| #[trigger] final(fa).is_free(q) ==> old(fa).is_free(q),
            lookup(*final(mem), old(self).root_ppn.0 as int, vpn.0 as int) == Some(pte_bits(ppn.0, flags.bits | 1)),
            forall|w: int| w >= 0 && path_frames_ok(*old(mem), *old(fa), old(self).root_ppn.0 as int, w)
                && walks_apart(*old(mem), *final(mem), old(self).root_ppn.0 as int, w, vpn.0 as int)
                ==> #[trigger] lookup(*final(mem), old(self).root_ppn.0 as int, w) == lookup(*old(mem), old(self).root_ppn.0 as int, w),
            free_count(*final(fa)) >= free_count(*old(fa)) - 2,
            pt_inv(*old(mem), *old(fa), old(self).root_ppn.0 as int) ==> {
                &&& pt_inv(*final(mem), *final(fa), old(self).root_ppn.0 as int)
                &&& forall|w: int| w >= 0 && !same_path(w, vpn.0 as int) ==>
                    #[trigger] lookup(*final(mem), old(self).root_ppn.0 as int, w) == lookup(*old(mem), old(self).root_ppn.0 as int, w)
            },
    {
        let ghost root = self.root_ppn.0 as int;
        let ghost m0 = *mem;
        let ghost fa0 = *fa;
        let a = self.find_pte_create(fa, mem, vpn).unwrap();
        let ghost m1 = *mem;
        let bits = PageTableEntry::new(ppn, flags.union(PTEFlags { bits: PTE_V })).bits;
        proof {
            let fb = flags.bits;
            assert(fb | 1 < 1024) by (bit_vector) requires fb < 256;
            lemma_pte_bits(ppn.0 as u64, fb | 1);
            assert((fb | 1) & 1 == 1) by (bit_vector);
        }
        mem.write_word(a, bits);
        proof {
            let v = vpn.0 as int;
            lemma_index_bound(v, 0);
            lemma_index_bound(v, 1);
            let a0 = slot(root, vpn_index(v, 0));
            let t1 = pte_ppn(m1.word(a0));
            let a1 = slot(t1, vpn_index(v, 1));
            let t2 = pte_ppn(m1.word(a1));
            lemma_slot_facts(m1, root, vpn_index(v, 0));
            lemma_slot_facts(m1, t1, vpn_index(v, 1));
            assert(a as int / PAGE_SIZE as int == t2) by {
                lemma_index_bound(v, 2);
                lemma_slot_facts(m1, t2, vpn_index(v, 2));
            }
            assert forall|k: int| 0 <= k < 8 implies #[trigger] mem.byte(a0 + k) == m1.byte(a0 + k) by {
                if a <= a0 + k < a + 8 { lemma_word_in_frame(a as int, a0 + k); }
            }
            lemma_word_unchanged(m1, *mem, a0);
            assert forall|k: int| 0 <= k < 8 implies #[trigger] mem.byte(a1 + k) == m1.byte(a1 + k) by {
                if a <= a1 + k < a + 8 { lemma_word_in_frame(a as int, a1 + k); }
            }
            lemma_word_unchanged(m1, *mem, a1);
            lemma_slot_facts(m1, t2, vpn_index(v, 2));
            assert(t2 * PAGE_SIZE + vpn_index(v, 2) * 8 == a);
            assert forall|b: int| m0.in_range(b, 1) && !(a0 <= b < a0 + 8) && !(a1 <= b < a1 + 8) && !(a <= b < a + 8)
                && !taken(fa0, *fa, b / PAGE_SIZE as int) implies #[trigger] mem.byte(b) == m0.byte(b) by {
                assert(m1.byte(b) == m0.byte(b));
            }
            assert forall|w: int| w >= 0 && path_frames_ok(m0, fa0, root, w) && walks_apart(m0, *mem, root, w, v)
                implies #[trigger] lookup(*mem, root, w) == lookup(m0, root, w) by {
                lemma_walk_kept(m0, *mem, fa0, *fa, root, w, a0, a1, a as int);
            }
            if pt_inv(m0, fa0, root) {
                lemma_create_facts(m0, m1, fa0, *fa, root, v);
                lemma_create_inv(m0, m1, fa0, *fa, root, v);
                lemma_leaf_inv(m1, *mem, *fa, root, v, a as int);
                assert forall|w: int| w >= 0 && !same_path(w, v) implies #[trigger] lookup(*mem, root, w) == lookup(m0, root, w) by {
                    lemma_create_kept(m0, m1, fa0, *fa, root, v, w);
                    lemma_leaf_kept(m1, *mem, *fa, root, v, a as int, w);
                }
            }
        }
    }

    /// Clears the leaf entry that maps `vpn`. Every page whose walk does not read that entry
    /// maps as before; on a table that is a tree, every page with another path does, and the
    /// table stays a tree.
    pub fn unmap(&mut self, mem: &mut PhysMem, vpn: VirtPageNum)
        requires
            old(mem).wf(),
            lookup(*old(mem), old(self).root_ppn.0 as int, vpn.0 as int).is_some(),
            walk_distinct(*old(mem), old(self).root_ppn.0 as int, vpn.0 as int),
        ensures
            final(mem).wf(),
            final(mem).base_ppn == old(mem).base_ppn,
            final(mem).bytes.len() == old(mem).bytes.len(),
            final(self).root_ppn == old(self).root_ppn,
            lookup(*final(mem), old(self).root_ppn.0 as int, vpn.0 as int).is_none(),
            leaf_slot(*final(mem), old(self).root_ppn.0 as int, vpn.0 as int) == leaf_slot(*old(mem), old(self).root_ppn.0 as int, vpn.0 as int),
            forall|w: int| w >= 0 && !walk_reads(*old(mem), old(self).root_ppn.0 as int, w,
                leaf_slot(*old(mem), old(self).root_ppn.0 as int, vpn.0 as int).unwrap())
                ==> #[trigger] lookup(*final(mem), old(self).root_ppn.0 as int, w) == lookup(*old(mem), old(self).root_ppn.0 as int, w),
            forall|fa: StackFrameAllocator| #[trigger] pt_inv(*old(mem), fa, old(self).root_ppn.0 as int) ==> {
                &&& pt_inv(*final(mem), fa, old(self).root_ppn.0 as int)
                &&& forall|w: int| w >= 0 && !same_path(w, vpn.0 as int) ==>
                    #[trigger] lookup(*final(mem), old(self).root_ppn.0 as int, w) == lookup(*old(mem), old(self).root_ppn.0 as int, w)
            },
    {
        let ghost m1 = *mem;
        let a = self.find_pte(mem, vpn).unwrap();
        mem.write_word(a, PageTableEntry::empty().bits);
        proof {
            let root = self.root_ppn.0 as int;
            let v = vpn.0 as int;
            lemma_index_bound(v, 0);
            lemma_index_bound(v, 1);
            lemma_index_bound(v, 2);
            let a0 = slot(root, vpn_index(v, 0));
            let t1 = pte_ppn(m1.word(a0));
            let a1 = slot(t1, vpn_index(v, 1));
            let t2 = pte_ppn(m1.word(a1));
            lemma_slot_facts(m1, root, vpn_index(v, 0));
            lemma_slot_facts(m1, t1, vpn_index(v, 1));
            lemma_slot_facts(m1, t2, vpn_index(v, 2));
            assert forall|k: int| 0 <= k < 8 implies #[trigger] mem.byte(a0 + k) == m1.byte(a0 + k) by {
                if a <= a0 + k < a + 8 { lemma_word_in_frame(a as int, a0 + k); }
            }
            lemma_word_unchanged(m1, *mem, a0);
            assert forall|k: int| 0 <= k < 8 implies #[trigger] mem.byte(a1 + k) == m1.byte(a1 + k) by {
                if a <= a1 + k < a + 8 { lemma_word_in_frame(a as int, a1 + k); }
            }
            lemma_word_unchanged(m1, *mem, a1);
            lemma_zero_invalid();
            let fa = vstd::pervasive::arbitrary::<StackFrameAllocator>();
            assert forall|w: int| w >= 0 && !walk_reads(m1, root, w, a as int)
                implies #[trigger] lookup(*mem, root, w) == lookup(m1, root, w) by {
                lemma_walk_kept(m1, *mem, fa, fa, root, w, a as int, a as int, a as int);
            }
            assert forall|f: StackFrameAllocator| #[trigger] pt_inv(m1, f, root) implies {
                &&& pt_inv(*mem, f, root)
                &&& forall|w: int| w >= 0 && !same_path(w, v) ==> #[trigger] lookup(*mem, root, w) == lookup(m1, root, w)
            } by {
                lemma_leaf_inv(m1, *mem, f, root, v, a as int);
                assert forall|w: int| w >= 0 && !same_path(w, v) implies #[trigger] lookup(*mem, root, w) == lookup(m1, root, w) by {
                    lemma_leaf_kept(m1, *mem, f, root, v, a as int, w);
                }
            }
        }
    }

    /// The leaf entry that maps `vpn`.
    pub fn translate(&self, mem: &PhysMem, vpn: VirtPageNum) -> (r: Option<PageTableEntry>)
        requires mem.wf(),
        ensures
            r == (match lookup(*mem, self.root_ppn.0 as int, vpn.0 as int) {
                Some(b) => Some(PageTableEntry { bits: b }),
                None => None,
            }),
    {
        match self.find_pte(mem, vpn) {
            Some(a) => Some(PageTableEntry { bits: mem.read_word(a) }),
            None => None,
        }
    }

    /// The physical address that virtual address `va` maps to.
    pub fn translate_va(&self, mem: &PhysMem, va: VirtAddr) -> (r: Option<PhysAddr>)
        requires mem.wf(),
        ensures
            r == (match lookup(*mem, self.root_ppn.0 as int, va.0 as int / PAGE_SIZE as int) {
                Some(b) => if pte_ppn(b) * PAGE_SIZE + va.0 % PAGE_SIZE <= usize::MAX {
                    Some(PhysAddr((pte_ppn(b) * PAGE_SIZE + va.0 % PAGE_SIZE) as usize))
                } else {
                    None
                },
                None => None,
            }),
    {
        let pte = match self.find_pte(mem, va.floor()) {
            Some(a) => PageTableEntry { bits: mem.read_word(a) },
            None => return None,
        };
        let base = match pte.ppn().0.checked_mul(PAGE_SIZE) {
            Some(b) => b,
            None => return None,
        };
        match base.checked_add(va.page_offset()) {
            Some(pa) => Some(PhysAddr(pa)),
            None => None,
        }
    }
}

impl PageTable {
    /// Whether `map` may be called for `vpn` now: the walk reads frames of memory that are
    /// in use and distinct, enough frames are free for the tables still missing, and `vpn`
    /// is not mapped.
    pub fn map_ready(&self, fa: &StackFrameAllocator, mem: &PhysMem, vpn: VirtPageNum) -> (r: bool)
        requires alloc_ok(*fa, *mem),
        ensures
            r == (path_frames_ok(*mem, *fa, self.root_ppn.0 as int, vpn.0 as int)
                && free_count(*fa) >= tables_missing(*mem, self.root_ppn.0 as int, vpn.0 as int)
                && lookup(*mem, self.root_ppn.0 as int, vpn.0 as int).is_none()),
    {
        let idxs = vpn.indices();
        let root = self.root_ppn;
        let ghost v = vpn.0 as int;
        proof {
            lemma_index_bound(v, 0);
            lemma_index_bound(v, 1);
            lemma_index_bound(v, 2);
        }
        if !mem.frame_in_range(root.0) || fa.frame_is_free(root.0) {
            return false;
        }
        proof { lemma_slot_facts(*mem, root.0 as int, idxs@[0] as int); }
        let e0 = PageTableEntry { bits: mem.read_word(root.0 * PAGE_SIZE + idxs[0] * 8) };
        let mut missing: u128 = 2;
        if e0.is_valid() {
            let t1 = e0.ppn();
            if !mem.frame_in_range(t1.0) || fa.frame_is_free(t1.0) || t1.0 == root.0 {
                return false;
            }
            proof { lemma_slot_facts(*mem, t1.0 as int, idxs@[1] as int); }
            let e1 = PageTableEntry { bits: mem.read_word(t1.0 * PAGE_SIZE + idxs[1] * 8) };
            missing = 1;
            if e1.is_valid() {
                let t2 = e1.ppn();
                if !mem.frame_in_range(t2.0) || fa.frame_is_free(t2.0) || t2.0 == root.0 || t2.0 == t1.0 {
                    return false;
                }
                missing = 0;
            }
        }
        if fa.free_frames() < missing {
            return false;
        }
        self.find_pte(mem, vpn).is_none()
    }

    /// Whether `unmap` may be called for `vpn` now: it is mapped, and its walk goes through
    /// three different tables.
    pub fn unmap_ready(&self, mem: &PhysMem, vpn: VirtPageNum) -> (r: bool)
        requires mem.wf(),
        ensures
            r == (lookup(*mem, self.root_ppn.0 as int, vpn.0 as int).is_some()
                && walk_distinct(*mem, self.root_ppn.0 as int, vpn.0 as int)),
    {
        if self.find_pte(mem, vpn).is_none() {
            return false;
        }
        let idxs = vpn.indices();
        let root = self.root_ppn;
        let ghost v = vpn.0 as int;
        proof {
            lemma_index_bound(v, 0);
            lemma_index_bound(v, 1);
            lemma_slot_facts(*mem, root.0 as int, idxs@[0] as int);
        }
        let e0 = PageTableEntry { bits: mem.read_word(root.0 * PAGE_SIZE + idxs[0] * 8) };
        let t1 = e0.ppn();
        proof { lemma_slot_facts(*mem, t1.0 as int, idxs@[1] as int); }
        let e1 = PageTableEntry { bits: mem.read_word(t1.0 * PAGE_SIZE + idxs[1] * 8) };
        let t2 = e1.ppn();
        root.0 != t1.0 && root.0 != t2.0 && t1.0 != t2.0
    }
}

} // verus!
