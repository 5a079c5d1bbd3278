//! Loading an ELF program: its header and program headers (read by `xmas_elf`), the pages
//! its LOAD segments cover with the union of their permissions, and the address space built
//! from them.
use vstd::prelude::*;
use crate::fs::tmpfs::copy_bytes;
use crate::mm::address::{VirtAddr, VirtPageNum, PAGE_SIZE, ceil_div_page};
use crate::mm::frame::{FrameTracker, StackFrameAllocator, frame_alloc};
use crate::mm::memory_set::{MemorySet, MapArea, MapPerm, MAP_R, MAP_W, MAP_X, MAP_U, area_mapped, entry_for, table_kept, perm_flags, write_user_byte, read_user_byte, user_byte};
use crate::mm::page_table::{alloc_ok, lookup, pte_bits};

verus! {

pub const USER_STACK_TOP: usize = 0x4000_0000;
pub const USER_STACK_SIZE: usize = 262144;

/// The fields of an ELF header the loader reads.
#[derive(Clone, Copy, Debug)]
pub struct ElfHeader {
    /// The file is a 64-bit ELF file.
    pub is_64: bool,
    pub entry: u64,
    pub ph_offset: u64,
    pub ph_count: u16,
    pub ph_entry_size: u16,
}

/// The fields of a program header the loader reads.
#[derive(Clone, Copy, Debug)]
pub struct Segment {
    pub is_load: bool,
    pub vaddr: u64,
    pub mem_size: u64,
    pub offset: u64,
    pub file_size: u64,
    pub read: bool,
    pub write: bool,
    pub execute: bool,
}

/// What `xmas_elf::ElfFile::new` makes of `data`: its header, when it parses.
pub uninterp spec fn elf_header_of(data: Seq<u8>) -> Option<ElfHeader>;

/// What `xmas_elf::ElfFile::program_header` gives for header `index` of `data`.
pub uninterp spec fn elf_segment_of(data: Seq<u8>, index: u16) -> Option<Segment>;

/// Parses `data` with `xmas_elf::ElfFile::new` and reads the header fields. As the crate's
/// `parse_header` shows, it only succeeds when the file starts with the ELF magic number.
/// The crate's `zero::read` asserts that the second header part (at offset 16) is aligned
/// for its fields (8 bytes at most): `data` is a whole buffer the library allocated (a
/// `Vec`, never a slice into one), and the global allocators in use (the C library's
/// `malloc` on the host, `buddy_system_allocator` in the kernel) align every allocation to
/// at least 8 bytes; an empty buffer is refused before any read.
#[verifier::external_body]
fn elf_header(data: &Vec<u8>) -> (r: Option<ElfHeader>)
    ensures
        r == elf_header_of(data@),
        r.is_some() ==> data@.len() >= 4 && data@[0] == 0x7f && data@[1] == 0x45 && data@[2] == 0x4c && data@[3] == 0x46,
{
    let elf = xmas_elf::ElfFile::new(data.as_slice()).ok()?;
    let is_64 = elf.header.pt1.class() == xmas_elf::header::Class::SixtyFour;
    let h = elf.header.pt2;
    Some(ElfHeader { is_64, entry: h.entry_point(), ph_offset: h.ph_offset(), ph_count: h.ph_count(), ph_entry_size: h.ph_entry_size() })
}

/// The size of a program header of the file's class.
pub open spec fn ph_size(h: ElfHeader) -> int {
    if h.is_64 { 56 } else { 32 }
}

/// The alignment a program header of the file's class needs.
pub open spec fn ph_align(h: ElfHeader) -> int {
    if h.is_64 { 8 } else { 4 }
}

/// Whether the file has a program header table at all: the crate reads none when its
/// offset or entry size is zero.
pub open spec fn has_table(h: ElfHeader) -> bool {
    h.ph_offset > 0 && h.ph_entry_size > 0
}

/// Program header `index` lies inside `data`, is large enough to be read, and starts at an
/// offset aligned for its fields.
pub open spec fn ph_in_file(data: Seq<u8>, h: ElfHeader, index: u16) -> bool {
    &&& h.ph_offset + (index + 1) * h.ph_entry_size <= data.len()
    &&& h.ph_entry_size >= ph_size(h)
    &&& h.ph_offset % (ph_align(h) as u64) == 0 && h.ph_entry_size % (ph_align(h) as u16) == 0
}

/// Reads program header `index` of `data` with `xmas_elf::ElfFile::program_header`. The
/// crate refuses (as its `parse_program_header` shows) unless `index` is below the header
/// count and the table's offset and entry size are not zero; it slices the input without a
/// check and `zero::read` asserts the header's alignment, so `requires` keeps the header
/// inside the file at an aligned offset (`data` being a whole allocation, see
/// `elf_header`).
#[verifier::external_body]
fn elf_segment(data: &Vec<u8>, index: u16) -> (r: Option<Segment>)
    requires
        elf_header_of(data@) matches Some(h) && (index < h.ph_count && has_table(h) ==> ph_in_file(data@, h, index)),
    ensures
        r == elf_segment_of(data@, index),
        r.is_some() ==> index < elf_header_of(data@).unwrap().ph_count && has_table(elf_header_of(data@).unwrap()),
{
    let elf = xmas_elf::ElfFile::new(data.as_slice()).ok()?;
    let ph = elf.program_header(index).ok()?;
    let f = ph.flags();
    Some(Segment {
        is_load: ph.get_type() == Ok(xmas_elf::program::Type::Load),
        vaddr: ph.virtual_addr(),
        mem_size: ph.mem_size(),
        offset: ph.offset(),
        file_size: ph.file_size(),
        read: f.is_read(),
        write: f.is_write(),
        execute: f.is_execute(),
    })
}

/// The program headers from `i` on, as the crate's iterator yields them: in order, stopping
/// at the count or at the first one that cannot be read.
pub open spec fn segments_from(data: Seq<u8>, count: u16, i: int) -> Seq<Segment>
    decreases count - i,
{
    if i < 0 || i >= count {
        Seq::empty()
    } else {
        match elf_segment_of(data, i as u16) {
            Some(s) => seq![s] + segments_from(data, count, i + 1),
            None => Seq::empty(),
        }
    }
}

/// Every program header the iterator would read lies inside the file.
pub open spec fn table_in_file(data: Seq<u8>, h: ElfHeader) -> bool {
    h.ph_count > 0 && has_table(h) ==> ph_in_file(data, h, (h.ph_count - 1) as u16)
}

/// The header and the program headers of `data` (none when the file has no table); `None`
/// when it does not parse, or its program header table does not lie inside it or is not
/// aligned for its headers (where the crate's alignment assertion would fail).
pub fn elf_segments(data: &[u8]) -> (r: Option<(ElfHeader, Vec<Segment>)>)
    ensures
        r.is_some() == (elf_header_of(data@) matches Some(h) && table_in_file(data@, h)),
        r matches Some(p) ==> elf_header_of(data@) == Some(p.0) && p.1@ == segments_from(data@, p.0.ph_count, 0),
{
    let buf = copy_bytes(data);
    let h = match elf_header(&buf) {
        Some(h) => h,
        None => return None,
    };
    let size: u128 = if h.is_64 { 56 } else { 32 };
    let align: u64 = if h.is_64 { 8 } else { 4 };
    let count = h.ph_count as u128;
    let esize = h.ph_entry_size as u128;
    assert(count * esize <= 0xffff * 0xffff) by (nonlinear_arith) requires count <= 0xffff, esize <= 0xffff;
    if h.ph_count > 0 && h.ph_offset > 0 && h.ph_entry_size > 0 && ((h.ph_entry_size as u128) < size
        || (h.ph_offset as u128) + count * esize > data.len() as u128
        || h.ph_offset % align != 0 || h.ph_entry_size % (align as u16) != 0) {
        return None;
    }
    let mut segs: Vec<Segment> = Vec::new();
    let mut i: u16 = 0;
    proof { assert(segments_from(data@, h.ph_count, 0) == segs@ + segments_from(data@, h.ph_count, 0)); }
    while i < h.ph_count
        invariant
            buf@ == data@,
            elf_header_of(data@) == Some(h),
            table_in_file(data@, h),
            segs@ + segments_from(data@, h.ph_count, i as int) == segments_from(data@, h.ph_count, 0),
        decreases h.ph_count - i,
    {
        proof {
            assert((i + 1) * h.ph_entry_size <= h.ph_count * h.ph_entry_size) by (nonlinear_arith)
                requires i < h.ph_count;
        }
        match elf_segment(&buf, i) {
            Some(s) => {
                proof {
                    assert(segments_from(data@, h.ph_count, i as int) == seq![s] + segments_from(data@, h.ph_count, i + 1));
                    assert(segs@.push(s) + segments_from(data@, h.ph_count, i + 1) =~= segs@ + (seq![s] + segments_from(data@, h.ph_count, i + 1)));
                }
                segs.push(s);
            },
            None => {
                proof {
                    assert(segments_from(data@, h.ph_count, i as int) == Seq::<Segment>::empty());
                    assert(segs@ + Seq::<Segment>::empty() =~= segs@);
                }
                return Some((h, segs));
            },
        }
        i = i + 1;
    }
    proof { assert(segs@ + Seq::<Segment>::empty() =~= segs@); }
    Some((h, segs))
}

/// The permission a LOAD segment asks for: user, plus read, write and execute as its flags
/// say.
pub open spec fn seg_perm(s: Segment) -> usize {
    MAP_U | (if s.read { MAP_R } else { 0usize }) | (if s.write { MAP_W } else { 0usize }) | (if s.execute { MAP_X } else { 0usize })
}

/// The first page a segment touches.
pub open spec fn seg_start(s: Segment) -> int {
    s.vaddr as int / PAGE_SIZE as int
}

/// The page after the last one a segment touches.
pub open spec fn seg_end(s: Segment) -> int {
    ceil_div_page(s.vaddr + s.mem_size)
}

/// A LOAD segment touches page `v`.
pub open spec fn covers(s: Segment, v: int) -> bool {
    s.is_load && seg_start(s) <= v < seg_end(s)
}

pub open spec fn covered(segs: Seq<Segment>, v: int) -> bool {
    exists|i: int| 0 <= i < segs.len() && covers(#[trigger] segs[i], v)
}

/// The permission of page `v`: user, joined with what every LOAD segment touching it asks
/// for.
pub open spec fn page_perm(segs: Seq<Segment>, v: int) -> usize
    decreases segs.len(),
{
    if segs.len() == 0 {
        MAP_U
    } else if covers(segs.last(), v) {
        page_perm(segs.drop_last(), v) | seg_perm(segs.last())
    } else {
        page_perm(segs.drop_last(), v)
    }
}

proof fn lemma_or_keeps(x: usize, y: usize, p: usize)
    by (bit_vector)
    requires x & p == p,
    ensures (x | y) & p == p,
{
}

proof fn lemma_or_adds(x: usize, p: usize)
    by (bit_vector)
    ensures (x | p) & p == p,
{
}

/// A page touched by several LOAD segments gets the permissions of each of them (and user
/// access): the mapping is the union of what the segments ask for.
pub proof fn lemma_page_perm_includes(segs: Seq<Segment>, i: int, v: int)
    requires 0 <= i < segs.len(), covers(segs[i], v),
    ensures
        page_perm(segs, v) & seg_perm(segs[i]) == seg_perm(segs[i]),
        page_perm(segs, v) & MAP_U == MAP_U,
    decreases segs.len(),
{
    let d = segs.drop_last();
    if i == segs.len() - 1 {
        lemma_or_adds(page_perm(d, v), seg_perm(segs[i]));
        lemma_user_kept(d, v);
        lemma_or_keeps(page_perm(d, v), seg_perm(segs[i]), MAP_U);
    } else {
        assert(d[i] == segs[i]);
        lemma_page_perm_includes(d, i, v);
        if covers(segs.last(), v) {
            lemma_or_keeps(page_perm(d, v), seg_perm(segs.last()), seg_perm(segs[i]));
            lemma_or_keeps(page_perm(d, v), seg_perm(segs.last()), MAP_U);
        }
    }
}

proof fn lemma_user_kept(segs: Seq<Segment>, v: int)
    ensures page_perm(segs, v) & MAP_U == MAP_U,
    decreases segs.len(),
{
    if segs.len() == 0 {
        assert(MAP_U & MAP_U == MAP_U) by (bit_vector);
    } else {
        lemma_user_kept(segs.drop_last(), v);
        if covers(segs.last(), v) {
            lemma_or_keeps(page_perm(segs.drop_last(), v), seg_perm(segs.last()), MAP_U);
        }
    }
}

/// Every segment ends (rounded up to a page) inside the address range.
pub open spec fn segs_fit(segs: Seq<Segment>) -> bool {
    forall|i: int| 0 <= i < segs.len() ==> (#[trigger] segs[i]).vaddr + segs[i].mem_size + PAGE_SIZE - 1 <= usize::MAX
}

/// `plan` lists the pages the LOAD segments touch, in increasing order, each with its
/// permission.
pub open spec fn is_page_plan(segs: Seq<Segment>, plan: Seq<(usize, usize)>) -> bool {
    &&& forall|i: int, j: int| 0 <= i < j < plan.len() ==> (#[trigger] plan[i]).0 < (#[trigger] plan[j]).0
    &&& forall|k: int| 0 <= k < plan.len() ==> covered(segs, (#[trigger] plan[k]).0 as int) && plan[k].1 == page_perm(segs, plan[k].0 as int)
    &&& forall|v: int| covered(segs, v) ==> exists|k: int| 0 <= k < plan.len() && (#[trigger] plan[k]).0 == v
}

fn seg_perm_of(s: &Segment) -> (r: usize)
    ensures r == seg_perm(*s),
{
    MAP_U | (if s.read { MAP_R } else { 0usize }) | (if s.write { MAP_W } else { 0usize }) | (if s.execute { MAP_X } else { 0usize })
}

/// The page range of a segment.
fn seg_pages(s: &Segment) -> (r: (usize, usize))
    requires s.vaddr + s.mem_size + PAGE_SIZE - 1 <= usize::MAX,
    ensures r.0 == seg_start(*s), r.1 == seg_end(*s),
{
    let start = VirtAddr(s.vaddr as usize).floor().0;
    let end = VirtAddr((s.vaddr + s.mem_size) as usize).ceil().0;
    (start, end)
}

/// The permission of page `v` and whether a LOAD segment touches it.
fn perm_at(segs: &Vec<Segment>, v: usize) -> (r: (usize, bool))
    requires segs_fit(segs@),
    ensures r.0 == page_perm(segs@, v as int), r.1 == covered(segs@, v as int),
{
    let mut p = MAP_U;
    let mut hit = false;
    let mut i: usize = 0;
    while i < segs.len()
        invariant
            i <= segs@.len(),
            segs_fit(segs@),
            p == page_perm(segs@.take(i as int), v as int),
            hit == covered(segs@.take(i as int), v as int),
        decreases segs@.len() - i,
    {
        let s = segs[i];
        let (a, b) = seg_pages(&s);
        proof {
            let t = segs@.take(i as int + 1);
            assert(t.drop_last() =~= segs@.take(i as int));
            assert(t.last() == s);
            if covered(t, v as int) && !covers(s, v as int) {
                let w = choose|j: int| 0 <= j < t.len() && covers(#[trigger] t[j], v as int);
                assert(segs@.take(i as int)[w] == t[w]);
            }
            if covered(segs@.take(i as int), v as int) {
                let w = choose|j: int| 0 <= j < i && covers(#[trigger] segs@.take(i as int)[j], v as int);
                assert(t[w] == segs@.take(i as int)[w]);
            }
            if covers(s, v as int) {
                assert(t[i as int] == s);
            }
        }
        if s.is_load && a <= v && v < b {
            p = p | seg_perm_of(&s);
            hit = true;
        }
        i = i + 1;
    }
    proof { assert(segs@.take(i as int) =~= segs@); }
    (p, hit)
}

/// The pages the LOAD segments touch, with their permissions (see `is_page_plan`).
pub fn page_plan(segs: &Vec<Segment>) -> (plan: Vec<(usize, usize)>)
    requires segs_fit(segs@),
    ensures is_page_plan(segs@, plan@),
{
    let mut lo: usize = usize::MAX;
    let mut hi: usize = 0;
    let mut i: usize = 0;
    while i < segs.len()
        invariant
            i <= segs@.len(),
            segs_fit(segs@),
            forall|j: int| 0 <= j < i && (#[trigger] segs@[j]).is_load ==> lo <= seg_start(segs@[j]) && seg_end(segs@[j]) <= hi,
        decreases segs@.len() - i,
    {
        let s = segs[i];
        if s.is_load {
            let (a, b) = seg_pages(&s);
            if a < lo {
                lo = a;
            }
            if b > hi {
                hi = b;
            }
        }
        i = i + 1;
    }
    let mut plan: Vec<(usize, usize)> = Vec::new();
    if lo >= hi {
        proof {
            assert forall|v: int| covered(segs@, v) implies exists|k: int| 0 <= k < plan@.len() && (#[trigger] plan@[k]).0 == v by {
                let w = choose|j: int| 0 <= j < segs@.len() && covers(#[trigger] segs@[j], v);
                assert(segs@[w].is_load);
            }
        }
        return plan;
    }
    let mut v = lo;
    while v < hi
        invariant
            lo <= v <= hi,
            segs_fit(segs@),
            forall|j: int| 0 <= j < segs@.len() && (#[trigger] segs@[j]).is_load ==> lo <= seg_start(segs@[j]) && seg_end(segs@[j]) <= hi,
            forall|a: int, b: int| 0 <= a < b < plan@.len() ==> (#[trigger] plan@[a]).0 < (#[trigger] plan@[b]).0,
            forall|k: int| 0 <= k < plan@.len() ==> lo <= (#[trigger] plan@[k]).0 < v,
            forall|k: int| 0 <= k < plan@.len() ==> covered(segs@, (#[trigger] plan@[k]).0 as int) && plan@[k].1 == page_perm(segs@, plan@[k].0 as int),
            forall|w: int| lo <= w < v && covered(segs@, w) ==> exists|k: int| 0 <= k < plan@.len() && (#[trigger] plan@[k]).0 == w,
        decreases hi - v,
    {
        let (p, hit) = perm_at(segs, v);
        let ghost before = plan@;
        if hit {
            plan.push((v, p));
        }
        proof {
            assert forall|w: int| lo <= w < v + 1 && covered(segs@, w)
                implies exists|k: int| 0 <= k < plan@.len() && (#[trigger] plan@[k]).0 == w by {
                if w < v {
                    let k = choose|k: int| 0 <= k < before.len() && (#[trigger] before[k]).0 == w;
                    assert(plan@[k] == before[k]);
                } else {
                    let k = plan@.len() - 1;
                    assert(plan@[k].0 == w);
                }
            }
        }
        v = v + 1;
    }
    proof {
        assert forall|w: int| covered(segs@, w) implies exists|k: int| 0 <= k < plan@.len() && (#[trigger] plan@[k]).0 == w by {
            let j = choose|j: int| 0 <= j < segs@.len() && covers(#[trigger] segs@[j], w);
            assert(segs@[j].is_load);
        }
    }
    plan
}

/// The highest address a LOAD segment ends at (0 without one).
pub open spec fn max_end(segs: Seq<Segment>) -> int
    decreases segs.len(),
{
    if segs.len() == 0 {
        0
    } else {
        let m = max_end(segs.drop_last());
        let s = segs.last();
        if s.is_load && s.vaddr + s.mem_size > m { s.vaddr + s.mem_size } else { m }
    }
}

/// Where the program headers appear in memory: the address of offset `ph_off` in the last
/// LOAD segment whose file bytes hold it (0 when none does).
pub open spec fn phdr_addr(segs: Seq<Segment>, ph_off: u64) -> int
    decreases segs.len(),
{
    if segs.len() == 0 {
        0
    } else {
        let s = segs.last();
        if s.is_load && s.offset <= ph_off && ph_off < s.offset + s.file_size {
            s.vaddr + (ph_off - s.offset)
        } else {
            phdr_addr(segs.drop_last(), ph_off)
        }
    }
}

/// A loaded program: its address space, entry point, stack top, program break, and the
/// auxiliary vector's program header address, count and entry size.
pub struct LoadedElf {
    pub memory: MemorySet,
    pub entry: usize,
    pub stack_top: usize,
    pub program_break: usize,
    pub auxv_phdr: usize,
    pub phnum: usize,
    pub phent: usize,
}

proof fn lemma_max_end_fits(segs: Seq<Segment>)
    requires segs_fit(segs),
    ensures 0 <= max_end(segs), max_end(segs) + PAGE_SIZE - 1 <= usize::MAX,
    decreases segs.len(),
{
    if segs.len() > 0 {
        let d = segs.drop_last();
        assert forall|i: int| 0 <= i < d.len() implies (#[trigger] d[i]).vaddr + d[i].mem_size + PAGE_SIZE - 1 <= usize::MAX by {
            assert(d[i] == segs[i]);
        }
        lemma_max_end_fits(d);
        let _ = segs[segs.len() - 1];
    }
}

/// The layout values of `segs`: the highest end and the program header address.
fn layout(segs: &Vec<Segment>, ph_off: u64) -> (r: Option<(usize, usize)>)
    requires segs_fit(segs@),
    ensures
        r matches Some(p) ==> p.0 == max_end(segs@) && p.1 == phdr_addr(segs@, ph_off),
        r.is_none() ==> phdr_addr(segs@, ph_off) > usize::MAX,
{
    let mut m: usize = 0;
    let mut i: usize = 0;
    while i < segs.len()
        invariant
            i <= segs@.len(),
            segs_fit(segs@),
            m == max_end(segs@.take(i as int)),
        decreases segs@.len() - i,
    {
        let s = segs[i];
        proof {
            assert(segs@.take(i as int + 1).drop_last() =~= segs@.take(i as int));
            assert(segs@.take(i as int + 1).last() == s);
        }
        if s.is_load && (s.vaddr + s.mem_size) as usize > m {
            m = (s.vaddr + s.mem_size) as usize;
        }
        i = i + 1;
    }
    proof { assert(segs@.take(i as int) =~= segs@); }
    let mut k = segs.len();
    while k > 0
        invariant
            k <= segs@.len(),
            m == max_end(segs@),
            forall|j: int| k <= j < segs@.len() ==> {
                let s = #[trigger] segs@[j];
                !(s.is_load && s.offset <= ph_off && ph_off < s.offset + s.file_size)
            },
            phdr_addr(segs@, ph_off) == phdr_addr(segs@.take(k as int), ph_off),
        decreases k,
    {
        let s = segs[k - 1];
        proof {
            assert(segs@.take(k as int).drop_last() =~= segs@.take(k - 1));
            assert(segs@.take(k as int).last() == s);
        }
        if s.is_load && s.offset <= ph_off && (ph_off as u128) < (s.offset as u128) + (s.file_size as u128) {
            let diff = ph_off - s.offset;
            if s.vaddr as u128 + diff as u128 > usize::MAX as u128 {
                return None;
            }
            return Some((m, (s.vaddr + diff) as usize));
        }
        k = k - 1;
    }
    proof { assert(segs@.take(0) =~= Seq::<Segment>::empty()); }
    Some((m, 0))
}

/// Whether every segment fits (see `segs_fit`).
fn check_fit(segs: &Vec<Segment>) -> (r: bool)
    ensures r == segs_fit(segs@),
{
    let mut i: usize = 0;
    while i < segs.len()
        invariant
            i <= segs@.len(),
            forall|j: int| 0 <= j < i ==> (#[trigger] segs@[j]).vaddr + segs@[j].mem_size + PAGE_SIZE - 1 <= usize::MAX,
        decreases segs@.len() - i,
    {
        if segs[i].vaddr as u128 + segs[i].mem_size as u128 + 4095 > usize::MAX as u128 {
            return false;
        }
        i = i + 1;
    }
    true
}

/// The pages of `hold` are those of the plan of `segs`, each mapped to the frame `hold`
/// keeps for it with the page's permission.
pub open spec fn pages_loaded(segs: Seq<Segment>, hold: MapArea, mem: crate::mm::phys::PhysMem, root: int) -> bool {
    &&& forall|k: int| 0 <= k < hold.frames@.len() ==> covered(segs, (#[trigger] hold.frames@[k]).0.0 as int)
        && lookup(mem, root, hold.frames@[k].0.0 as int)
            == Some(entry_for(hold.frames@[k].1.ppn.0, MapPerm { bits: page_perm(segs, hold.frames@[k].0.0 as int) }))
    &&& forall|v: int| covered(segs, v) ==> exists|k: int| 0 <= k < hold.frames@.len() && (#[trigger] hold.frames@[k]).0.0 == v
}

/// Loads the ELF program `data` into the address space `ms` (the kernel's identity space,
/// as the caller built it): every page a LOAD segment touches gets a fresh frame mapped with
/// the union of the permissions of the segments touching it, the segments' file bytes are
/// copied in, in order, so that where two segments' file bytes overlap the later ones stay
/// (see `segments_loaded`), and a 256 KiB user stack ends at `USER_STACK_TOP`.
/// `None` where the file does not parse, its program header table or a segment's bytes lie
/// outside it, an address does not fit, a frame runs out, or a page or a byte cannot be
/// mapped or does not read back as written.
pub fn load_elf(data: &[u8], ms: MemorySet, fa: &mut StackFrameAllocator, mem: &mut crate::mm::phys::PhysMem) -> (r: Option<LoadedElf>)
    requires alloc_ok(*old(fa), *old(mem)),
    ensures
        alloc_ok(*final(fa), *final(mem)),
        r matches Some(l) ==> elf_header_of(data@) matches Some(h) && ({
            let segs = segments_from(data@, h.ph_count, 0);
            let n = ms.areas@.len() as int;
            &&& table_in_file(data@, h)
            &&& segs_fit(segs)
            &&& l.entry == h.entry as usize
            &&& l.phnum == h.ph_count as usize
            &&& l.phent == h.ph_entry_size as usize
            &&& l.stack_top == USER_STACK_TOP
            &&& l.program_break == ceil_div_page(max_end(segs)) * PAGE_SIZE
            &&& l.auxv_phdr == phdr_addr(segs, h.ph_offset)
            &&& l.memory.page_table.root_ppn == ms.page_table.root_ppn
            &&& l.memory.areas@.len() == n + 2
            &&& forall|j: int| 0 <= j < n ==> #[trigger] l.memory.areas@[j] == ms.areas@[j]
            &&& pages_loaded(segs, l.memory.areas@[n], *final(mem), ms.page_table.root_ppn.0 as int)
            &&& segments_loaded(segs, data@, *final(mem), ms.page_table.root_ppn.0 as int)
            &&& l.memory.areas@[n + 1].start_vpn.0 == (USER_STACK_TOP - USER_STACK_SIZE) as int / PAGE_SIZE as int
            &&& l.memory.areas@[n + 1].end_vpn.0 == USER_STACK_TOP as int / PAGE_SIZE as int
            &&& l.memory.areas@[n + 1].perm.bits == MAP_R | MAP_W | MAP_U
            &&& area_mapped(l.memory.areas@[n + 1], *final(mem), ms.page_table.root_ppn.0 as int)
        }),
{
    let (h, segs) = match elf_segments(data) {
        Some(p) => p,
        None => return None,
    };
    if !check_fit(&segs) {
        return None;
    }
    let (m_end, phdr) = match layout(&segs, h.ph_offset) {
        Some(p) => p,
        None => return None,
    };
    proof { lemma_max_end_fits(segs@); }
    let plan = page_plan(&segs);
    let mut ms = ms;
    let ghost ms0 = ms;
    let mut hold = MapArea { start_vpn: VirtPageNum(0), end_vpn: VirtPageNum(0), frames: Vec::new(), perm: MapPerm { bits: MAP_U } };
    let mut k: usize = 0;
    while k < plan.len()
        invariant
            table_kept(*fa, *old(mem), *mem, ms0.page_table.root_ppn, ms.page_table.root_ppn),
            ms.areas == ms0.areas,
            k <= plan@.len(),
            hold.frames@.len() == k,
            forall|j: int| 0 <= j < k ==> (#[trigger] hold.frames@[j]).0.0 == plan@[j].0,
        decreases plan@.len() - k,
    {
        let (vpn, perm) = plan[k];
        let f = match frame_alloc(fa, mem) {
            Some(f) => f,
            None => return None,
        };
        if !ms.page_table.map_ready(fa, mem, VirtPageNum(vpn)) {
            return None;
        }
        proof {
            assert(mem.frame_valid(f.ppn.0 as int));
            assert(f.ppn.0 <= 0xfff_ffff_ffff) by (nonlinear_arith)
                requires
                    (f.ppn.0 + 1) * PAGE_SIZE <= mem.start() + mem.bytes.len(),
                    mem.start() + mem.bytes.len() <= 0x1000_0000_0000 * PAGE_SIZE;
        }
        let flags = MapPerm { bits: perm }.pte_flags();
        ms.page_table.map(fa, mem, VirtPageNum(vpn), f.ppn, flags);
        hold.frames.push((VirtPageNum(vpn), f));
        k = k + 1;
    }
    let mut i: usize = 0;
    while i < segs.len()
        invariant
            table_kept(*fa, *old(mem), *mem, ms0.page_table.root_ppn, ms.page_table.root_ppn),
            ms.areas == ms0.areas,
            i <= segs@.len(),
            hold.frames@.len() == plan@.len(),
            forall|j: int| 0 <= j < plan@.len() ==> (#[trigger] hold.frames@[j]).0.0 == plan@[j].0,
        decreases segs@.len() - i,
    {
        let s = segs[i];
        if s.is_load {
            if s.offset as u128 + s.file_size as u128 > data.len() as u128 {
                return None;
            }
            let off = s.offset as usize;
            let n = s.file_size as usize;
            let mut j: usize = 0;
            while j < n
                invariant
                    table_kept(*fa, *old(mem), *mem, ms0.page_table.root_ppn, ms.page_table.root_ppn),
                    ms.areas == ms0.areas,
                    off + n <= data.len(),
                    j <= n,
                    hold.frames@.len() == plan@.len(),
                    forall|q: int| 0 <= q < plan@.len() ==> (#[trigger] hold.frames@[q]).0.0 == plan@[q].0,
                decreases n - j,
            {
                if s.vaddr as u128 + j as u128 > usize::MAX as u128 {
                    return None;
                }
                let ghost m1 = *mem;
                if !write_user_byte(&ms.page_table, mem, (s.vaddr as usize) + j, data[off + j]) {
                    return None;
                }
                proof {
                    assert forall|p: int| #[trigger] fa.is_free(p) implies mem.frame_valid(p) by {
                        assert(m1.frame_valid(p));
                    }
                }
                j = j + 1;
            }
        }
        i = i + 1;
    }
    let mut stack = MapArea::new(VirtAddr(USER_STACK_TOP - USER_STACK_SIZE), VirtAddr(USER_STACK_TOP), MapPerm { bits: MAP_R | MAP_W | MAP_U });
    if !stack.map(&mut ms.page_table, fa, mem) {
        return None;
    }
    if !check_plan(&hold, &plan, &segs, &ms.page_table, mem) || !stack.check_mapped(&ms.page_table, mem)
        || !check_segments(&segs, data, &ms.page_table, mem) {
        return None;
    }
    ms.areas.push(hold);
    ms.areas.push(stack);
    proof {
        assert(USER_STACK_TOP / PAGE_SIZE == ceil_div_page(USER_STACK_TOP as int));
    }
    Some(LoadedElf {
        memory: ms,
        entry: h.entry as usize,
        stack_top: USER_STACK_TOP,
        program_break: (m_end + (PAGE_SIZE - 1)) / PAGE_SIZE * PAGE_SIZE,
        auxv_phdr: phdr,
        phnum: h.ph_count as usize,
        phent: h.ph_entry_size as usize,
    })
}

/// Every LOAD segment's file bytes read back at its addresses through the table rooted at
/// `root`.
pub open spec fn segments_loaded(segs: Seq<Segment>, data: Seq<u8>, mem: crate::mm::phys::PhysMem, root: int) -> bool {
    &&& forall|i: int| 0 <= i < segs.len() && (#[trigger] segs[i]).is_load ==> seg_bytes_fit(segs[i], data)
    &&& forall|i: int, j: int| 0 <= i < segs.len() && segs[i].is_load && 0 <= j < segs[i].file_size
        && !written_later(segs, i, segs[i].vaddr + j) ==>
        #[trigger] user_byte(mem, root, segs[i].vaddr + j) == Some(data[segs[i].offset + j])
}

/// A LOAD segment after segment `i` has a file byte at address `va`: segments are copied in
/// order, so that byte is the one that stays.
pub open spec fn written_later(segs: Seq<Segment>, i: int, va: int) -> bool {
    exists|k: int| i < k < segs.len() && #[trigger] covers_file(segs[k], va)
}

/// `va` is the address of one of the file bytes of LOAD segment `s`.
pub open spec fn covers_file(s: Segment, va: int) -> bool {
    s.is_load && s.vaddr <= va < s.vaddr + s.file_size
}

/// Whether a LOAD segment after segment `i` has a file byte at `va`.
fn later_covers(segs: &Vec<Segment>, i: usize, va: u128) -> (r: bool)
    requires i < segs@.len(),
    ensures r == written_later(segs@, i as int, va as int),
{
    let len = segs.len();
    let mut k: usize = i + 1;
    while k < len
        invariant
            len == segs@.len(),
            i < k <= segs@.len(),
            forall|m: int| i < m < k ==> !#[trigger] covers_file(segs@[m], va as int),
        decreases segs@.len() - k,
    {
        let s = segs[k];
        if s.is_load && (s.vaddr as u128) <= va && va < s.vaddr as u128 + s.file_size as u128 {
            assert(covers_file(segs@[k as int], va as int));
            return true;
        }
        k = k + 1;
    }
    false
}

/// A segment's file bytes lie within the file, and their addresses within the address
/// space.
pub open spec fn seg_bytes_fit(s: Segment, data: Seq<u8>) -> bool {
    &&& s.offset + s.file_size <= data.len()
    &&& s.file_size > 0 ==> s.vaddr + s.file_size <= usize::MAX + 1
}

/// Whether every LOAD segment's file bytes read back at its addresses.
fn check_segments(segs: &Vec<Segment>, data: &[u8], pt: &crate::mm::page_table::PageTable, mem: &crate::mm::phys::PhysMem) -> (r: bool)
    requires mem.wf(),
    ensures r == segments_loaded(segs@, data@, *mem, pt.root_ppn.0 as int),
{
    let mut i: usize = 0;
    while i < segs.len()
        invariant
            mem.wf(),
            i <= segs@.len(),
            forall|a: int| 0 <= a < i && (#[trigger] segs@[a]).is_load ==> seg_bytes_fit(segs@[a], data@),
            forall|a: int, j: int| 0 <= a < i && segs@[a].is_load && 0 <= j < segs@[a].file_size
                && !written_later(segs@, a, segs@[a].vaddr + j) ==>
                #[trigger] user_byte(*mem, pt.root_ppn.0 as int, segs@[a].vaddr + j) == Some(data@[segs@[a].offset + j]),
        decreases segs@.len() - i,
    {
        let s = segs[i];
        if s.is_load {
            if s.offset as u128 + s.file_size as u128 > data.len() as u128 {
                assert(!seg_bytes_fit(segs@[i as int], data@));
                return false;
            }
            let off = s.offset as usize;
            let n = s.file_size as usize;
            let mut j: usize = 0;
            while j < n
                invariant
                    mem.wf(),
                    i < segs@.len(), s == segs@[i as int], s.is_load,
                    off == s.offset, n == s.file_size, off + n <= data@.len(), data@.len() == data.len(),
                    j <= n,
                    j > 0 ==> s.vaddr + j <= usize::MAX + 1,
                    forall|a: int| 0 <= a < i && (#[trigger] segs@[a]).is_load ==> seg_bytes_fit(segs@[a], data@),
                    forall|a: int, q: int| 0 <= a < i && segs@[a].is_load && 0 <= q < segs@[a].file_size
                        && !written_later(segs@, a, segs@[a].vaddr + q) ==>
                        #[trigger] user_byte(*mem, pt.root_ppn.0 as int, segs@[a].vaddr + q) == Some(data@[segs@[a].offset + q]),
                    forall|q: int| 0 <= q < j && !written_later(segs@, i as int, s.vaddr + q) ==>
                        #[trigger] user_byte(*mem, pt.root_ppn.0 as int, s.vaddr + q) == Some(data@[s.offset + q]),
                decreases n - j,
            {
                if s.vaddr as u128 + j as u128 > usize::MAX as u128 {
                    assert(!seg_bytes_fit(segs@[i as int], data@));
                    return false;
                }
                if later_covers(segs, i, s.vaddr as u128 + j as u128) {
                    j = j + 1;
                    continue;
                }
                match read_user_byte(pt, mem, (s.vaddr as usize) + j) {
                    Some(b) => {
                        if b != data[off + j] {
                            assert(user_byte(*mem, pt.root_ppn.0 as int, segs@[i as int].vaddr + j) != Some(data@[segs@[i as int].offset + j]));
                            return false;
                        }
                    },
                    None => {
                        assert(user_byte(*mem, pt.root_ppn.0 as int, segs@[i as int].vaddr + j) != Some(data@[segs@[i as int].offset + j]));
                        return false;
                    },
                }
                j = j + 1;
            }
        }
        i = i + 1;
    }
    true
}

/// Whether every page of the plan reads back as mapped to the frame `hold` keeps for it,
/// with its permission.
fn check_plan(hold: &MapArea, plan: &Vec<(usize, usize)>, segs: &Vec<Segment>, pt: &crate::mm::page_table::PageTable, mem: &crate::mm::phys::PhysMem) -> (r: bool)
    requires
        mem.wf(),
        is_page_plan(segs@, plan@),
        hold.frames@.len() == plan@.len(),
        forall|j: int| 0 <= j < plan@.len() ==> (#[trigger] hold.frames@[j]).0.0 == plan@[j].0,
    ensures r == pages_loaded(segs@, *hold, *mem, pt.root_ppn.0 as int),
{
    let mut k: usize = 0;
    while k < plan.len()
        invariant
            mem.wf(),
            is_page_plan(segs@, plan@),
            hold.frames@.len() == plan@.len(),
            forall|j: int| 0 <= j < plan@.len() ==> (#[trigger] hold.frames@[j]).0.0 == plan@[j].0,
            k <= plan@.len(),
            forall|j: int| 0 <= j < k ==> lookup(*mem, pt.root_ppn.0 as int, (#[trigger] hold.frames@[j]).0.0 as int)
                == Some(entry_for(hold.frames@[j].1.ppn.0, MapPerm { bits: page_perm(segs@, hold.frames@[j].0.0 as int) })),
        decreases plan@.len() - k,
    {
        let (vpn, perm) = plan[k];
        proof { let _ = plan@[k as int]; let _ = hold.frames@[k as int]; }
        let ppn = hold.frames[k].1.ppn.0;
        let flags = MapPerm { bits: perm }.pte_flags();
        let want = ((ppn as u64) << 10u64) | (flags.bits | 1);
        match pt.translate(mem, VirtPageNum(vpn)) {
            Some(e) => {
                if e.bits != want {
                    assert(lookup(*mem, pt.root_ppn.0 as int, hold.frames@[k as int].0.0 as int)
                        != Some(entry_for(hold.frames@[k as int].1.ppn.0, MapPerm { bits: page_perm(segs@, hold.frames@[k as int].0.0 as int) })));
                    return false;
                }
            },
            None => {
                assert(lookup(*mem, pt.root_ppn.0 as int, hold.frames@[k as int].0.0 as int)
                        != Some(entry_for(hold.frames@[k as int].1.ppn.0, MapPerm { bits: page_perm(segs@, hold.frames@[k as int].0.0 as int) })));
                    return false;
            },
        }
        proof { let _ = plan@[k as int]; }
        k = k + 1;
    }
    proof {
        assert forall|q: int| 0 <= q < hold.frames@.len() implies covered(segs@, (#[trigger] hold.frames@[q]).0.0 as int) by {
            let _ = plan@[q];
        }
        assert forall|v: int| covered(segs@, v) implies exists|q: int| 0 <= q < hold.frames@.len() && (#[trigger] hold.frames@[q]).0.0 == v by {
            let q = choose|q: int| 0 <= q < plan@.len() && (#[trigger] plan@[q]).0 == v;
            assert(hold.frames@[q].0.0 == v);
        }
    }
    true
}

} // verus!
