//! Memory system calls: the program break and mappings of the running task.
use vstd::prelude::*;
use super::{Kernel, table_ok, tasks_except};
use super::errno::{EINVAL, EBADF};
use crate::task::task::{Task, MmapArea};

verus! {

pub const PAGE_MASK: usize = 4095;
pub const MAP_FIXED: i32 = 0x10;
pub const MAP_ANONYMOUS: i32 = 0x20;

proof fn lemma_task_fields_ok(k0: Kernel, k1: Kernel)
    requires
        k0.running(),
        k1.current == k0.current,
        k1.files == k0.files,
        k1.ctx == k0.ctx,
        tasks_except(k0.manager.tasks@, k1.manager.tasks@, k0.cur()),
        k1.cur_task().fd_table@ == k0.cur_task().fd_table@,
    ensures k1.running(),
{
    assert forall|i: int| 0 <= i < k1.manager.tasks@.len()
        implies table_ok(#[trigger] k1.manager.tasks@[i].fd_table@, k1.files@.len() as int) by {
        assert(table_ok(k0.manager.tasks@[i].fd_table@, k0.files@.len() as int));
    }
}

/// What `sys_brk` does to the kernel and returns.
pub open spec fn brk_post(k0: Kernel, k1: Kernel, new_brk: usize, r: i64) -> bool {
    &&& k1.running()
    &&& new_brk == 0 || new_brk < k0.cur_task().heap_start ==> r == k0.cur_task().heap_end as i64 && k1 == k0
    &&& (new_brk != 0 && new_brk >= k0.cur_task().heap_start ==> {
        &&& r == new_brk as i64
        &&& tasks_except(k0.manager.tasks@, k1.manager.tasks@, k0.cur())
        &&& k1.cur_task() == (Task { heap_end: new_brk, ..k0.cur_task() })
        &&& k1.same_rest(k0) && k1.files == k0.files && k1.ctx == k0.ctx
    })
}

/// The program break: 0 asks for it; an address below the heap's start leaves it; any other
/// address becomes it. The result is the break afterwards.
pub fn sys_brk(k: &mut Kernel, new_brk: usize) -> (r: i64)
    requires old(k).running(),
    ensures brk_post(*old(k), *final(k), new_brk, r),

{
    let i = k.current.unwrap();
    if new_brk == 0 || new_brk < k.manager.tasks[i].heap_start {
        return k.manager.tasks[i].heap_end as i64;
    }
    k.manager.tasks[i].heap_end = new_brk;
    proof { lemma_task_fields_ok(*old(k), *k); }
    new_brk as i64
}

/// `len` rounded up to whole pages.
pub open spec fn page_round(len: usize) -> usize {
    ((len + PAGE_MASK) as usize & !PAGE_MASK) as usize
}

/// Where a mapping of `rounded` bytes goes: at `addr` (rounded down to a page) for a fixed
/// mapping at a non-null address, else just below the task's mapping top (rounded down).
pub open spec fn map_place(t: Task, addr: usize, rounded: usize, flags: i32) -> usize {
    if flags & MAP_FIXED != 0 && addr != 0 {
        addr & !PAGE_MASK
    } else {
        ((t.mmap_top - rounded) as usize & !PAGE_MASK) as usize
    }
}

/// A mapping that is not fixed lies, page-aligned, below the task's mapping top: for every
/// size that fits under the top.
pub proof fn lemma_mmap_below_top(t: Task, addr: usize, rounded: usize, flags: i32)
    requires
        !(flags & MAP_FIXED != 0 && addr != 0),
        rounded <= t.mmap_top,
    ensures
        map_place(t, addr, rounded, flags) + rounded <= t.mmap_top,
        map_place(t, addr, rounded, flags) % 4096 == 0,
{
    let x = (t.mmap_top - rounded) as usize;
    assert((x & !4095usize) <= x && (x & !4095usize) % 4096 == 0) by (bit_vector);
}

/// Two successive mappings that are not fixed do not overlap: the second (placed under the
/// top the first one left) ends at or before the start of the first.
pub proof fn lemma_mmaps_apart(t: Task, a1: usize, r1: usize, f1: i32, a2: usize, r2: usize, f2: i32)
    requires
        !(f1 & MAP_FIXED != 0 && a1 != 0),
        !(f2 & MAP_FIXED != 0 && a2 != 0),
        r1 <= t.mmap_top,
        r2 <= map_place(t, a1, r1, f1),
    ensures ({
        let s1 = map_place(t, a1, r1, f1);
        let s2 = map_place(Task { mmap_top: s1, ..t }, a2, r2, f2);
        &&& s1 + r1 <= t.mmap_top
        &&& s2 + r2 <= s1
    }),
{
    lemma_mmap_below_top(t, a1, r1, f1);
    let s1 = map_place(t, a1, r1, f1);
    lemma_mmap_below_top(Task { mmap_top: s1, ..t }, a2, r2, f2);
}

impl Kernel {
    fn add_mapping(&mut self, addr: usize, rounded: usize, prot: i32, flags: i32, file: Option<(usize, usize)>) -> (start: usize)
        requires
            old(self).running(),
            !(flags & MAP_FIXED != 0 && addr != 0) ==> rounded <= old(self).cur_task().mmap_top,
        ensures
            final(self).running(),
            start == map_place(old(self).cur_task(), addr, rounded, flags),
            tasks_except(old(self).manager.tasks@, final(self).manager.tasks@, old(self).cur()),
            final(self).cur_task() == (Task { mmap_top: final(self).cur_task().mmap_top, mmaps: final(self).cur_task().mmaps, ..old(self).cur_task() }),
            final(self).cur_task().mmaps@ == old(self).cur_task().mmaps@.push(MmapArea { start, len: rounded, prot, file }),
            flags & MAP_FIXED != 0 && addr != 0 ==> final(self).cur_task().mmap_top == old(self).cur_task().mmap_top,
            !(flags & MAP_FIXED != 0 && addr != 0) ==> final(self).cur_task().mmap_top == start,
            final(self).same_rest(*old(self)) && final(self).files == old(self).files && final(self).ctx == old(self).ctx,
    {
        let i = self.current.unwrap();
        let start = if flags & MAP_FIXED != 0 && addr != 0 {
            addr & !PAGE_MASK
        } else {
            let top = (self.manager.tasks[i].mmap_top - rounded) & !PAGE_MASK;
            self.manager.tasks[i].mmap_top = top;
            top
        };
        self.manager.tasks[i].mmaps.push(MmapArea { start, len: rounded, prot, file });
        proof { lemma_task_fields_ok(*old(self), *self); }
        start
    }
}

/// Maps `len` bytes: EINVAL (-22) for an empty mapping or a file mapping with a negative
/// descriptor, EBADF (-9) for a descriptor that is not open. Anonymous mappings, and file
/// mappings that start past the end of the file, get fresh memory; the others map the
/// file (lazily). The result is the start address.
pub fn sys_mmap(k: &mut Kernel, addr: usize, len: usize, prot: i32, flags: i32, fd: i32, offset: i64) -> (r: i64)
    requires
        old(k).running(),
        len <= usize::MAX - PAGE_MASK,
        !(flags & MAP_FIXED != 0 && addr != 0) ==> page_round(len) <= old(k).cur_task().mmap_top,
    ensures
        final(k).running(),
        len == 0 ==> r == EINVAL && *final(k) == *old(k),
        len != 0 && flags & MAP_ANONYMOUS == 0 && fd < 0 ==> r == EINVAL && *final(k) == *old(k),
        len != 0 && flags & MAP_ANONYMOUS == 0 && fd >= 0 && old(k).fd_obj(fd as int).is_none() ==> r == EBADF && *final(k) == *old(k),
        len != 0 && (flags & MAP_ANONYMOUS != 0 || (fd >= 0 && old(k).fd_obj(fd as int).is_some())) ==> {
            let start = map_place(old(k).cur_task(), addr, page_round(len), flags);
            let file: Option<(usize, usize)> = if flags & MAP_ANONYMOUS != 0 { None } else {
                let id = old(k).fd_obj(fd as int).unwrap();
                let size = crate::fs::file::stat_of(old(k).files@[id as int].obj, old(k).ctx.now_ms).st_size;
                if offset as usize >= size as usize { None } else { Some((id, offset as usize)) }
            };
            &&& r == start as i64
            &&& tasks_except(old(k).manager.tasks@, final(k).manager.tasks@, old(k).cur())
            &&& final(k).cur_task().mmaps@ == old(k).cur_task().mmaps@.push(MmapArea { start, len: page_round(len), prot, file })
            &&& final(k).cur_task().mmap_top == (if flags & MAP_FIXED != 0 && addr != 0 { old(k).cur_task().mmap_top } else { start })
            &&& final(k).same_rest(*old(k)) && final(k).files == old(k).files && final(k).ctx == old(k).ctx
        },
{
    if len == 0 {
        return EINVAL;
    }
    let rounded = (len + PAGE_MASK) & !PAGE_MASK;
    if flags & MAP_ANONYMOUS != 0 {
        let start = k.add_mapping(addr, rounded, prot, flags, None);
        return start as i64;
    }
    if fd < 0 {
        return EINVAL;
    }
    let id = match k.lookup(fd as usize) {
        Some(id) => id,
        None => return EBADF,
    };
    let st = k.files[id].obj.stat(k.ctx.now_ms);
    let size = st.st_size as usize;
    let file = if offset as usize >= size { None } else { Some((id, offset as usize)) };
    let start = k.add_mapping(addr, rounded, prot, flags, file);
    start as i64
}

/// Unmapping is accepted and leaves the mappings.
pub fn sys_munmap(addr: usize, len: usize) -> (r: i64)
    ensures r == 0,
{
    0
}

/// Protection changes are accepted and have no effect.
pub fn sys_mprotect(addr: usize, len: usize, prot: i32) -> (r: i64)
    ensures r == 0,
{
    0
}

} // verus!
