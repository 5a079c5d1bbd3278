//! The process control block and the pieces it is made of.
use vstd::prelude::*;
use crate::arch::riscv64::trap::TrapContext;
use crate::signal::Signal;
use super::context::TaskContext;

verus! {

#[derive(Debug, Clone, Copy, PartialEq, Eq, Structural)]
pub enum TaskState {
    Ready,
    Running,
    Blocked,
    /// Exited with this code.
    Zombie(i32),
}

/// Size of a kernel stack: 4 MiB.
pub const KERNEL_STACK_SIZE: usize = 4194304;

#[derive(Clone, Copy)]
pub struct RLimit {
    pub rlim_cur: u64,
    pub rlim_max: u64,
}

impl Default for RLimit {
    /// No limit.
    fn default() -> (r: Self)
        ensures r.rlim_cur == u64::MAX && r.rlim_max == u64::MAX,
    {
        RLimit { rlim_cur: u64::MAX, rlim_max: u64::MAX }
    }
}

pub struct KernelStack {
    pub data: Vec<u8>,
}

impl KernelStack {
    /// A zeroed kernel stack.
    pub fn new() -> (ks: KernelStack)
        ensures ks.data@ == Seq::new(KERNEL_STACK_SIZE as nat, |i: int| 0u8),
    {
        let mut data: Vec<u8> = Vec::new();
        crate::fs::tmpfile::grow_zeros(&mut data, KERNEL_STACK_SIZE);
        assert(data@ =~= Seq::new(KERNEL_STACK_SIZE as nat, |i: int| 0u8));
        KernelStack { data }
    }

    /// The top (highest address) of the stack whose lowest byte is at `bottom`.
    pub fn top(&self, bottom: usize) -> (r: usize)
        requires bottom + self.data@.len() <= usize::MAX,
        ensures r == bottom + self.data@.len(),
    {
        bottom + self.data.len()
    }
}

/// A mapping made by `mmap`.
#[derive(Debug, Clone, Copy)]
pub struct MmapArea {
    pub start: usize,
    pub len: usize,
    pub prot: i32,
    /// The open file it maps and the offset in it, for a file mapping.
    pub file: Option<(usize, usize)>,
}

/// The process control block.
pub struct Task {
    pub pid: i32,
    pub tid: i32,
    pub state: TaskState,
    pub task_cx: TaskContext,
    pub trap_cx: TrapContext,
    /// The `satp` value of the address space.
    pub token: usize,
    pub parent: Option<i32>,
    pub children: Vec<i32>,
    pub exit_code: i32,
    pub pending_signals: Vec<Signal>,
    /// Descriptor table: the open file (an index of the kernel's open-file table) behind each
    /// descriptor.
    pub fd_table: Vec<Option<usize>>,
    pub cwd: Vec<u8>,
    pub heap_start: usize,
    /// The program break.
    pub heap_end: usize,
    /// Where the next anonymous mapping is placed below.
    pub mmap_top: usize,
    pub mmaps: Vec<MmapArea>,
    pub uid: u32,
    pub gid: u32,
    pub euid: u32,
    pub egid: u32,
    pub pgid: i32,
    pub sid: i32,
    pub robust_list: usize,
    pub clear_child_tid: usize,
    pub set_child_tid: usize,
    pub rlimits: Vec<RLimit>,
}

/// Whether descriptor `fd` is in use.
pub open spec fn fd_used(tbl: Seq<Option<usize>>, fd: int) -> bool {
    0 <= fd < tbl.len() && tbl[fd].is_some()
}

/// The lowest descriptor that is free: the first empty slot, or the end of the table.
pub open spec fn is_lowest_free(tbl: Seq<Option<usize>>, fd: int) -> bool {
    &&& 0 <= fd <= tbl.len()
    &&& forall|j: int| 0 <= j < fd ==> #[trigger] tbl[j].is_some()
    &&& fd < tbl.len() ==> tbl[fd].is_none()
}

/// `t1` is `t0` with only the descriptor table possibly changed.
pub open spec fn same_but_fds(t0: Task, t1: Task) -> bool {
    &&& t1.pid == t0.pid && t1.tid == t0.tid && t1.state == t0.state
    &&& t1.task_cx == t0.task_cx && t1.trap_cx == t0.trap_cx && t1.token == t0.token
    &&& t1.parent == t0.parent && t1.children@ == t0.children@ && t1.exit_code == t0.exit_code
    &&& t1.pending_signals@ == t0.pending_signals@ && t1.cwd@ == t0.cwd@
    &&& t1.heap_start == t0.heap_start && t1.heap_end == t0.heap_end
    &&& t1.mmap_top == t0.mmap_top && t1.mmaps@ == t0.mmaps@
    &&& t1.uid == t0.uid && t1.gid == t0.gid && t1.euid == t0.euid && t1.egid == t0.egid
    &&& t1.pgid == t0.pgid && t1.sid == t0.sid
    &&& t1.robust_list == t0.robust_list && t1.clear_child_tid == t0.clear_child_tid
    &&& t1.set_child_tid == t0.set_child_tid && t1.rlimits@ == t0.rlimits@
}


/// The lowest free descriptor of `tbl`.
pub open spec fn first_free(tbl: Seq<Option<usize>>) -> int
    decreases tbl.len(),
{
    if tbl.len() == 0 {
        0
    } else if first_free(tbl.drop_last()) < tbl.len() - 1 {
        first_free(tbl.drop_last())
    } else if tbl.last().is_none() {
        tbl.len() - 1
    } else {
        tbl.len() as int
    }
}

/// `first_free` is the lowest free descriptor, and there is only one.
pub proof fn lemma_first_free(tbl: Seq<Option<usize>>, fd: int)
    ensures
        is_lowest_free(tbl, first_free(tbl)),
        is_lowest_free(tbl, fd) ==> fd == first_free(tbl),
    decreases tbl.len(),
{
    if tbl.len() > 0 {
        let d = tbl.drop_last();
        lemma_first_free(d, fd);
        assert forall|j: int| 0 <= j < d.len() implies #[trigger] d[j] == tbl[j] by {}
        let f = first_free(tbl);
        let g = first_free(d);
        assert forall|j: int| 0 <= j < f implies #[trigger] tbl[j].is_some() by {
            if j < d.len() {
                assert(d[j] == tbl[j]);
                if j < g { assert(d[j].is_some()); }
            }
        }
        if is_lowest_free(tbl, fd) && fd != f {
            if fd < f {
                assert(tbl[fd].is_some());
            } else {
                assert(tbl[f].is_some());
            }
        }
    }
}

/// A copy of `v`.
pub fn copy_vec<T: Copy>(v: &Vec<T>) -> (r: Vec<T>)
    ensures r@ == v@,
{
    let mut r: Vec<T> = Vec::new();
    let mut i: usize = 0;
    while i < v.len()
        invariant i <= v@.len(), r@ == v@.take(i as int),
        decreases v@.len() - i,
    {
        r.push(v[i]);
        assert(r@ =~= v@.take(i as int + 1));
        i = i + 1;
    }
    assert(r@ =~= v@);
    r
}

impl Task {
    /// Picks the lowest free descriptor, growing the table by an empty slot when none is free.
    pub fn alloc_fd(&mut self) -> (fd: usize)
        ensures
            is_lowest_free(old(self).fd_table@, fd as int),
            fd < old(self).fd_table@.len() ==> final(self).fd_table@ == old(self).fd_table@,
            fd == old(self).fd_table@.len() ==> final(self).fd_table@ == old(self).fd_table@.push(None),
            same_but_fds(*old(self), *final(self)),
    {
        let mut i: usize = 0;
        while i < self.fd_table.len()
            invariant
                i <= self.fd_table@.len(),
                self.fd_table@ == old(self).fd_table@,
                *self == *old(self),
                forall|j: int| 0 <= j < i ==> #[trigger] self.fd_table@[j].is_some(),
            decreases self.fd_table@.len() - i,
        {
            if self.fd_table[i].is_none() {
                return i;
            }
            i = i + 1;
        }
        self.fd_table.push(None);
        self.fd_table.len() - 1
    }

    /// Empties slot `fd`; false when it is past the end of the table.
    pub fn close_fd(&mut self, fd: usize) -> (r: bool)
        ensures
            r == (fd < old(self).fd_table@.len()),
            r ==> final(self).fd_table@ == old(self).fd_table@.update(fd as int, None),
            !r ==> final(self).fd_table@ == old(self).fd_table@,
            same_but_fds(*old(self), *final(self)),
    {
        if fd < self.fd_table.len() {
            self.fd_table.set(fd, None);
            true
        } else {
            false
        }
    }

    /// The open file behind `fd`.
    pub fn get_fd(&self, fd: usize) -> (r: Option<usize>)
        ensures r == (if fd < self.fd_table@.len() { self.fd_table@[fd as int] } else { None }),
    {
        if fd < self.fd_table.len() {
            self.fd_table[fd]
        } else {
            None
        }
    }

    pub fn get_user_token(&self) -> (r: usize)
        ensures r == self.token,
    {
        self.token
    }

    pub fn get_trap_cx(&self) -> (r: TrapContext)
        ensures r == self.trap_cx,
    {
        self.trap_cx
    }
}

} // verus!
