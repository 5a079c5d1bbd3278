pub mod errno;
pub mod file;
pub mod process;
pub mod signal;
pub mod time;
pub mod misc;
pub mod memory;
pub mod network;
pub mod epoll;
pub mod dispatch;
pub mod exec;

pub use dispatch::syscall;


use vstd::prelude::*;
use crate::fs::file::{FileObject, FileCtx};
use crate::fs::pipe::PipeInner;
use crate::task::manager::TaskManager;
use crate::task::pid::PidAllocator;
use crate::task::task::{Task, is_lowest_free, same_but_fds};

verus! {

/// An open file and how many descriptors (over all tasks) refer to it.
pub struct OpenFile {
    pub obj: FileObject,
    pub refs: usize,
}

/// A file an epoll instance watches, with the events asked for and the user's tag.
#[derive(Debug, Clone, Copy)]
pub struct EpollEntry {
    pub fd: usize,
    pub events: u32,
    pub data: u64,
}

/// An epoll instance: its id and its watched files, by increasing descriptor.
pub struct EpollInstance {
    pub id: usize,
    pub entries: Vec<EpollEntry>,
}

/// The whole kernel state the system calls work on.
pub struct Kernel {
    pub manager: TaskManager,
    /// The running task: its position in the task table.
    pub current: Option<usize>,
    /// Open files; descriptor tables hold positions in this table.
    pub files: Vec<OpenFile>,
    pub ctx: FileCtx,
    pub epolls: Vec<EpollInstance>,
    /// The id the next epoll instance gets.
    pub next_epoll_id: usize,
    pub pid_alloc: PidAllocator,
    /// The state of the generator behind `getrandom`.
    pub rand_seed: u64,
    /// Timer interrupts since boot.
    pub ticks: usize,
}

/// Every descriptor of `tbl` refers to one of `n` open files.
pub open spec fn table_ok(tbl: Seq<Option<usize>>, n: int) -> bool {
    forall|j: int| 0 <= j < tbl.len() && (#[trigger] tbl[j]).is_some() ==> tbl[j].unwrap() < n
}

/// `s1` is `s0` but for the task at `i`.
pub open spec fn tasks_except(s0: Seq<Task>, s1: Seq<Task>, i: int) -> bool {
    &&& s1.len() == s0.len()
    &&& forall|j: int| 0 <= j < s0.len() && j != i ==> #[trigger] s1[j] == s0[j]
}

/// `f1` is `f0` but for the open file at `i`.
pub open spec fn files_except(f0: Seq<OpenFile>, f1: Seq<OpenFile>, i: int) -> bool {
    &&& f1.len() == f0.len()
    &&& forall|j: int| 0 <= j < f0.len() && j != i ==> #[trigger] f1[j] == f0[j]
}

impl Kernel {
    pub open spec fn tasks_ok(&self) -> bool {
        forall|i: int| 0 <= i < self.manager.tasks@.len()
            ==> table_ok(#[trigger] self.manager.tasks@[i].fd_table@, self.files@.len() as int)
    }

    pub open spec fn files_ok(&self) -> bool {
        forall|i: int| 0 <= i < self.files@.len() ==> (#[trigger] self.files@[i]).obj.obj_wf(self.ctx.pipes@.len() as int)
    }

    /// The kernel state is consistent: descriptors name open files, pipe ends name pipes,
    /// the running task is in the table, the file system is well formed.
    pub open spec fn wf(&self) -> bool {
        &&& (self.current matches Some(i) ==> i < self.manager.tasks@.len())
        &&& self.tasks_ok()
        &&& self.files_ok()
        &&& self.ctx.wf()
    }

    /// A task is running.
    pub open spec fn running(&self) -> bool {
        self.wf() && self.current.is_some()
    }

    pub open spec fn cur(&self) -> int {
        self.current.unwrap() as int
    }

    pub open spec fn cur_task(&self) -> Task {
        self.manager.tasks@[self.cur()]
    }

    /// The open file behind descriptor `fd` of the running task.
    pub open spec fn fd_obj(&self, fd: int) -> Option<usize> {
        let t = self.cur_task().fd_table@;
        if 0 <= fd < t.len() { t[fd] } else { None }
    }

    /// The running task's descriptor table can grow by `n` slots with every descriptor still
    /// fitting in the `i64` a system call returns.
    pub open spec fn fd_room(&self, n: int) -> bool {
        self.cur_task().fd_table@.len() + n <= i64::MAX
    }

    /// The parts that file operations do not touch are as in `k0`.
    pub open spec fn same_rest(&self, k0: Kernel) -> bool {
        &&& self.current == k0.current
        &&& self.manager.ready_queue@ == k0.manager.ready_queue@
        &&& self.epolls == k0.epolls
        &&& self.next_epoll_id == k0.next_epoll_id
        &&& self.pid_alloc == k0.pid_alloc
        &&& self.rand_seed == k0.rand_seed
        &&& self.ticks == k0.ticks
    }

    /// Only open file `id` and the shared file state may differ from `k0`.
    pub open spec fn file_changed(&self, k0: Kernel, id: int) -> bool {
        &&& self.same_rest(k0)
        &&& self.manager.tasks@ == k0.manager.tasks@
        &&& files_except(k0.files@, self.files@, id)
        &&& self.files@[id].refs == k0.files@[id].refs
    }

    /// Only the running task's descriptor table may differ from `k0`, and it is `tbl`.
    pub open spec fn fds_set(&self, k0: Kernel, tbl: Seq<Option<usize>>) -> bool {
        &&& self.same_rest(k0)
        &&& tasks_except(k0.manager.tasks@, self.manager.tasks@, k0.cur())
        &&& same_but_fds(k0.cur_task(), self.cur_task())
        &&& self.cur_task().fd_table@ == tbl
    }

    /// The open file behind `fd`.
    pub fn lookup(&self, fd: usize) -> (r: Option<usize>)
        requires self.running(),
        ensures
            r == self.fd_obj(fd as int),
            r matches Some(id) ==> id < self.files@.len(),
    {
        let i = self.current.unwrap();
        let r = self.manager.tasks[i].get_fd(fd);
        proof {
            assert(table_ok(self.manager.tasks@[i as int].fd_table@, self.files@.len() as int));
            if fd < self.manager.tasks@[i as int].fd_table@.len() {
                let _ = self.manager.tasks@[i as int].fd_table@[fd as int];
            }
        }
        r
    }

    /// Opens `obj` under the lowest free descriptor of the running task.
    pub fn install(&mut self, obj: FileObject) -> (fd: usize)
        requires
            old(self).running(),
            obj.obj_wf(old(self).ctx.pipes@.len() as int),
        ensures
            final(self).running(),
            final(self).files@ == old(self).files@.push(OpenFile { obj, refs: 1 }),
            final(self).ctx == old(self).ctx,
            is_lowest_free(old(self).cur_task().fd_table@, fd as int),
            final(self).fds_set(*old(self), (if fd < old(self).cur_task().fd_table@.len() {
                old(self).cur_task().fd_table@
            } else {
                old(self).cur_task().fd_table@.push(None)
            }).update(fd as int, Some(old(self).files@.len() as usize))),
    {
        let i = self.current.unwrap();
        let id = self.files.len();
        self.files.push(OpenFile { obj, refs: 1 });
        let fd = self.manager.tasks[i].alloc_fd();
        self.manager.tasks[i].fd_table.set(fd, Some(id));
        proof {
            assert forall|j: int| 0 <= j < self.manager.tasks@.len()
                implies table_ok(#[trigger] self.manager.tasks@[j].fd_table@, self.files@.len() as int) by {
                assert(table_ok(old(self).manager.tasks@[j].fd_table@, old(self).files@.len() as int));
                if j == i {
                    let t = self.manager.tasks@[j].fd_table@;
                    assert forall|q: int| 0 <= q < t.len() && (#[trigger] t[q]).is_some() implies t[q].unwrap() < self.files@.len() by {
                        if q != fd {
                            let _ = old(self).manager.tasks@[j].fd_table@[q];
                        }
                    }
                }
            }
            assert forall|q: int| 0 <= q < self.files@.len()
                implies (#[trigger] self.files@[q]).obj.obj_wf(self.ctx.pipes@.len() as int) by {
                if q < old(self).files@.len() {
                    assert(old(self).files@[q] == self.files@[q]);
                }
            }
        }
        fd
    }
}

impl Kernel {
    /// The kernel at boot: the file system and clock of `ctx`, standard input, output and
    /// error open, and the first process (id 1, from the allocator) running with them as
    /// descriptors 0, 1 and 2, entering user mode through `trap_cx` in address space `token`,
    /// with its heap starting at `heap` and mappings placed below `mmap_top`.
    pub fn boot(ctx: FileCtx, trap_cx: crate::arch::riscv64::trap::TrapContext, task_cx: crate::task::context::TaskContext, token: usize, heap: usize, mmap_top: usize) -> (k: Kernel)
        requires ctx.wf(),
        ensures
            k.running(),
            k.ctx == ctx,
            k.files@.len() == 3,
            k.files@[0] == (OpenFile { obj: FileObject::Stdin, refs: 1 }),
            k.files@[1] == (OpenFile { obj: FileObject::Stdout, refs: 1 }),
            k.files@[2] == (OpenFile { obj: FileObject::Stderr, refs: 1 }),
            k.manager.tasks@.len() == 1,
            k.manager.ready_queue@.len() == 0,
            k.current == Some(0usize),
            k.cur_task().pid == 1 && k.cur_task().parent.is_none(),
            k.cur_task().state == crate::task::task::TaskState::Running,
            k.cur_task().fd_table@ == seq![Some(0usize), Some(1usize), Some(2usize)],
            k.cur_task().trap_cx == trap_cx && k.cur_task().token == token,
            k.cur_task().task_cx == task_cx,
            k.cur_task().heap_start == heap && k.cur_task().heap_end == heap && k.cur_task().mmap_top == mmap_top,
            k.cur_task().children@.len() == 0 && k.cur_task().pending_signals@.len() == 0,
            k.cur_task().cwd@ == seq![47u8],
            k.epolls@.len() == 0 && k.next_epoll_id == 1000,
            k.pid_alloc.next == 2,
            k.ticks == 0,
    {
        let mut files: Vec<OpenFile> = Vec::new();
        files.push(OpenFile { obj: FileObject::Stdin, refs: 1 });
        files.push(OpenFile { obj: FileObject::Stdout, refs: 1 });
        files.push(OpenFile { obj: FileObject::Stderr, refs: 1 });
        let mut pid_alloc = PidAllocator::new();
        let pid = pid_alloc.allocate().0;
        let mut fd_table: Vec<Option<usize>> = Vec::new();
        fd_table.push(Some(0));
        fd_table.push(Some(1));
        fd_table.push(Some(2));
        let mut cwd: Vec<u8> = Vec::new();
        cwd.push(47);
        let mut rlimits: Vec<crate::task::task::RLimit> = Vec::new();
        let mut j: usize = 0;
        while j < 16
            invariant j <= 16, rlimits@.len() == j,
            decreases 16 - j,
        {
            rlimits.push(crate::task::task::RLimit { rlim_cur: u64::MAX, rlim_max: u64::MAX });
            j = j + 1;
        }
        let task = Task {
            pid,
            tid: pid,
            state: crate::task::task::TaskState::Running,
            task_cx,
            trap_cx,
            token,
            parent: None,
            children: Vec::new(),
            exit_code: 0,
            pending_signals: Vec::new(),
            fd_table,
            cwd,
            heap_start: heap,
            heap_end: heap,
            mmap_top,
            mmaps: Vec::new(),
            uid: 0,
            gid: 0,
            euid: 0,
            egid: 0,
            pgid: pid,
            sid: pid,
            robust_list: 0,
            clear_child_tid: 0,
            set_child_tid: 0,
            rlimits,
        };
        let mut manager = TaskManager::new();
        manager.tasks.push(task);
        let k = Kernel {
            manager,
            current: Some(0),
            files,
            ctx,
            epolls: Vec::new(),
            next_epoll_id: 1000,
            pid_alloc,
            rand_seed: 0xdeadbeef,
            ticks: 0,
        };
        proof {
            assert(k.manager.tasks@[0].fd_table@ =~= seq![Some(0usize), Some(1usize), Some(2usize)]);
            assert(k.manager.tasks@[0].cwd@ =~= seq![47u8]);
            assert(table_ok(k.manager.tasks@[0].fd_table@, 3));
        }
        k
    }
}

} // verus!
