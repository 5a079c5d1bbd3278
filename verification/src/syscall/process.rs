//! Process system calls.
use vstd::prelude::*;
use super::{Kernel, OpenFile, table_ok, tasks_except};
use super::errno::{EPERM, ECHILD};
use crate::task::task::{Task, TaskState, RLimit};
use crate::task::manager::index_of;
use crate::task::pid::next_pid;
use crate::task::context::TaskContext;
use crate::arch::riscv64::trap::TrapContext;
use crate::task::task::copy_vec;
use super::file::with_ref;

verus! {

/// The running task's id (1 when none runs).
pub fn sys_getpid(k: &Kernel) -> (r: i64)
    requires k.wf(),
    ensures r == (match k.current { Some(i) => k.manager.tasks@[i as int].pid as i64, None => 1i64 }),
{
    match k.current {
        Some(i) => k.manager.tasks[i].pid as i64,
        None => 1,
    }
}

/// The parent's id, while the parent is in the task table; else 0.
pub fn sys_getppid(k: &Kernel) -> (r: i64)
    requires k.wf(),
    ensures
        r == (match k.current {
            Some(i) => match k.manager.tasks@[i as int].parent {
                Some(pp) => if index_of(k.manager.tasks@, pp).is_some() { pp as i64 } else { 0i64 },
                None => 0i64,
            },
            None => 0i64,
        }),
{
    match k.current {
        Some(i) => match k.manager.tasks[i].parent {
            Some(pp) => match k.manager.get(pp) {
                Some(_) => pp as i64,
                None => 0,
            },
            None => 0,
        },
        None => 0,
    }
}

/// Tasks have one thread: the thread id is the process id.
pub fn sys_gettid(k: &Kernel) -> (r: i64)
    requires k.wf(),
    ensures r == (match k.current { Some(i) => k.manager.tasks@[i as int].pid as i64, None => 1i64 }),
{
    sys_getpid(k)
}

/// Everyone is root.
pub fn sys_getuid() -> (r: i64)
    ensures r == 0,
{
    0
}

pub fn sys_getgid() -> (r: i64)
    ensures r == 0,
{
    0
}

/// Real, effective and saved user ids, all 0, to store at the three arguments.
pub fn sys_getresuid() -> (r: (i64, [u32; 3]))
    ensures r.0 == 0, r.1@ == seq![0u32, 0u32, 0u32],
{
    let ids: [u32; 3] = [0, 0, 0];
    assert(ids@ =~= seq![0u32, 0u32, 0u32]);
    (0, ids)
}

/// Real, effective and saved group ids, all 0.
pub fn sys_getresgid() -> (r: (i64, [u32; 3]))
    ensures r.0 == 0, r.1@ == seq![0u32, 0u32, 0u32],
{
    sys_getresuid()
}

/// One supplementary group, group 0: the count, and the id to store at `list` (none when
/// `size` is 0 or `list` is null).
pub fn sys_getgroups(size: i32, list: usize) -> (r: (i64, Option<u32>))
    ensures r.0 == 1, r.1 == (if size != 0 && list != 0 { Some(0u32) } else { None }),
{
    if size == 0 {
        return (1, None);
    }
    if list != 0 {
        (1, Some(0))
    } else {
        (1, None)
    }
}

/// Accepted and ignored.
pub fn sys_setpgid(pid: i32, pgid: i32) -> (r: i64)
    ensures r == 0,
{
    0
}

/// The running task's group (1 when none runs) for pid 0; else the pid itself.
pub fn sys_getpgid(k: &Kernel, pid: i32) -> (r: i64)
    requires k.wf(),
    ensures
        r == (if pid == 0 {
            match k.current { Some(i) => k.manager.tasks@[i as int].pgid as i64, None => 1i64 }
        } else {
            pid as i64
        }),
{
    if pid == 0 {
        match k.current {
            Some(i) => k.manager.tasks[i].pgid as i64,
            None => 1,
        }
    } else {
        pid as i64
    }
}

/// The running task's session (1 when none runs) for pid 0; else the pid itself.
pub fn sys_getsid(k: &Kernel, pid: i32) -> (r: i64)
    requires k.wf(),
    ensures
        r == (if pid == 0 {
            match k.current { Some(i) => k.manager.tasks@[i as int].sid as i64, None => 1i64 }
        } else {
            pid as i64
        }),
{
    if pid == 0 {
        match k.current {
            Some(i) => k.manager.tasks[i].sid as i64,
            None => 1,
        }
    } else {
        pid as i64
    }
}

proof fn lemma_task_update_ok(k0: Kernel, k1: Kernel)
    requires
        k0.wf(),
        k1.current == k0.current,
        k1.files == k0.files,
        k1.ctx == k0.ctx,
        k1.manager.tasks@.len() == k0.manager.tasks@.len(),
        forall|i: int| 0 <= i < k0.manager.tasks@.len() ==> #[trigger] k1.manager.tasks@[i].fd_table@ == k0.manager.tasks@[i].fd_table@,
    ensures k1.wf(),
{
    assert forall|i: int| 0 <= i < k1.manager.tasks@.len()
        implies table_ok(#[trigger] k1.manager.tasks@[i].fd_table@, k1.files@.len() as int) by {
        assert(table_ok(k0.manager.tasks@[i].fd_table@, k0.files@.len() as int));
        assert(k1.manager.tasks@[i].fd_table@ == k0.manager.tasks@[i].fd_table@);
    }
}

/// What `sys_setsid` does to the kernel and returns.
pub open spec fn setsid_post(k0: Kernel, k1: Kernel, r: i64) -> bool {
    &&& k1.wf()
    &&& k0.current.is_none() ==> r == EPERM && k1 == k0
    &&& (k0.current matches Some(i) ==> {
        let t0 = k0.manager.tasks@[i as int];
        &&& r == t0.pid as i64
        &&& tasks_except(k0.manager.tasks@, k1.manager.tasks@, i as int)
        &&& k1.manager.tasks@[i as int] == (Task { sid: t0.pid, pgid: t0.pid, ..t0 })
        &&& k1.same_rest(k0) && k1.files == k0.files && k1.ctx == k0.ctx
    })
}

/// The running task starts a session and a group of its own: both become its id, which is
/// the result. EPERM (-1) when none runs.
pub fn sys_setsid(k: &mut Kernel) -> (r: i64)
    requires old(k).wf(),
    ensures setsid_post(*old(k), *final(k), r),

{
    match k.current {
        Some(i) => {
            let pid = k.manager.tasks[i].pid;
            k.manager.tasks[i].sid = pid;
            k.manager.tasks[i].pgid = pid;
            proof { lemma_task_update_ok(*old(k), *k); }
            pid as i64
        },
        None => EPERM,
    }
}

/// What `sys_set_tid_address` does to the kernel and returns.
pub open spec fn set_tid_address_post(k0: Kernel, k1: Kernel, tidptr: usize, r: i64) -> bool {
    &&& k1.wf()
    &&& r == (match k0.current { Some(i) => k0.manager.tasks@[i as int].pid as i64, None => 1i64 })
    &&& k0.current.is_none() ==> k1 == k0
    &&& (k0.current matches Some(i) ==> {
        let t0 = k0.manager.tasks@[i as int];
        &&& tasks_except(k0.manager.tasks@, k1.manager.tasks@, i as int)
        &&& k1.manager.tasks@[i as int] == (Task { clear_child_tid: tidptr, ..t0 })
        &&& k1.same_rest(k0) && k1.files == k0.files && k1.ctx == k0.ctx
    })
}

/// Remembers where to clear the thread id at exit; the result is the thread id.
pub fn sys_set_tid_address(k: &mut Kernel, tidptr: usize) -> (r: i64)
    requires old(k).wf(),
    ensures set_tid_address_post(*old(k), *final(k), tidptr, r),

{
    match k.current {
        Some(i) => {
            k.manager.tasks[i].clear_child_tid = tidptr;
            proof { lemma_task_update_ok(*old(k), *k); }
        },
        None => {},
    }
    sys_gettid(k)
}

/// Process name and similar settings are accepted and ignored.
pub fn sys_prctl(option: i32, arg2: usize, arg3: usize, arg4: usize, arg5: usize) -> (r: i64)
    ensures r == 0,
{
    0
}

/// No limits: current and maximum are both the largest u64.
pub fn sys_getrlimit(resource: u32) -> (r: (i64, RLimit))
    ensures r.0 == 0, r.1.rlim_cur == u64::MAX, r.1.rlim_max == u64::MAX,
{
    (0, RLimit { rlim_cur: u64::MAX, rlim_max: u64::MAX })
}

/// Accepted and ignored.
pub fn sys_setrlimit(resource: u32, rlim_cur: u64, rlim_max: u64) -> (r: i64)
    ensures r == 0,
{
    0
}

/// No limits; the old limit to store where one is asked for.
pub fn sys_prlimit64(pid: i32, resource: u32, want_old: bool) -> (r: (i64, Option<RLimit>))
    ensures
        r.0 == 0,
        want_old ==> (r.1 matches Some(l) && l.rlim_cur == u64::MAX && l.rlim_max == u64::MAX),
        !want_old ==> r.1.is_none(),
{
    if want_old {
        (0, Some(RLimit { rlim_cur: u64::MAX, rlim_max: u64::MAX }))
    } else {
        (0, None)
    }
}

/// Size of `struct rusage`.
pub const RUSAGE_SIZE: usize = 144;

/// No usage is counted: a zeroed `struct rusage` to store where one is asked for.
pub fn sys_getrusage(who: i32, usage: usize) -> (r: (i64, Vec<u8>))
    ensures
        r.0 == 0,
        r.1@ == (if usage != 0 { Seq::new(RUSAGE_SIZE as nat, |i: int| 0u8) } else { Seq::<u8>::empty() }),
{
    let mut v: Vec<u8> = Vec::new();
    if usage != 0 {
        crate::fs::tmpfile::grow_zeros(&mut v, RUSAGE_SIZE);
        assert(v@ =~= Seq::new(RUSAGE_SIZE as nat, |i: int| 0u8));
    }
    (0, v)
}

/// The old mask: always 022.
pub fn sys_umask(mask: u32) -> (r: i64)
    ensures r == 0o022,
{
    0o022
}

/// Always the Linux personality (0).
pub fn sys_personality(persona: u32) -> (r: i64)
    ensures r == 0,
{
    0
}

/// What ending the running task with `exit_code` does (see `exit_current_and_run_next`):
/// it keeps the code and becomes a zombie (unless the scheduler picked it again), the open
/// files and every task's registers stay as they were.
pub open spec fn exit_post(k0: Kernel, k1: Kernel, exit_code: i32) -> bool {
    &&& k1.wf()
    &&& k1.files == k0.files && k1.ctx == k0.ctx
    &&& k1.manager.tasks@.len() == k0.manager.tasks@.len()
    &&& forall|j: int| 0 <= j < k0.manager.tasks@.len() ==> #[trigger] k1.manager.tasks@[j].trap_cx == k0.manager.tasks@[j].trap_cx
    &&& k1.current matches Some(j) ==> k1.manager.tasks@[j as int].state == TaskState::Running
    &&& k0.current matches Some(i) ==> {
        let t0 = k0.manager.tasks@[i as int];
        let t1 = k1.manager.tasks@[i as int];
        &&& t1.exit_code == exit_code
        &&& k1.current != Some(i) ==> t1.state == TaskState::Zombie(exit_code)
        &&& t0.parent != Some(t0.pid) ==> t1.pending_signals == t0.pending_signals
    }
}

/// The running task ends with `exit_code`; this call does not return to it.
pub fn sys_exit(k: &mut Kernel, exit_code: i32)
    requires old(k).wf(),
    ensures exit_post(*old(k), *final(k), exit_code),
{
    let code = exit_code as usize;
    assert((code as i32) == exit_code) by (bit_vector)
        requires code == exit_code as usize;
    crate::task::exit_current_and_run_next(k, code);
}

/// As `exit`: one thread per task.
pub fn sys_exit_group(k: &mut Kernel, exit_code: i32)
    requires old(k).wf(),
    ensures exit_post(*old(k), *final(k), exit_code),
{
    sys_exit(k, exit_code)
}

/// What the machine side provides for a new task: its address space, the kernel's address
/// space, where its trap context is kept, and the address of the trap return path.
#[derive(Debug, Clone, Copy)]
pub struct ForkEnv {
    pub token: usize,
    pub kernel_satp: usize,
    pub trap_cx_addr: usize,
    pub trap_return: usize,
}

/// The open files after every descriptor of `tbl` gained a reference.
pub open spec fn refs_added(f: Seq<OpenFile>, tbl: Seq<Option<usize>>) -> Seq<OpenFile>
    decreases tbl.len(),
{
    if tbl.len() == 0 {
        f
    } else {
        let g = refs_added(f, tbl.drop_last());
        match tbl.last() {
            Some(id) => with_ref(g, id as int),
            None => g,
        }
    }
}

proof fn lemma_refs_added(f: Seq<OpenFile>, tbl: Seq<Option<usize>>)
    requires table_ok(tbl, f.len() as int),
    ensures
        refs_added(f, tbl).len() == f.len(),
        forall|j: int| 0 <= j < f.len() ==> (#[trigger] refs_added(f, tbl)[j]).obj == f[j].obj,
    decreases tbl.len(),
{
    if tbl.len() > 0 {
        let d = tbl.drop_last();
        assert forall|j: int| 0 <= j < d.len() && (#[trigger] d[j]).is_some() implies d[j].unwrap() < f.len() by {
            assert(tbl[j] == d[j]);
        }
        lemma_refs_added(f, d);
        let _ = tbl[tbl.len() - 1];
    }
}

/// `c` is the child that `fork` makes of `p`: a copy with id `pid` that is ready to run,
/// returns 0 from the call, runs on stack `child_sp` when that is not 0, has no children,
/// no pending signals and the thread id addresses given, and lives in the address space of
/// `env`.
pub open spec fn forked(c: Task, p: Task, pid: i32, child_sp: usize, ptid: usize, ctid: usize, env: ForkEnv) -> bool {
    let x1 = p.trap_cx.x@.update(10, 0);
    &&& c == (Task {
            pid, tid: pid, state: TaskState::Ready, task_cx: c.task_cx, trap_cx: c.trap_cx, token: env.token,
            parent: Some(p.pid), children: c.children, exit_code: 0, pending_signals: c.pending_signals,
            fd_table: c.fd_table, cwd: c.cwd, mmaps: c.mmaps, rlimits: c.rlimits,
            robust_list: 0, clear_child_tid: ctid, set_child_tid: ptid, ..p
        })
    &&& c.task_cx.ra == env.trap_return && c.task_cx.sp == env.trap_cx_addr
    &&& forall|i: int| 0 <= i < 12 ==> c.task_cx.s@[i] == 0
    &&& c.trap_cx.x@ == (if child_sp != 0 { x1.update(2, child_sp) } else { x1 })
    &&& c.trap_cx.sepc == p.trap_cx.sepc && c.trap_cx.sstatus == p.trap_cx.sstatus
    &&& c.trap_cx.user_satp == env.token && c.trap_cx.kernel_satp == env.kernel_satp
    &&& c.children@ == Seq::<i32>::empty() && c.pending_signals@.len() == 0
    &&& c.fd_table@ == p.fd_table@ && c.cwd@ == p.cwd@ && c.mmaps@ == p.mmaps@ && c.rlimits@ == p.rlimits@
}

/// Every descriptor of `tbl` gains a reference to its open file.
fn retain_all(k: &mut Kernel, tbl: &Vec<Option<usize>>)
    requires table_ok(tbl@, old(k).files@.len() as int),
    ensures
        final(k).files@ == refs_added(old(k).files@, tbl@),
        final(k).manager == old(k).manager,
        final(k).ctx == old(k).ctx,
        final(k).same_rest(*old(k)),
{
    let mut i: usize = 0;
    while i < tbl.len()
        invariant
            i <= tbl@.len(),
            table_ok(tbl@, old(k).files@.len() as int),
            k.files@ == refs_added(old(k).files@, tbl@.take(i as int)),
            k.manager == old(k).manager,
            k.ctx == old(k).ctx,
            k.same_rest(*old(k)),
        decreases tbl@.len() - i,
    {
        proof {
            assert(tbl@.take(i as int + 1).drop_last() =~= tbl@.take(i as int));
            assert(table_ok(tbl@.take(i as int), old(k).files@.len() as int));
            lemma_refs_added(old(k).files@, tbl@.take(i as int));
        }
        match tbl[i] {
            Some(id) => {
                k.retain(id);
                proof { assert(k.files@ =~= with_ref(refs_added(old(k).files@, tbl@.take(i as int)), id as int)); }
            },
            None => {},
        }
        i = i + 1;
    }
    assert(tbl@.take(i as int) =~= tbl@);
}

/// Makes the child of the running task (see `forked`), with the next id; its descriptors
/// add references to the open files.
fn fork_task(k: &mut Kernel, child_sp: usize, ptid: usize, ctid: usize, env: ForkEnv) -> (c: Task)
    requires old(k).running(),
    ensures
        forked(c, old(k).cur_task(), old(k).pid_alloc.next, child_sp, ptid, ctid, env),
        final(k).pid_alloc.next == next_pid(old(k).pid_alloc.next),
        final(k).files@ == refs_added(old(k).files@, old(k).cur_task().fd_table@),
        final(k).manager == old(k).manager,
        final(k).ctx == old(k).ctx,
        final(k).current == old(k).current && final(k).epolls == old(k).epolls,
        final(k).next_epoll_id == old(k).next_epoll_id,
        final(k).rand_seed == old(k).rand_seed && final(k).ticks == old(k).ticks,
{
    let pid = k.pid_alloc.allocate().0;
    let i = k.current.unwrap();
    let task_cx = TaskContext::goto_trap_return(env.trap_cx_addr, env.trap_return);
    let mut cx = k.manager.tasks[i].trap_cx;
    cx.user_satp = env.token;
    cx.kernel_satp = env.kernel_satp;
    cx.set_return_value(0);
    if child_sp != 0 {
        cx.set_sp(child_sp);
    }
    let fd_table = copy_vec(&k.manager.tasks[i].fd_table);
    proof { assert(k.tasks_ok()); assert(table_ok(k.manager.tasks@[i as int].fd_table@, k.files@.len() as int)); }
    retain_all(k, &fd_table);
    let p = &k.manager.tasks[i];
    Task {
        pid,
        tid: pid,
        state: TaskState::Ready,
        task_cx,
        trap_cx: cx,
        token: env.token,
        parent: Some(p.pid),
        children: Vec::new(),
        exit_code: 0,
        pending_signals: Vec::new(),
        fd_table,
        cwd: copy_vec(&p.cwd),
        heap_start: p.heap_start,
        heap_end: p.heap_end,
        mmap_top: p.mmap_top,
        mmaps: copy_vec(&p.mmaps),
        uid: p.uid,
        gid: p.gid,
        euid: p.euid,
        egid: p.egid,
        pgid: p.pgid,
        sid: p.sid,
        robust_list: 0,
        clear_child_tid: ctid,
        set_child_tid: ptid,
        rlimits: copy_vec(&p.rlimits),
    }
}

/// `fork`: the child of the running task (see `forked`) enters the task table (in place of
/// a task with the same id, if any) and the back of the ready queue; the result is its id,
/// with, when `ctid` is above 0x1000, the request to store that id at `ctid` in the child's
/// address space.
pub fn sys_clone(k: &mut Kernel, flags: usize, child_sp: usize, ptid: usize, ctid: usize, newtls: usize, env: ForkEnv)
    -> (r: (i64, Option<(usize, i32)>))
    requires old(k).running(),
    ensures
        final(k).running(),
        ({
            let pid = old(k).pid_alloc.next;
            let t0 = old(k).manager.tasks@;
            let q = match index_of(t0, pid) { Some(i) => i, None => t0.len() as int };
            &&& r.0 == pid as i64
            &&& r.1 == (if ctid > 0x1000 { Some((ctid, pid)) } else { None })
            &&& final(k).pid_alloc.next == next_pid(pid)
            &&& final(k).files@ == refs_added(old(k).files@, old(k).cur_task().fd_table@)
            &&& final(k).ctx == old(k).ctx && final(k).current == old(k).current
            &&& final(k).epolls == old(k).epolls && final(k).next_epoll_id == old(k).next_epoll_id
            &&& final(k).manager.ready_queue@ == old(k).manager.ready_queue@.push(pid)
            &&& final(k).manager.tasks@.len() == (if q < t0.len() { t0.len() } else { t0.len() + 1 })
            &&& forall|j: int| 0 <= j < t0.len() && j != q ==> #[trigger] final(k).manager.tasks@[j] == t0[j]
            &&& forked(final(k).manager.tasks@[q], old(k).cur_task(), pid, child_sp, ptid, ctid, env)
        }),
{
    let ghost k0 = *k;
    let child = fork_task(k, child_sp, ptid, ctid, env);
    let pid = child.pid;
    let ghost k1 = *k;
    proof {
        lemma_refs_added(k0.files@, k0.cur_task().fd_table@);
        crate::task::manager::lemma_index_of(k1.manager.tasks@, pid);
    }
    k.manager.add(child);
    proof {
        let t0 = k0.manager.tasks@;
        let q = match index_of(t0, pid) { Some(i) => i, None => t0.len() as int };
        assert forall|j: int| 0 <= j < k.manager.tasks@.len()
            implies table_ok(#[trigger] k.manager.tasks@[j].fd_table@, k.files@.len() as int) by {
            if j == q {
                assert(table_ok(k0.cur_task().fd_table@, k0.files@.len() as int));
            } else {
                assert(k.manager.tasks@[j] == t0[j]);
                assert(table_ok(t0[j].fd_table@, k0.files@.len() as int));
            }
        }
        assert forall|j: int| 0 <= j < k.files@.len() implies (#[trigger] k.files@[j]).obj.obj_wf(k.ctx.pipes@.len() as int) by {
            assert(k0.files@[j].obj.obj_wf(k0.ctx.pipes@.len() as int));
        }
    }
    let write = if ctid > 0x1000 { Some((ctid, pid)) } else { None };
    (pid as i64, write)
}

/// The exit code of task `c`, when it is in the table and has exited.
pub open spec fn zombie_code(k: Kernel, c: i32) -> Option<i32> {
    match index_of(k.manager.tasks@, c) {
        Some(j) => match k.manager.tasks@[j].state {
            TaskState::Zombie(code) => Some(code),
            _ => None,
        },
        None => None,
    }
}

/// Child `c` can be reaped by a wait for `pid` (-1: any child).
pub open spec fn reapable(k: Kernel, c: i32, pid: i32) -> bool {
    (pid == -1 || pid == c) && zombie_code(k, c).is_some()
}

/// `i` is the first reapable child of `kids`, or the end when there is none.
pub open spec fn reap_at(k: Kernel, kids: Seq<i32>, pid: i32, i: int) -> bool {
    &&& 0 <= i <= kids.len()
    &&& forall|j: int| 0 <= j < i ==> !reapable(k, #[trigger] kids[j], pid)
    &&& i < kids.len() ==> reapable(k, kids[i], pid)
}

pub open spec fn reap_pos(k: Kernel, kids: Seq<i32>, pid: i32) -> int {
    choose|i: int| reap_at(k, kids, pid, i)
}

proof fn lemma_reap_pos(k: Kernel, kids: Seq<i32>, pid: i32, i: int)
    requires reap_at(k, kids, pid, i),
    ensures reap_pos(k, kids, pid) == i,
{
    let c = reap_pos(k, kids, pid);
    assert(reap_at(k, kids, pid, c));
    if c < i {
        assert(!reapable(k, kids[c], pid));
    } else if c > i {
        assert(!reapable(k, kids[i], pid));
    }
}

/// `kids` without `c`.
pub open spec fn without(kids: Seq<i32>, c: i32) -> Seq<i32>
    decreases kids.len(),
{
    if kids.len() == 0 {
        kids
    } else if kids.last() == c {
        without(kids.drop_last(), c)
    } else {
        without(kids.drop_last(), c).push(kids.last())
    }
}

/// The status `wait4` stores for exit code `code`: the code in the second byte.
pub open spec fn wait_status(code: i32) -> i32 {
    ((code as u32) << 8u32) as i32
}

/// What `wait4` found: a reaped child (its id and the status to store), a value to return
/// at once, or nothing yet (the caller yields and asks again).
pub enum Wait4 {
    Reaped(i32, i32),
    Done(i64),
    Block,
}

/// One round of `wait4` for the running task: the first child (in the order of its child
/// list) that exited and matches `pid` (-1: any) leaves the list and is reported; else
/// ECHILD (-10) without children, 0 with `WNOHANG` (bit 0 of `options`), or a wait.
pub fn sys_wait4(k: &mut Kernel, pid: i32, options: i32) -> (r: Wait4)
    requires old(k).running(),
    ensures
        final(k).running(),
        ({
            let t = old(k).cur_task();
            let kids = t.children@;
            let i = reap_pos(*old(k), kids, pid);
            &&& i < kids.len() ==> {
                &&& r == Wait4::Reaped(kids[i], wait_status(zombie_code(*old(k), kids[i]).unwrap()))
                &&& tasks_except(old(k).manager.tasks@, final(k).manager.tasks@, old(k).cur())
                &&& final(k).cur_task() == (Task { children: final(k).cur_task().children, ..t })
                &&& final(k).cur_task().children@ == without(kids, kids[i])
                &&& final(k).same_rest(*old(k)) && final(k).files == old(k).files && final(k).ctx == old(k).ctx
            }
            &&& i == kids.len() ==> *final(k) == *old(k) && r == (if kids.len() == 0 {
                Wait4::Done(ECHILD) } else if options & 1 != 0 { Wait4::Done(0) } else { Wait4::Block })
        }),
{
    let ci = k.current.unwrap();
    let n = k.manager.tasks[ci].children.len();
    let mut i: usize = 0;
    while i < n
        invariant
            old(k).running(),
            *k == *old(k),
            ci == old(k).cur(),
            n == old(k).cur_task().children@.len(),
            i <= n,
            forall|j: int| 0 <= j < i ==> !reapable(*old(k), #[trigger] old(k).cur_task().children@[j], pid),
        decreases n - i,
    {
        let c = k.manager.tasks[ci].children[i];
        proof { crate::task::manager::lemma_index_of(k.manager.tasks@, c); }
        let code = match k.manager.get(c) {
            Some(j) => match k.manager.tasks[j].state {
                TaskState::Zombie(code) => Some(code),
                _ => None,
            },
            None => None,
        };
        if (pid == -1 || pid == c) && code.is_some() {
            proof {
                assert(zombie_code(*k, c) == code);
                lemma_reap_pos(*old(k), old(k).cur_task().children@, pid, i as int);
            }
            let kept = remove_all(&k.manager.tasks[ci].children, c);
            k.manager.tasks[ci].children = kept;
            proof { lemma_task_update_ok(*old(k), *k); }
            let code = code.unwrap();
            return Wait4::Reaped(c, ((code as u32) << 8u32) as i32);
        }
        proof { assert(zombie_code(*k, c) == code); }
        i = i + 1;
    }
    proof { lemma_reap_pos(*old(k), old(k).cur_task().children@, pid, i as int); }
    if n == 0 {
        Wait4::Done(ECHILD)
    } else if options & 1 != 0 {
        Wait4::Done(0)
    } else {
        Wait4::Block
    }
}

/// The ids of `kids` other than `c`, in order.
fn remove_all(kids: &Vec<i32>, c: i32) -> (r: Vec<i32>)
    ensures r@ == without(kids@, c),
{
    let mut r: Vec<i32> = Vec::new();
    let mut i: usize = 0;
    while i < kids.len()
        invariant i <= kids@.len(), r@ == without(kids@.take(i as int), c),
        decreases kids@.len() - i,
    {
        proof { assert(kids@.take(i as int + 1).drop_last() =~= kids@.take(i as int)); }
        if kids[i] != c {
            r.push(kids[i]);
        }
        i = i + 1;
    }
    proof { assert(kids@.take(i as int) =~= kids@); }
    r
}

} // verus!
