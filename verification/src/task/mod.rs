pub mod task;
pub mod manager;
pub mod pid;
pub mod context;

use vstd::prelude::*;
use crate::syscall::{Kernel, table_ok, tasks_except};
use crate::signal::Signal;
use crate::arch::riscv64::trap::TrapContext;
use crate::arch::riscv64::sbi::{SbiCall, shutdown};
use task::{Task, TaskState};
use manager::index_of;
use crate::syscall::exec::{ExecEnv, exec_image, open_image, setup_stack, stack_fits, stack_sp, stack_written, arg_seqs};
use crate::fs::file::FileCtx;
use crate::fs::tmpfs::{TmpFs, copy_bytes};
use crate::mm::frame::StackFrameAllocator;
use crate::mm::memory_set::MemorySet;
use crate::mm::page_table::alloc_ok;
use crate::mm::phys::PhysMem;
use crate::loader::{load_elf, elf_header_of, USER_STACK_TOP};
use crate::task::context::TaskContext;
use vstd::string::StringSliceAdditionalSpecFns;

verus! {

/// The task system needs no setup of its own: the first process comes from
/// `load_init_proc`, once the file system is there.
pub fn init() {
}

/// The bytes of the regular file that opening `path` for reading reaches; `None` when
/// nothing is there, or it is a directory or an empty file.
pub open spec fn file_bytes(fs: TmpFs, path: Seq<u8>) -> Option<Seq<u8>> {
    match exec_image(fs, path) {
        Some(d) => if d.len() > 0 { Some(d) } else { None },
        None => None,
    }
}

/// Reads the whole file at `path` (see `file_bytes`); the file system keeps its contents.
pub fn read_file(fs: &mut TmpFs, path: &[u8], now_ms: u64) -> (r: Option<Vec<u8>>)
    requires old(fs).wf(),
    ensures
        final(fs).wf(),
        final(fs).next_ino == old(fs).next_ino,
        forall|q: Seq<u8>| #[trigger] final(fs).node_at(q) == old(fs).node_at(q),
        r.is_none() == file_bytes(*old(fs), path@).is_none(),
        r matches Some(d) ==> file_bytes(*old(fs), path@) == Some(d@),
{
    match open_image(fs, path, now_ms) {
        Some(d) => if d.len() > 0 { Some(d) } else { None },
        None => None,
    }
}

/// Opening for reading depends on the nodes alone.
proof fn lemma_same_walk(a: TmpFs, b: TmpFs, raw: Seq<u8>, fuel: nat)
    requires forall|q: Seq<u8>| #[trigger] a.node_at(q) == b.node_at(q),
    ensures a.open_walk(raw, false, fuel) == b.open_walk(raw, false, fuel),
    decreases fuel,
{
    let p = crate::fs::path::normalized(raw);
    assert(a.node_at(p) == b.node_at(p));
    match a.node_at(p) {
        Some(crate::fs::tmpfs::NodeV::Symlink(t)) => {
            if fuel > 0 {
                lemma_same_walk(a, b, crate::fs::tmpfs::link_raw(raw, t), (fuel - 1) as nat);
            }
        },
        _ => {},
    }
}

proof fn lemma_same_image(a: TmpFs, b: TmpFs, path: Seq<u8>)
    requires forall|q: Seq<u8>| #[trigger] a.node_at(q) == b.node_at(q),
    ensures file_bytes(a, path) == file_bytes(b, path),
{
    match crate::fs::rel_path(path) {
        Some(rel) => {
            lemma_same_walk(a, b, rel, crate::fs::tmpfs::SYMLINK_MAX_DEPTH as nat);
            match a.open_walk(rel, false, crate::fs::tmpfs::SYMLINK_MAX_DEPTH as nat) {
                Some(p) => { assert(a.node_at(p) == b.node_at(p)); },
                None => {},
            }
        },
        None => {},
    }
}

/// The programs tried, in order, as the first process.
pub open spec fn init_paths() -> Seq<Seq<u8>> {
    seq!["/init".spec_bytes(), "/usr/sbin/nginx".spec_bytes(), "/bin/sh".spec_bytes()]
}

/// Which of them is the first that is a non-empty file.
pub open spec fn init_choice(fs: TmpFs) -> Option<int> {
    if file_bytes(fs, init_paths()[0]) is Some {
        Some(0)
    } else if file_bytes(fs, init_paths()[1]) is Some {
        Some(1)
    } else if file_bytes(fs, init_paths()[2]) is Some {
        Some(2)
    } else {
        None
    }
}

/// Starts the first process on the file system of `ctx`: the first of `init_paths` that is
/// a non-empty file is loaded (see `load_elf`) into an address space built on `space`, with
/// its path as its only argument (see `setup_stack`), and runs as process 1 (see
/// `Kernel::boot`) with its heap at the program break and mappings below `mmap_top`. The
/// kernel and the program's address space; `None` when no such file is there, or it does
/// not load, or its argument cannot be laid out.
pub fn load_init_proc(ctx: FileCtx, space: MemorySet, fa: &mut StackFrameAllocator, mem: &mut PhysMem,
    env: ExecEnv, mmap_top: usize) -> (r: Option<(Kernel, MemorySet)>)
    requires
        ctx.wf(),
        alloc_ok(*old(fa), *old(mem)),
        space.page_table.root_ppn.0 < 0x1000_0000_0000,
    ensures
        alloc_ok(*final(fa), *final(mem)),
        init_choice(ctx.fs).is_none() ==> r.is_none(),
        r matches Some((k, ms)) ==> init_choice(ctx.fs) matches Some(i) && file_bytes(ctx.fs, init_paths()[i]) matches Some(img)
            && elf_header_of(img) matches Some(h) && {
            let root = space.page_table.root_ppn.0 as int;
            let args = seq![init_paths()[i]];
            let t = k.cur_task();
            &&& k.running()
            &&& k.manager.tasks@.len() == 1 && t.pid == 1
            &&& t.fd_table@ == seq![Some(0usize), Some(1usize), Some(2usize)]
            &&& k.ctx.pipes == ctx.pipes && k.ctx.console == ctx.console && k.ctx.now_ms == ctx.now_ms
            &&& forall|q: Seq<u8>| #[trigger] k.ctx.fs.node_at(q) == ctx.fs.node_at(q)
            &&& ms.page_table.root_ppn == space.page_table.root_ppn
            &&& t.token == (0x8000_0000_0000_0000u64 + root) as usize
            &&& t.trap_cx.sepc == h.entry as usize
            &&& t.trap_cx.x@[2] == stack_sp(USER_STACK_TOP as int, args)
            &&& t.trap_cx.user_satp == t.token && t.trap_cx.kernel_satp == env.kernel_satp
            &&& t.task_cx.ra == env.trap_return && t.task_cx.sp == env.trap_cx_addr
            &&& t.heap_start == t.heap_end && t.mmap_top == mmap_top
            &&& stack_fits(USER_STACK_TOP as int, args)
            &&& stack_written(*final(mem), root, USER_STACK_TOP as int, args)
        },
{
    let mut ctx = ctx;
    let ghost fs0 = ctx.fs;
    let now = ctx.now_ms;
    let p0 = "/init".as_bytes();
    let p1 = "/usr/sbin/nginx".as_bytes();
    let p2 = "/bin/sh".as_bytes();
    assert(p0@ == init_paths()[0] && p1@ == init_paths()[1] && p2@ == init_paths()[2]);
    let ghost mut i: int = 0;
    let (path, data) = match read_file(&mut ctx.fs, p0, now) {
        Some(d) => (p0, d),
        None => {
            proof {
                lemma_same_image(fs0, ctx.fs, p1@);
                lemma_same_image(fs0, ctx.fs, p2@);
            }
            let ghost fs1 = ctx.fs;
            match read_file(&mut ctx.fs, p1, now) {
                Some(d) => {
                    proof { i = 1; }
                    (p1, d)
                },
                None => {
                    proof {
                        lemma_same_image(fs1, ctx.fs, p2@);
                        i = 2;
                    }
                    match read_file(&mut ctx.fs, p2, now) {
                        Some(d) => (p2, d),
                        None => return None,
                    }
                },
            }
        },
    };
    assert(init_choice(fs0) == Some(i));
    assert(path@ == init_paths()[i]);
    let l = match load_elf(data.as_slice(), space, fa, mem) {
        Some(l) => l,
        None => return None,
    };
    let mut args: Vec<Vec<u8>> = Vec::new();
    args.push(copy_bytes(path));
    let no_env: Vec<Vec<u8>> = Vec::new();
    assert(arg_seqs(args@) =~= seq![init_paths()[i]]);
    let sp = match setup_stack(&l.memory.page_table, mem, l.stack_top, &args, &no_env) {
        Some(sp) => sp,
        None => return None,
    };
    let token = l.memory.token();
    let mut cx = TrapContext::new(l.entry, sp, env.sstatus);
    cx.user_satp = token;
    cx.kernel_satp = env.kernel_satp;
    let task_cx = TaskContext::goto_trap_return(env.trap_cx_addr, env.trap_return);
    let k = Kernel::boot(ctx, cx, task_cx, token, l.program_break, mmap_top);
    proof { assert(file_bytes(fs0, init_paths()[i]) == Some(data@)); }
    Some((k, l.memory))
}

/// No task runs yet.
pub fn current_pid_opt() -> (r: Option<usize>)
    ensures r.is_none(),
{
    None
}

/// Timer ticks do not preempt tasks.
pub fn scheduler_tick() {
}

/// Page faults are never resolved: the fault is fatal to the task.
pub fn handle_page_fault(stval: usize) -> (r: bool)
    ensures !r,
{
    false
}

/// Leaving the kernel's only program powers the machine off.
pub fn exit_current(code: i32) -> (call: SbiCall)
    ensures call == (SbiCall { eid: 0x53525354, fid: 0, arg0: 0, arg1: 0, arg2: 0 }),
{
    shutdown()
}

/// The registers the running task trapped with.
pub fn current_trap_cx(k: &Kernel) -> (r: TrapContext)
    requires k.running(),
    ensures r == k.cur_task().trap_cx,
{
    let i = k.current.unwrap();
    k.manager.tasks[i].get_trap_cx()
}

/// The address space (`satp` value) of the running task.
pub fn current_user_token(k: &Kernel) -> (r: usize)
    requires k.running(),
    ensures r == k.cur_task().token,
{
    let i = k.current.unwrap();
    k.manager.tasks[i].get_user_token()
}

pub proof fn lemma_same_tables_ok(k0: Kernel, k1: Kernel)
    requires
        k0.wf(),
        k1.current matches Some(i) ==> i < k1.manager.tasks@.len(),
        k1.files == k0.files,
        k1.ctx == k0.ctx,
        k1.manager.tasks@.len() == k0.manager.tasks@.len(),
        forall|i: int| 0 <= i < k0.manager.tasks@.len() ==> #[trigger] k1.manager.tasks@[i].fd_table@ == k0.manager.tasks@[i].fd_table@,
    ensures k1.wf(),
{
    assert forall|i: int| 0 <= i < k1.manager.tasks@.len()
        implies table_ok(#[trigger] k1.manager.tasks@[i].fd_table@, k1.files@.len() as int) by {
        assert(table_ok(k0.manager.tasks@[i].fd_table@, k0.files@.len() as int));
        assert(k1.manager.tasks@[i].fd_table@ == k0.manager.tasks@[i].fd_table@);
    }
}

/// Queues `signal` on the running task, if one runs.
pub fn current_add_signal(k: &mut Kernel, signal: Signal)
    requires old(k).wf(),
    ensures
        final(k).wf(),
        old(k).current.is_none() ==> *final(k) == *old(k),
        old(k).current matches Some(i) ==> {
            let t0 = old(k).manager.tasks@[i as int];
            &&& tasks_except(old(k).manager.tasks@, final(k).manager.tasks@, i as int)
            &&& final(k).manager.tasks@[i as int] == (Task { pending_signals: final(k).manager.tasks@[i as int].pending_signals, ..t0 })
            &&& final(k).manager.tasks@[i as int].pending_signals@ == t0.pending_signals@.push(signal)
            &&& final(k).same_rest(*old(k)) && final(k).files == old(k).files && final(k).ctx == old(k).ctx
        },
{
    match k.current {
        Some(i) => {
            k.manager.tasks[i].pending_signals.push(signal);
            proof { lemma_same_tables_ok(*old(k), *k); }
        },
        None => {},
    }
}

/// The running task (if any) ends with `exit_code`: it becomes a zombie keeping the code,
/// its parent (while in the table) gets SIGCHLD, and the first ready task (if it is in the
/// table) runs next.
pub fn exit_current_and_run_next(k: &mut Kernel, exit_code: usize)
    requires old(k).wf(),
    ensures
        final(k).wf(),
        final(k).files == old(k).files && final(k).ctx == old(k).ctx,
        final(k).epolls == old(k).epolls && final(k).pid_alloc == old(k).pid_alloc,
        final(k).rand_seed == old(k).rand_seed && final(k).ticks == old(k).ticks,
        final(k).next_epoll_id == old(k).next_epoll_id,
        final(k).manager.tasks@.len() == old(k).manager.tasks@.len(),
        old(k).current matches Some(i) ==> final(k).manager.tasks@[i as int].exit_code == exit_code as i32,
        final(k).current matches Some(j) ==> final(k).manager.tasks@[j as int].state == TaskState::Running,
        forall|j: int| 0 <= j < old(k).manager.tasks@.len() ==> #[trigger] final(k).manager.tasks@[j].trap_cx == old(k).manager.tasks@[j].trap_cx,
        old(k).current matches Some(i) ==> {
            let t0 = old(k).manager.tasks@[i as int];
            let t1 = final(k).manager.tasks@[i as int];
            &&& final(k).current != Some(i) ==> t1.state == TaskState::Zombie(exit_code as i32)
            &&& t0.parent != Some(t0.pid) ==> t1.pending_signals == t0.pending_signals
        },
{
    let cur = k.current;
    k.current = None;
    match cur {
        Some(i) => {
            let code = exit_code as i32;
            k.manager.tasks[i].state = TaskState::Zombie(code);
            k.manager.tasks[i].exit_code = code;
            let parent = k.manager.tasks[i].parent;
            let ghost before = k.manager.tasks@[i as int];
            match parent {
                Some(pp) => match k.manager.get(pp) {
                    Some(pi) => {
                        k.manager.tasks[pi].pending_signals.push(Signal::SIGCHLD);
                        proof {
                            if before.parent != Some(before.pid) {
                                assert(pi != i);
                            }
                        }
                    },
                    None => {},
                },
                None => {},
            }
            proof { lemma_same_tables_ok(*old(k), *k); }
        },
        None => {
            proof { lemma_same_tables_ok(*old(k), *k); }
        },
    }
    let ghost mid = *k;
    run_next(k);
    proof {
        if let Some(i) = cur {
            if mid.manager.ready_queue@.len() > 0 {
                manager::lemma_index_of(mid.manager.tasks@, mid.manager.ready_queue@[0]);
                assert(k.manager.tasks@[i as int].pending_signals == mid.manager.tasks@[i as int].pending_signals);
                if k.current != Some(i) {
                    assert(k.manager.tasks@[i as int] == mid.manager.tasks@[i as int]);
                }
            }
        }
    }
}

/// Takes the first ready task (if it is in the table) and makes it the running one.
fn run_next(k: &mut Kernel)
    requires old(k).wf(), old(k).current.is_none(),
    ensures
        final(k).wf(),
        final(k).files == old(k).files && final(k).ctx == old(k).ctx,
        final(k).epolls == old(k).epolls && final(k).pid_alloc == old(k).pid_alloc,
        final(k).rand_seed == old(k).rand_seed && final(k).ticks == old(k).ticks,
        final(k).next_epoll_id == old(k).next_epoll_id,
        final(k).manager.tasks@.len() == old(k).manager.tasks@.len(),
        forall|j: int| 0 <= j < old(k).manager.tasks@.len() ==>
            #[trigger] final(k).manager.tasks@[j].exit_code == old(k).manager.tasks@[j].exit_code,
        forall|j: int| 0 <= j < old(k).manager.tasks@.len() ==>
            #[trigger] final(k).manager.tasks@[j].trap_cx == old(k).manager.tasks@[j].trap_cx,
        final(k).current matches Some(j) ==> final(k).manager.tasks@[j as int].state == TaskState::Running,
        old(k).manager.ready_queue@.len() == 0 ==> *final(k) == *old(k),
        old(k).manager.ready_queue@.len() > 0 ==> ({
            let pid = old(k).manager.ready_queue@[0];
            let t0 = old(k).manager.tasks@;
            &&& final(k).manager.ready_queue@ == old(k).manager.ready_queue@.skip(1)
            &&& final(k).current == (match index_of(t0, pid) { Some(j) => Some(j as usize), None => None })
            &&& index_of(t0, pid) matches Some(j) ==> final(k).manager.tasks@ == t0.update(j, Task { state: TaskState::Running, ..t0[j] })
            &&& index_of(t0, pid).is_none() ==> final(k).manager.tasks@ == t0
        }),
{
    if k.manager.ready_queue.len() == 0 {
        return;
    }
    proof { manager::lemma_index_of(old(k).manager.tasks@, old(k).manager.ready_queue@[0]); }
    match k.manager.pop_ready() {
        Some(pid) => match k.manager.get(pid) {
            Some(j) => {
                k.manager.tasks[j].state = TaskState::Running;
                k.current = Some(j);
                proof {
                    lemma_same_tables_ok(*old(k), *k);
                    assert(k.manager.tasks@ =~= old(k).manager.tasks@.update(j as int, Task { state: TaskState::Running, ..old(k).manager.tasks@[j as int] }));
                }
            },
            None => {
                proof { lemma_same_tables_ok(*old(k), *k); }
            },
        },
        None => {},
    }
}

/// The running task (if any) goes back to the ready queue, at its end, and the first ready
/// task runs: round robin.
pub fn suspend_current_and_run_next(k: &mut Kernel)
    requires old(k).wf(),
    ensures
        final(k).wf(),
        final(k).files == old(k).files,
        final(k).ctx == old(k).ctx,
        final(k).manager.tasks@.len() == old(k).manager.tasks@.len(),
        old(k).current.is_none() ==> *final(k) == *old(k),
        old(k).current matches Some(i) ==> ({
            let me = old(k).manager.tasks@[i as int];
            let q = old(k).manager.ready_queue@.push(me.pid);
            let t1 = old(k).manager.tasks@.update(i as int, Task { state: TaskState::Ready, ..me });
            &&& final(k).manager.ready_queue@ == q.skip(1)
            &&& final(k).current == (match index_of(t1, q[0]) { Some(j) => Some(j as usize), None => None })
            &&& index_of(t1, q[0]) matches Some(j) ==> final(k).manager.tasks@ == t1.update(j, Task { state: TaskState::Running, ..t1[j] })
            &&& index_of(t1, q[0]).is_none() ==> final(k).manager.tasks@ == t1
        }),
{
    match k.current {
        Some(i) => {
            k.manager.tasks[i].state = TaskState::Ready;
            let pid = k.manager.tasks[i].pid;
            k.manager.push_ready(pid);
            k.current = None;
            proof {
                lemma_same_tables_ok(*old(k), *k);
                assert(k.manager.tasks@ =~= old(k).manager.tasks@.update(i as int, Task { state: TaskState::Ready, ..old(k).manager.tasks@[i as int] }));
            }
            run_next(k);
        },
        None => {},
    }
}

/// Whether a signal ends the task: SIGSEGV, SIGKILL and SIGABRT do.
pub open spec fn fatal(s: Signal) -> bool {
    s == Signal::SIGSEGV || s == Signal::SIGKILL || s == Signal::SIGABRT
}

/// The first fatal signal of `sigs`, if any.
pub open spec fn first_fatal(sigs: Seq<Signal>) -> Option<Signal>
    decreases sigs.len(),
{
    if sigs.len() == 0 {
        None
    } else if fatal(sigs[0]) {
        Some(sigs[0])
    } else {
        first_fatal(sigs.skip(1))
    }
}

/// Handles the running task's pending signals, which it drops: the first fatal one (if any)
/// ends the task with minus its number as exit code; the others are ignored. The result is
/// the signal that ended the task.
pub fn handle_signals(k: &mut Kernel) -> (r: Option<Signal>)
    requires old(k).wf(),
    ensures
        final(k).wf(),
        final(k).files == old(k).files && final(k).ctx == old(k).ctx,
        final(k).manager.tasks@.len() == old(k).manager.tasks@.len(),
        forall|j: int| 0 <= j < old(k).manager.tasks@.len() ==>
            #[trigger] final(k).manager.tasks@[j].trap_cx == old(k).manager.tasks@[j].trap_cx,
        old(k).current.is_none() ==> r.is_none() && *final(k) == *old(k),
        old(k).current matches Some(i) ==> r == first_fatal(old(k).manager.tasks@[i as int].pending_signals@),
        old(k).current.is_some() && r.is_some() ==> {
            let i = old(k).current.unwrap() as int;
            let code = (0 - r.unwrap().spec_num()) as i32 as usize as i32;
            let t0 = old(k).manager.tasks@[i];
            let t1 = final(k).manager.tasks@[i];
            &&& t1.exit_code == code
            &&& final(k).current != Some(i as usize) ==> t1.state == TaskState::Zombie(code)
            &&& t0.parent != Some(t0.pid) ==> t1.pending_signals@ == Seq::<Signal>::empty()
        },
        old(k).current.is_some() && r.is_none() ==> {
            let i = old(k).current.unwrap();
            &&& tasks_except(old(k).manager.tasks@, final(k).manager.tasks@, i as int)
            &&& final(k).manager.tasks@[i as int] == (Task { pending_signals: final(k).manager.tasks@[i as int].pending_signals, ..old(k).manager.tasks@[i as int] })
            &&& final(k).manager.tasks@[i as int].pending_signals@ == Seq::<Signal>::empty()
            &&& final(k).same_rest(*old(k))
        },
{
    let i = match k.current {
        Some(i) => i,
        None => return None,
    };
    let mut sigs: Vec<Signal> = Vec::new();
    std::mem::swap(&mut sigs, &mut k.manager.tasks[i].pending_signals);
    proof { lemma_same_tables_ok(*old(k), *k); }
    let ghost s0 = old(k).manager.tasks@[i as int].pending_signals@;
    let ghost snap = *k;
    proof { assert(s0.skip(0) =~= s0); }
    let mut j: usize = 0;
    while j < sigs.len()
        invariant
            *k == snap,
            snap.wf(),
            snap.current == Some(i),
            old(k).current == Some(i),
            i < old(k).manager.tasks@.len(),
            s0 == old(k).manager.tasks@[i as int].pending_signals@,
            snap.files == old(k).files,
            snap.ctx == old(k).ctx,
            j <= sigs@.len(),
            sigs@ == s0,
            first_fatal(s0) == first_fatal(s0.skip(j as int)),
            snap.manager.tasks@[i as int].pending_signals@ == Seq::<Signal>::empty(),
            snap.manager.tasks@[i as int].parent == old(k).manager.tasks@[i as int].parent,
            snap.manager.tasks@[i as int].pid == old(k).manager.tasks@[i as int].pid,
            snap.manager.tasks@.len() == old(k).manager.tasks@.len(),
            forall|q: int| 0 <= q < old(k).manager.tasks@.len() ==>
                #[trigger] snap.manager.tasks@[q].trap_cx == old(k).manager.tasks@[q].trap_cx,
        decreases sigs@.len() - j,
    {
        let s = sigs[j];
        proof { assert(s0.skip(j as int).skip(1) =~= s0.skip(j + 1)); }
        if s == Signal::SIGSEGV || s == Signal::SIGKILL || s == Signal::SIGABRT {
            let code: i32 = 0 - (s.num() as i32);
            exit_current_and_run_next(k, code as usize);
            proof {
                assert(s0.skip(j as int)[0] == s);
                assert(fatal(s0.skip(j as int)[0]));
                assert(first_fatal(s0.skip(j as int)) == Some(s));
                assert(first_fatal(s0) == Some(s));
                assert(s0 == old(k).manager.tasks@[i as int].pending_signals@);
            }
            return Some(s);
        }
        j = j + 1;
    }
    proof { assert(s0.skip(j as int) =~= Seq::<Signal>::empty()); }
    None
}

/// Drops the task with id `pid` from the table; the running task stays current.
pub fn remove_task(k: &mut Kernel, pid: i32)
    requires old(k).wf(),
    ensures
        final(k).wf(),
        final(k).files == old(k).files && final(k).ctx == old(k).ctx,
        index_of(old(k).manager.tasks@, pid).is_none() ==> final(k).manager.tasks@ == old(k).manager.tasks@
            && final(k).current == old(k).current,
        index_of(old(k).manager.tasks@, pid) matches Some(j) ==> final(k).manager.tasks@ == old(k).manager.tasks@.remove(j),
        index_of(old(k).manager.tasks@, pid) matches Some(j) ==> final(k).current == (match old(k).current {
                Some(c) => if c as int == j { None } else if c as int > j { Some((c - 1) as usize) } else { Some(c) },
                None => None,
            }),
{
    proof { manager::lemma_index_of(old(k).manager.tasks@, pid); }
    let _n = k.manager.tasks.len();
    match k.manager.remove(pid) {
        Some(j) => {
            k.current = match k.current {
                Some(c) => if c == j { None } else if c > j { Some(c - 1) } else { Some(c) },
                None => None,
            };
            proof {
                let o = old(k).manager.tasks@;
                assert(k.manager.tasks@ == o.subrange(0, j as int) + o.subrange(j + 1, o.len() as int));
                assert forall|q: int| 0 <= q < k.manager.tasks@.len()
                    implies table_ok(#[trigger] k.manager.tasks@[q].fd_table@, k.files@.len() as int) by {
                    let q0 = if q < j { q } else { q + 1 };
                    let a = o.subrange(0, j as int);
                    let b = o.subrange(j + 1, o.len() as int);
                    if q < j {
                        assert((a + b)[q] == a[q]);
                    } else {
                        assert((a + b)[q] == b[q - a.len()]);
                    }
                    assert(k.manager.tasks@[q] == o[q0]);
                    assert(table_ok(o[q0].fd_table@, old(k).files@.len() as int));
                }
            }
        },
        None => {},
    }
}

} // verus!
