//! `execve`: replacing the running task's program, and laying out its arguments on the new
//! user stack.
use vstd::prelude::*;
use super::Kernel;
use super::errno::{ENOENT, ENOEXEC};
use crate::fs::tmpfs::{copy_bytes, Opened, TmpFs, NodeV, SYMLINK_MAX_DEPTH};
use crate::fs::tmpfile::{le_bytes, push_le};
use crate::fs::lex::bytes_eq;
use crate::mm::frame::StackFrameAllocator;
use crate::mm::memory_set::{MemorySet, user_byte, write_user_bytes, read_user_bytes};
use crate::mm::page_table::{PageTable, alloc_ok};
use crate::mm::phys::PhysMem;
use crate::arch::riscv64::trap::TrapContext;
use crate::task::context::TaskContext;
use crate::task::task::Task;
use crate::loader::{load_elf, elf_header_of, USER_STACK_TOP};
use super::tasks_except;

verus! {

/// `x` rounded down to a multiple of `a`.
pub open spec fn align_down(x: int, a: int) -> int {
    x - x % a
}

/// The arguments as byte strings.
pub open spec fn arg_seqs(args: Seq<Vec<u8>>) -> Seq<Seq<u8>> {
    args.map_values(|v: Vec<u8>| v@)
}

/// Where argument `i` and its NUL go: the arguments are pushed from the last one down from
/// `sp`, each starting at a multiple of 8.
pub open spec fn arg_addr(sp: int, a: Seq<Seq<u8>>, i: int) -> int
    decreases a.len() - i,
{
    if i < 0 || i >= a.len() {
        sp
    } else {
        align_down(arg_addr(sp, a, i + 1) - (a[i].len() + 1), 8)
    }
}

/// Where the argument vector starts: below the strings, at a multiple of 16, room for one
/// pointer per argument and a null one.
pub open spec fn argv_addr(sp: int, a: Seq<Seq<u8>>) -> int {
    align_down(arg_addr(sp, a, 0), 16) - 8 * (a.len() + 1)
}

/// The stack pointer the program starts with: at the argument count, below the vector.
pub open spec fn stack_sp(sp: int, a: Seq<Seq<u8>>) -> int {
    argv_addr(sp, a) - 8
}

/// Everything fits above address zero.
pub open spec fn stack_fits(sp: int, a: Seq<Seq<u8>>) -> bool {
    &&& forall|i: int| 0 <= i < a.len() ==> #[trigger] arg_addr(sp, a, i + 1) >= a[i].len() + 1
    &&& align_down(arg_addr(sp, a, 0), 16) >= 8 * (a.len() + 2)
}

/// The bytes from `va` read back as `data` through the table rooted at `root`.
pub open spec fn bytes_at(mem: PhysMem, root: int, va: int, data: Seq<u8>) -> bool {
    forall|j: int| 0 <= j < data.len() ==> #[trigger] user_byte(mem, root, va + j) == Some(data[j])
}

/// The stack holds, as the program expects it: each argument with its NUL, the vector of
/// their addresses ended by a null pointer, and below it the argument count.
pub open spec fn stack_written(mem: PhysMem, root: int, sp: int, a: Seq<Seq<u8>>) -> bool {
    let argv = argv_addr(sp, a);
    &&& forall|i: int| 0 <= i < a.len() ==> #[trigger] bytes_at(mem, root, arg_addr(sp, a, i), a[i].push(0u8))
    &&& forall|i: int| 0 <= i < a.len() ==> #[trigger] bytes_at(mem, root, argv + 8 * i, le_bytes(arg_addr(sp, a, i), 8))
    &&& bytes_at(mem, root, argv + 8 * a.len(), le_bytes(0, 8))
    &&& bytes_at(mem, root, argv - 8, le_bytes(a.len() as int, 8))
}

/// Under `stack_fits`, each argument with its NUL ends below the next one's start (or
/// `sp`), and no start passes `sp`.
proof fn lemma_arg_bounds(sp: int, a: Seq<Seq<u8>>, i: int)
    requires stack_fits(sp, a), 0 <= i <= a.len(), sp >= 0,
    ensures
        0 <= arg_addr(sp, a, i) <= sp,
        i < a.len() ==> arg_addr(sp, a, i) + a[i].len() + 1 <= arg_addr(sp, a, i + 1),
    decreases a.len() - i,
{
    if i < a.len() {
        lemma_arg_bounds(sp, a, i + 1);
        let x = arg_addr(sp, a, i + 1) - (a[i].len() + 1);
        assert(arg_addr(sp, a, i + 1) >= a[i].len() + 1);
        assert(x >= 0);
        assert(x % 8 >= 0 && x % 8 < 8);
    }
}

/// Whether the bytes at `va` read back as `data`.
fn reads_back(pt: &PageTable, mem: &PhysMem, va: usize, data: &[u8]) -> (ok: bool)
    requires mem.wf(),
    ensures
        ok ==> bytes_at(*mem, pt.root_ppn.0 as int, va as int, data@),
        bytes_at(*mem, pt.root_ppn.0 as int, va as int, data@) && va + data@.len() <= usize::MAX + 1 ==> ok,
{
    match read_user_bytes(pt, mem, va, data.len()) {
        Some(b) => {
            proof {
                if bytes_at(*mem, pt.root_ppn.0 as int, va as int, data@) {
                    assert forall|i: int| 0 <= i < data@.len() implies b@[i] == data@[i] by {
                        assert(user_byte(*mem, pt.root_ppn.0 as int, va + i) == Some(b@[i]));
                    }
                    assert(b@ =~= data@);
                }
            }
            bytes_eq(b.as_slice(), data)
        },
        None => false,
    }
}

proof fn lemma_le_len(v: int, n: nat)
    ensures le_bytes(v, n).len() == n,
    decreases n,
{
    if n > 0 {
        lemma_le_len(v / 256, (n - 1) as nat);
    }
}

/// `v` as eight little-endian bytes.
fn word_bytes(v: usize) -> (r: Vec<u8>)
    ensures r@ == le_bytes(v as int, 8), r@.len() == 8,
{
    let mut w: Vec<u8> = Vec::new();
    push_le(&mut w, v as u64, 8);
    proof { lemma_le_len(v as int, 8); }
    w
}

/// Lays the arguments out on the user stack whose top is `sp` (see `stack_written`; the
/// environment is not passed on; a byte whose page is not mapped to memory is not
/// written) and gives the stack pointer to start with. `None` where the layout would pass
/// below address zero (see `stack_fits`), or where the stack does not then read back as
/// laid out.
pub fn setup_stack(pt: &PageTable, mem: &mut PhysMem, sp: usize, args: &Vec<Vec<u8>>, envs: &Vec<Vec<u8>>)
    -> (r: Option<usize>)
    requires old(mem).wf(),
    ensures
        final(mem).wf(),
        final(mem).base_ppn == old(mem).base_ppn,
        final(mem).bytes.len() == old(mem).bytes.len(),
        !stack_fits(sp as int, arg_seqs(args@)) ==> r.is_none(),
        stack_fits(sp as int, arg_seqs(args@)) && stack_written(*final(mem), pt.root_ppn.0 as int, sp as int, arg_seqs(args@))
            ==> r.is_some(),
        r matches Some(s) ==> {
            &&& stack_fits(sp as int, arg_seqs(args@))
            &&& s as int == stack_sp(sp as int, arg_seqs(args@))
            &&& stack_written(*final(mem), pt.root_ppn.0 as int, sp as int, arg_seqs(args@))
        },
{
    let ghost a = arg_seqs(args@);
    let ghost root = pt.root_ppn.0 as int;
    let n = args.len();
    let mut addrs: Vec<usize> = Vec::new();
    let mut z: usize = 0;
    while z < n
        invariant z <= n, addrs@.len() == z,
        decreases n - z,
    {
        addrs.push(0);
        z = z + 1;
    }
    // the strings, from the last one down
    let mut cur: usize = sp;
    let mut i: usize = n;
    while i > 0
        invariant
            i <= n, n == args@.len(), a == arg_seqs(args@), a.len() == n, addrs@.len() == n,
            cur as int == arg_addr(sp as int, a, i as int),
            forall|j: int| i <= j < n ==> #[trigger] addrs@[j] as int == arg_addr(sp as int, a, j),
            forall|j: int| i <= j < n ==> #[trigger] arg_addr(sp as int, a, j + 1) >= a[j].len() + 1,
            mem.wf(),
            mem.base_ppn == old(mem).base_ppn,
            mem.bytes.len() == old(mem).bytes.len(),
        decreases i,
    {
        let len = args[i - 1].len();
        assert(a[i - 1] == args@[i - 1]@);
        if len >= cur {
            proof {
                let j = i - 1;
                assert(arg_addr(sp as int, a, j + 1) < a[j].len() + 1);
                assert(!stack_fits(sp as int, a));
            }
            return None;
        }
        let below = cur - len - 1;
        let at = below - below % 8;
        let mut s = copy_bytes(args[i - 1].as_slice());
        s.push(0u8);
        write_user_bytes(pt, mem, at, s.as_slice());
        addrs.set(i - 1, at);
        cur = at;
        i = i - 1;
    }
    let top = cur - cur % 16;
    if n > usize::MAX / 8 - 2 || top < 8 * (n + 2) {
        return None;
    }
    let argv = top - 8 * (n + 1);
    assert(cur as int == arg_addr(sp as int, a, 0));
    let null_word = word_bytes(0);
    write_user_bytes(pt, mem, argv + 8 * n, null_word.as_slice());
    let mut k: usize = n;
    while k > 0
        invariant
            k <= n, n <= usize::MAX / 8 - 2, argv + 8 * (n + 1) <= usize::MAX, addrs@.len() == n,
            a == arg_seqs(args@), a.len() == n, n == args@.len(),
            argv as int == argv_addr(sp as int, a),
            top as int == align_down(arg_addr(sp as int, a, 0), 16), top >= 8 * (n + 2),
            forall|j: int| 0 <= j < n ==> #[trigger] addrs@[j] as int == arg_addr(sp as int, a, j),
            forall|j: int| 0 <= j < n ==> #[trigger] arg_addr(sp as int, a, j + 1) >= a[j].len() + 1,
            mem.wf(),
            mem.base_ppn == old(mem).base_ppn,
            mem.bytes.len() == old(mem).bytes.len(),
        decreases k,
    {
        let w = word_bytes(addrs[k - 1]);
        write_user_bytes(pt, mem, argv + 8 * (k - 1), w.as_slice());
        k = k - 1;
    }
    let argc = word_bytes(n);
    write_user_bytes(pt, mem, argv - 8, argc.as_slice());
    // every piece must read back as written
    proof {
        lemma_arg_bounds(sp as int, a, 0);
        assert forall|j: int| 0 <= j < n implies #[trigger] arg_addr(sp as int, a, j) + a[j].len() + 1 <= sp by {
            lemma_arg_bounds(sp as int, a, j);
            lemma_arg_bounds(sp as int, a, j + 1);
        }
        let x = arg_addr(sp as int, a, 0);
        assert(x % 16 >= 0);
    }
    let mut c: usize = 0;
    while c < n
        invariant
            c <= n, n == args@.len(), a == arg_seqs(args@), a.len() == n, addrs@.len() == n,
            n <= usize::MAX / 8 - 2, argv + 8 * (n + 1) <= usize::MAX,
            argv as int == argv_addr(sp as int, a),
            forall|j: int| 0 <= j < n ==> #[trigger] addrs@[j] as int == arg_addr(sp as int, a, j),
            stack_fits(sp as int, a),
            forall|j: int| 0 <= j < n ==> #[trigger] arg_addr(sp as int, a, j) + a[j].len() + 1 <= sp,
            argv + 8 * (n + 1) <= sp,
            root == pt.root_ppn.0 as int,
            mem.wf(),
            mem.base_ppn == old(mem).base_ppn,
            mem.bytes.len() == old(mem).bytes.len(),
            forall|j: int| 0 <= j < c ==> #[trigger] bytes_at(*mem, root, arg_addr(sp as int, a, j), a[j].push(0u8)),
            forall|j: int| 0 <= j < c ==> #[trigger] bytes_at(*mem, root, argv + 8 * j, le_bytes(arg_addr(sp as int, a, j), 8)),
        decreases n - c,
    {
        let mut s = copy_bytes(args[c].as_slice());
        s.push(0u8);
        assert(s@ == a[c as int].push(0u8));
        if !reads_back(pt, mem, addrs[c], s.as_slice()) {
            proof {
                assert(!bytes_at(*mem, root, arg_addr(sp as int, a, c as int), a[c as int].push(0u8)));
                assert(!stack_written(*mem, root, sp as int, a));
            }
            return None;
        }
        let w = word_bytes(addrs[c]);
        if !reads_back(pt, mem, argv + 8 * c, w.as_slice()) {
            proof {
                assert(!bytes_at(*mem, root, argv + 8 * c, le_bytes(arg_addr(sp as int, a, c as int), 8)));
                assert(!stack_written(*mem, root, sp as int, a));
            }
            return None;
        }
        assert(bytes_at(*mem, root, arg_addr(sp as int, a, c as int), a[c as int].push(0u8)));
        assert(bytes_at(*mem, root, argv + 8 * c, le_bytes(arg_addr(sp as int, a, c as int), 8)));
        c = c + 1;
    }
    if !reads_back(pt, mem, argv + 8 * n, null_word.as_slice()) {
        proof { assert(!stack_written(*mem, root, sp as int, a)); }
        return None;
    }
    if !reads_back(pt, mem, argv - 8, argc.as_slice()) {
        proof { assert(!stack_written(*mem, root, sp as int, a)); }
        return None;
    }
    Some(argv - 8)
}

/// What the machine side provides for `execve`: the kernel's address space (`satp`), the
/// current `sstatus`, where the task's trap context sits on its kernel stack, and the
/// address of the trap return path.
#[derive(Debug, Clone, Copy)]
pub struct ExecEnv {
    pub kernel_satp: usize,
    pub sstatus: usize,
    pub trap_cx_addr: usize,
    pub trap_return: usize,
}

/// How an `execve` ended: an error, or the new program's address space, which the task now
/// runs.
pub enum Exec {
    Failed(i64),
    Loaded(MemorySet),
}

/// The program file that `execve` of `path` runs: what opening it for reading reaches
/// (following symbolic links), a regular file's bytes, or no bytes for a directory.
pub open spec fn exec_image(fs: TmpFs, path: Seq<u8>) -> Option<Seq<u8>> {
    match crate::fs::rel_path(path) {
        None => None,
        Some(rel) => match fs.open_walk(rel, false, SYMLINK_MAX_DEPTH as nat) {
            None => None,
            Some(p) => match fs.node_at(p) {
                Some(NodeV::File { data, .. }) => Some(data),
                _ => Some(Seq::empty()),
            },
        },
    }
}

/// Opening without creating reaches only a node that is there and is not a link.
proof fn lemma_walk_found(fs: TmpFs, raw: Seq<u8>, fuel: nat)
    ensures
        fs.open_walk(raw, false, fuel) matches Some(p) ==> fs.node_at(p) is Some && !(fs.node_at(p) matches Some(NodeV::Symlink(_))),
    decreases fuel,
{
    let p = crate::fs::path::normalized(raw);
    match fs.node_at(p) {
        Some(NodeV::Symlink(t)) => {
            if fuel > 0 {
                lemma_walk_found(fs, crate::fs::tmpfs::link_raw(raw, t), (fuel - 1) as nat);
            }
        },
        _ => {},
    }
}

/// The running task after `execve` loaded a program into the address space with root
/// `root` and entry point `entry`, with stack pointer `sp`: it enters user mode there, in
/// that address space, through the trap return path; the rest of it is as before.
pub open spec fn exec_task(t0: Task, t1: Task, root: int, entry: int, sp: int, env: ExecEnv) -> bool {
    let token = (0x8000_0000_0000_0000u64 + root) as usize;
    &&& t1 == (Task { token: token, trap_cx: t1.trap_cx, task_cx: t1.task_cx, ..t0 })
    &&& t1.trap_cx.sepc == entry
    &&& t1.trap_cx.x@[2] == sp
    &&& forall|i: int| 0 <= i < 32 && i != 2 ==> t1.trap_cx.x@[i] == 0
    &&& t1.trap_cx.sstatus == (env.sstatus & !crate::arch::riscv64::trap::SSTATUS_SPP) | crate::arch::riscv64::trap::SSTATUS_SPIE
    &&& t1.trap_cx.user_satp == token && t1.trap_cx.kernel_satp == env.kernel_satp
    &&& t1.task_cx.ra == env.trap_return && t1.task_cx.sp == env.trap_cx_addr
    &&& forall|i: int| 0 <= i < 12 ==> t1.task_cx.s@[i] == 0
}

/// Opens `path` for reading and takes the bytes of what it reaches (none for a directory);
/// the file system keeps its contents.
pub fn open_image(fs: &mut TmpFs, path: &[u8], now_ms: u64) -> (r: Option<Vec<u8>>)
    requires old(fs).wf(),
    ensures
        final(fs).wf(),
        final(fs).next_ino == old(fs).next_ino,
        forall|q: Seq<u8>| #[trigger] final(fs).node_at(q) == old(fs).node_at(q),
        r.is_none() ==> exec_image(*old(fs), path@).is_none() && *final(fs) == *old(fs),
        r matches Some(d) ==> exec_image(*old(fs), path@) == Some(d@),
{
    let ghost fs0 = *fs;
    assert((0i32 & 0x40) == 0 && (0i32 & 0x200) == 0 && (0i32 & 3) == 0) by (bit_vector);
    let data: Vec<u8> = match crate::fs::open(fs, path, 0, 0, now_ms) {
        Some(Opened::File(f)) => f.data,
        Some(Opened::Dir(d)) => Vec::new(),
        None => return None,
    };
    proof {
        let rel = crate::fs::rel_path(path@).unwrap();
        let p = fs0.open_walk(rel, false, SYMLINK_MAX_DEPTH as nat).unwrap();
        lemma_walk_found(fs0, rel, SYMLINK_MAX_DEPTH as nat);
        assert(crate::fs::vfs::OpenOptions::spec_from_flags(0).truncate == false);
        assert forall|q: Seq<u8>| #[trigger] fs.node_at(q) == fs0.node_at(q) by {
            if q == p {
            }
        }
    }
    Some(data)
}

/// `execve`: runs the program at `path` in the running task. ENOENT (-2) when the path
/// leads nowhere; ENOEXEC (-8) when the file is not a program this loader takes (see
/// `load_elf`, which builds the new address space on `space`) or the arguments cannot be
/// laid out on its stack (see `setup_stack`). On success the task's address space, trap
/// context and switch context are replaced (see `exec_task`); its descriptors and all else
/// stay.
pub fn sys_execve(k: &mut Kernel, path: &[u8], args: &Vec<Vec<u8>>, envs: &Vec<Vec<u8>>, space: MemorySet,
    fa: &mut StackFrameAllocator, mem: &mut PhysMem, env: ExecEnv) -> (r: Exec)
    requires
        old(k).running(),
        alloc_ok(*old(fa), *old(mem)),
        space.page_table.root_ppn.0 < 0x1000_0000_0000,
    ensures
        final(k).running(),
        alloc_ok(*final(fa), *final(mem)),
        final(k).files == old(k).files,
        final(k).ctx.pipes == old(k).ctx.pipes && final(k).ctx.console == old(k).ctx.console,
        final(k).ctx.now_ms == old(k).ctx.now_ms,
        final(k).ctx.fs.next_ino == old(k).ctx.fs.next_ino,
        forall|q: Seq<u8>| #[trigger] final(k).ctx.fs.node_at(q) == old(k).ctx.fs.node_at(q),
        final(k).same_rest(*old(k)),
        final(k).manager.ready_queue == old(k).manager.ready_queue,
        exec_image(old(k).ctx.fs, path@).is_none() ==> r == Exec::Failed(ENOENT) && final(k).manager == old(k).manager,
        r matches Exec::Failed(e) ==> (e == ENOENT || e == ENOEXEC) && final(k).manager == old(k).manager,
        r matches Exec::Loaded(ms) ==> exec_image(old(k).ctx.fs, path@) matches Some(img)
            && elf_header_of(img) matches Some(h) && {
            let root = space.page_table.root_ppn.0 as int;
            &&& ms.page_table.root_ppn == space.page_table.root_ppn
            &&& tasks_except(old(k).manager.tasks@, final(k).manager.tasks@, old(k).cur())
            &&& stack_fits(USER_STACK_TOP as int, arg_seqs(args@))
            &&& exec_task(old(k).cur_task(), final(k).cur_task(), root, (h.entry as usize) as int,
                    stack_sp(USER_STACK_TOP as int, arg_seqs(args@)), env)
            &&& stack_written(*final(mem), root, USER_STACK_TOP as int, arg_seqs(args@))
        },
{
    let now = k.ctx.now_ms;
    let ghost k0 = *k;
    let data = match open_image(&mut k.ctx.fs, path, now) {
        Some(d) => d,
        None => return Exec::Failed(ENOENT),
    };
    let l = match load_elf(data.as_slice(), space, fa, mem) {
        Some(l) => l,
        None => return Exec::Failed(ENOEXEC),
    };
    let sp = match setup_stack(&l.memory.page_table, mem, l.stack_top, args, envs) {
        Some(sp) => sp,
        None => return Exec::Failed(ENOEXEC),
    };
    let token = l.memory.token();
    let i = k.current.unwrap();
    let mut cx = TrapContext::new(l.entry, sp, env.sstatus);
    cx.user_satp = token;
    cx.kernel_satp = env.kernel_satp;
    k.manager.tasks[i].token = token;
    k.manager.tasks[i].trap_cx = cx;
    k.manager.tasks[i].task_cx = TaskContext::goto_trap_return(env.trap_cx_addr, env.trap_return);
    proof {
        assert forall|j: int| 0 <= j < k.manager.tasks@.len()
            implies crate::syscall::table_ok(#[trigger] k.manager.tasks@[j].fd_table@, k.files@.len() as int) by {
            assert(crate::syscall::table_ok(k0.manager.tasks@[j].fd_table@, k0.files@.len() as int));
        }
    }
    Exec::Loaded(l.memory)
}

} // verus!
