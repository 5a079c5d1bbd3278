//! System call numbers (RISC-V 64 Linux) and the dispatch of the calls whose arguments are
//! plain numbers; calls that read or write user memory are left to the caller.
use vstd::prelude::*;
use super::Kernel;
use super::errno::{EBADF, ENOSYS, EINVAL};
use super::{file, process, memory, network, signal, misc, epoll};

verus! {

pub const IO_SETUP: usize = 0;
pub const IO_DESTROY: usize = 1;
pub const IO_SUBMIT: usize = 2;
pub const IO_CANCEL: usize = 3;
pub const IO_GETEVENTS: usize = 4;
pub const GETCWD: usize = 17;
pub const EVENTFD2: usize = 19;
pub const EPOLL_CREATE1: usize = 20;
pub const EPOLL_CTL: usize = 21;
pub const EPOLL_PWAIT: usize = 22;
pub const DUP: usize = 23;
pub const DUP3: usize = 24;
pub const FCNTL: usize = 25;
pub const INOTIFY_INIT1: usize = 26;
pub const INOTIFY_ADD_WATCH: usize = 27;
pub const INOTIFY_RM_WATCH: usize = 28;
pub const IOCTL: usize = 29;
pub const FLOCK: usize = 32;
pub const MKDIRAT: usize = 34;
pub const UNLINKAT: usize = 35;
pub const SYMLINKAT: usize = 36;
pub const LINKAT: usize = 37;
pub const RENAMEAT: usize = 38;
pub const STATFS: usize = 43;
pub const FSTATFS: usize = 44;
pub const FTRUNCATE: usize = 46;
pub const FALLOCATE: usize = 47;
pub const FACCESSAT: usize = 48;
pub const CHDIR: usize = 49;
pub const FCHDIR: usize = 50;
pub const FCHMOD: usize = 52;
pub const FCHMODAT: usize = 53;
pub const FCHOWNAT: usize = 54;
pub const FCHOWN: usize = 55;
pub const OPENAT: usize = 56;
pub const CLOSE: usize = 57;
pub const PIPE2: usize = 59;
pub const GETDENTS64: usize = 61;
pub const LSEEK: usize = 62;
pub const READ: usize = 63;
pub const WRITE: usize = 64;
pub const READV: usize = 65;
pub const WRITEV: usize = 66;
pub const PREAD64: usize = 67;
pub const PWRITE64: usize = 68;
pub const SENDFILE: usize = 71;
pub const PSELECT6: usize = 72;
pub const PPOLL: usize = 73;
pub const READLINKAT: usize = 78;
pub const NEWFSTATAT: usize = 79;
pub const FSTAT: usize = 80;
pub const SYNC: usize = 81;
pub const FSYNC: usize = 82;
pub const FDATASYNC: usize = 83;
pub const TIMERFD_CREATE: usize = 85;
pub const TIMERFD_SETTIME: usize = 86;
pub const TIMERFD_GETTIME: usize = 87;
pub const UTIMENSAT: usize = 88;
pub const CAPGET: usize = 90;
pub const CAPSET: usize = 91;
pub const PERSONALITY: usize = 92;
pub const EXIT: usize = 93;
pub const EXIT_GROUP: usize = 94;
pub const WAITID: usize = 95;
pub const SET_TID_ADDRESS: usize = 96;
pub const FUTEX: usize = 98;
pub const SET_ROBUST_LIST: usize = 99;
pub const GET_ROBUST_LIST: usize = 100;
pub const NANOSLEEP: usize = 101;
pub const CLOCK_GETTIME: usize = 113;
pub const CLOCK_GETRES: usize = 114;
pub const CLOCK_NANOSLEEP: usize = 115;
pub const SCHED_SETPARAM: usize = 118;
pub const SCHED_SETSCHEDULER: usize = 119;
pub const SCHED_GETSCHEDULER: usize = 120;
pub const SCHED_GETPARAM: usize = 121;
pub const SCHED_SETAFFINITY: usize = 122;
pub const SCHED_GETAFFINITY: usize = 123;
pub const SCHED_YIELD: usize = 124;
pub const KILL: usize = 129;
pub const TKILL: usize = 130;
pub const TGKILL: usize = 131;
pub const SIGALTSTACK: usize = 132;
pub const RT_SIGSUSPEND: usize = 133;
pub const RT_SIGACTION: usize = 134;
pub const RT_SIGPROCMASK: usize = 135;
pub const RT_SIGRETURN: usize = 139;
pub const REBOOT: usize = 142;
pub const SETREGID: usize = 143;
pub const SETGID: usize = 144;
pub const SETREUID: usize = 145;
pub const SETUID: usize = 146;
pub const SETRESUID: usize = 147;
pub const GETRESUID: usize = 148;
pub const SETRESGID: usize = 149;
pub const GETRESGID: usize = 150;
pub const TIMES: usize = 153;
pub const SETPGID: usize = 154;
pub const GETPGID: usize = 155;
pub const GETSID: usize = 156;
pub const SETSID: usize = 157;
pub const GETGROUPS: usize = 158;
pub const SETGROUPS: usize = 159;
pub const UNAME: usize = 160;
pub const GETRLIMIT: usize = 163;
pub const SETRLIMIT: usize = 164;
pub const GETRUSAGE: usize = 165;
pub const UMASK: usize = 166;
pub const PRCTL: usize = 167;
pub const GETTIMEOFDAY: usize = 169;
pub const GETPID: usize = 172;
pub const GETPPID: usize = 173;
pub const GETUID: usize = 174;
pub const GETEUID: usize = 175;
pub const GETGID: usize = 176;
pub const GETEGID: usize = 177;
pub const GETTID: usize = 178;
pub const SYSINFO: usize = 179;
pub const SOCKET: usize = 198;
pub const SOCKETPAIR: usize = 199;
pub const BIND: usize = 200;
pub const LISTEN: usize = 201;
pub const ACCEPT: usize = 202;
pub const CONNECT: usize = 203;
pub const GETSOCKNAME: usize = 204;
pub const GETPEERNAME: usize = 205;
pub const SENDTO: usize = 206;
pub const RECVFROM: usize = 207;
pub const SETSOCKOPT: usize = 208;
pub const GETSOCKOPT: usize = 209;
pub const SHUTDOWN: usize = 210;
pub const SENDMSG: usize = 211;
pub const RECVMSG: usize = 212;
pub const BRK: usize = 214;
pub const MUNMAP: usize = 215;
pub const CLONE: usize = 220;
pub const EXECVE: usize = 221;
pub const MMAP: usize = 222;
pub const MPROTECT: usize = 226;
pub const MSYNC: usize = 227;
pub const MLOCK: usize = 228;
pub const MUNLOCK: usize = 229;
pub const MLOCKALL: usize = 230;
pub const MUNLOCKALL: usize = 231;
pub const MINCORE: usize = 232;
pub const MADVISE: usize = 233;
pub const ACCEPT4: usize = 242;
pub const WAIT4: usize = 260;
pub const PRLIMIT64: usize = 261;
pub const SECCOMP: usize = 277;
pub const GETRANDOM: usize = 278;
pub const MEMBARRIER: usize = 283;
pub const MLOCK2: usize = 284;
pub const RSEQ: usize = 293;
pub const CLOSE_RANGE: usize = 436;
pub const FACCESSAT2: usize = 439;
pub const EPOLL_PWAIT2: usize = 441;

/// The calls answered by a constant, whatever the arguments and the state: stubs that
/// succeed, calls refused as unimplemented, and every unknown number.
pub open spec fn fixed_result(id: usize) -> Option<i64> {
    if id == FCHOWNAT || id == FCHOWN || id == UTIMENSAT || id == FSYNC || id == FDATASYNC
        || id == SYNC || id == FALLOCATE || id == GETUID || id == GETEUID || id == GETGID
        || id == GETEGID || id == SETUID || id == SETREUID || id == SETRESUID || id == SETGID
        || id == SETREGID || id == SETRESGID || id == SETGROUPS || id == SETPGID || id == PRCTL
        || id == SETRLIMIT || id == PERSONALITY || id == CAPGET || id == CAPSET || id == MUNMAP
        || id == MPROTECT || id == MADVISE || id == MSYNC || id == MLOCK || id == MUNLOCK
        || id == MLOCKALL || id == MUNLOCKALL || id == MLOCK2 || id == MINCORE || id == SHUTDOWN
        || id == SIGALTSTACK || id == SCHED_GETSCHEDULER || id == SCHED_SETSCHEDULER
        || id == SCHED_SETPARAM || id == SCHED_GETPARAM || id == SCHED_SETAFFINITY
        || id == SET_ROBUST_LIST || id == GET_ROBUST_LIST || id == MEMBARRIER
        || id == TIMERFD_SETTIME || id == TIMERFD_GETTIME || id == IO_DESTROY || id == IO_SUBMIT
        || id == IO_GETEVENTS {
        Some(0)
    } else if id == UMASK {
        Some(0o022)
    } else if id == IO_CANCEL {
        Some(EINVAL)
    } else if routed(id) || needs_memory(id) {
        None
    } else {
        Some(ENOSYS)
    }
}

/// The calls this dispatch hands to their handler with the numbers as arguments.
pub open spec fn routed(id: usize) -> bool {
    id == CLOSE || id == LSEEK || id == DUP || id == DUP3 || id == FCNTL || id == FTRUNCATE
        || id == FLOCK || id == FCHDIR || id == FCHMOD || id == GETPID || id == GETPPID
        || id == GETTID || id == GETPGID || id == GETSID || id == SETSID || id == EXIT
        || id == EXIT_GROUP || id == SET_TID_ADDRESS || id == BRK || id == SOCKET || id == LISTEN
        || id == KILL || id == TKILL || id == TGKILL || id == EPOLL_CREATE1 || id == SCHED_YIELD
        || id == EVENTFD2 || id == TIMERFD_CREATE || id == INOTIFY_INIT1 || id == CLOSE_RANGE
        || id == INOTIFY_ADD_WATCH || id == INOTIFY_RM_WATCH || id == SECCOMP || id == RSEQ
}

/// The calls that read or write user memory, or reach the machine: the caller copies in
/// and out and calls their handlers itself.
pub open spec fn needs_memory(id: usize) -> bool {
    id == READ || id == WRITE || id == OPENAT || id == FSTAT || id == NEWFSTATAT || id == READV
        || id == WRITEV || id == PREAD64 || id == PWRITE64 || id == PIPE2 || id == IOCTL
        || id == GETDENTS64 || id == READLINKAT || id == FACCESSAT || id == FACCESSAT2
        || id == MKDIRAT || id == UNLINKAT || id == RENAMEAT || id == SENDFILE || id == GETCWD
        || id == CHDIR || id == FCHMODAT || id == STATFS || id == FSTATFS || id == SYMLINKAT
        || id == LINKAT || id == GETRESUID || id == GETRESGID || id == GETGROUPS || id == CLONE
        || id == EXECVE || id == WAIT4 || id == WAITID || id == GETRLIMIT || id == PRLIMIT64
        || id == GETRUSAGE || id == MMAP || id == BIND || id == ACCEPT || id == ACCEPT4
        || id == CONNECT || id == GETSOCKNAME || id == GETPEERNAME || id == SENDTO || id == RECVFROM
        || id == SETSOCKOPT || id == GETSOCKOPT || id == SENDMSG || id == RECVMSG || id == SOCKETPAIR
        || id == RT_SIGACTION || id == RT_SIGPROCMASK || id == RT_SIGRETURN || id == RT_SIGSUSPEND
        || id == CLOCK_GETTIME || id == CLOCK_GETRES || id == CLOCK_NANOSLEEP || id == NANOSLEEP
        || id == GETTIMEOFDAY || id == TIMES || id == EPOLL_CTL || id == EPOLL_PWAIT
        || id == EPOLL_PWAIT2 || id == PSELECT6 || id == PPOLL || id == UNAME || id == SYSINFO
        || id == GETRANDOM || id == SCHED_GETAFFINITY || id == FUTEX || id == IO_SETUP || id == REBOOT
}

/// The running task's descriptor table can take `n` more slots.
fn has_room(k: &Kernel, n: usize) -> (r: bool)
    requires k.running(),
    ensures r == k.fd_room(n as int),
{
    let i = k.current.unwrap();
    (k.manager.tasks[i].fd_table.len() as u128) + (n as u128) <= (i64::MAX as u128)
}

/// What dispatching system call `id` does to the kernel and gives.
pub open spec fn syscall_post(k0: Kernel, k1: Kernel, id: usize, args: [usize; 6], r: Option<i64>) -> bool {
    &&& k1.wf()
    &&& k1.manager.tasks@.len() == k0.manager.tasks@.len()
    &&& (forall|j: int| 0 <= j < k0.manager.tasks@.len() ==>
        #[trigger] k1.manager.tasks@[j].trap_cx == k0.manager.tasks@[j].trap_cx)
    &&& fixed_result(id) matches Some(v) ==> r == Some(v) && k1 == k0
    &&& needs_memory(id) ==> r.is_none() && k1 == k0
    &&& r.is_none() ==> k1 == k0
    &&& id == GETPID || id == GETTID ==> r == Some(k0.cur_task().pid as i64)
    &&& id == INOTIFY_ADD_WATCH || id == INOTIFY_RM_WATCH || id == SECCOMP || id == RSEQ ==> r == Some(ENOSYS) && k1 == k0
    &&& id == FCHMOD || id == SCHED_YIELD || id == EXIT || id == EXIT_GROUP ==> r == Some(0i64)
    &&& id == CLOSE || id == FLOCK ==> r == Some(if k0.fd_obj(args[0] as int).is_none() { EBADF } else { 0i64 })
    &&& id == CLOSE ==> file::close_post(k0, k1, args[0], r.unwrap())
    &&& id == EXIT || id == EXIT_GROUP ==> process::exit_post(k0, k1, args[0] as i32)
    &&& id == LSEEK ==> (r matches Some(v) && file::lseek_post(k0, k1, args[0], args[1] as i64, args[2] as i32, v))
    &&& (id == DUP3 ==> (r.is_some() <==> args[1] < i64::MAX)
        && (r matches Some(v) ==> file::dup3_post(k0, k1, args[0], args[1], args[2] as i32, v)))
    &&& (id == FCNTL ==> (r.is_some() <==> k0.fd_room(1) && (args[1] as i32 == 0 ==> args[2] < i64::MAX))
        && (r matches Some(v) ==> file::fcntl_post(k0, k1, args[0], args[1] as i32, args[2], v)))
    &&& (id == FTRUNCATE ==> (r.is_some() <==> (args[1] as i64) as u64 <= usize::MAX)
        && (r matches Some(v) ==> file::ftruncate_post(k0, k1, args[0], args[1] as i64, v)))
    &&& id == FCHDIR ==> (r matches Some(v) && file::fchdir_post(k0, k1, args[0], v))
    &&& id == SETSID ==> (r matches Some(v) && process::setsid_post(k0, k1, v))
    &&& id == SET_TID_ADDRESS ==> (r matches Some(v) && process::set_tid_address_post(k0, k1, args[0], v))
    &&& id == BRK ==> (r matches Some(v) && memory::brk_post(k0, k1, args[0], v))
    &&& id == LISTEN ==> (r matches Some(v) && network::listen_post(k0, k1, args[0], args[1] as i32, v))
    &&& id == KILL ==> r == Some(0i64) && signal::kill_post(k0, k1, args[0] as i32, args[1] as i32)
    &&& id == TKILL || id == TGKILL ==> r == Some(0i64) && signal::kill_post(k0, k1, args[0] as i32, args[2] as i32)
    &&& id == SETPGID || id == PRCTL ==> r == Some(0i64) && k1 == k0
    &&& id == UMASK ==> r == Some(0o022i64) && k1 == k0
    &&& (id == GETPPID ==> r == Some(match k0.cur_task().parent {
        Some(pp) => if crate::task::manager::index_of(k0.manager.tasks@, pp).is_some() { pp as i64 } else { 0i64 },
        None => 0i64,
    }))
    &&& id == GETPGID ==> r == Some(if args[0] as i32 == 0 { k0.cur_task().pgid as i64 } else { (args[0] as i32) as i64 })
    &&& id == GETSID ==> r == Some(if args[0] as i32 == 0 { k0.cur_task().sid as i64 } else { (args[0] as i32) as i64 })
    &&& (id == DUP ==> (r.is_some() <==> k0.fd_room(1)) && (r matches Some(v) ==> v == (if k0.fd_obj(args[0] as int).is_none() {
        EBADF } else { crate::task::task::first_free(k0.cur_task().fd_table@) as i64 })))
    &&& (id == SOCKET || id == EPOLL_CREATE1 || id == EVENTFD2 || id == TIMERFD_CREATE || id == INOTIFY_INIT1 ==>
        (r.is_some() <==> k0.fd_room(1)) && (r matches Some(v) ==> v == crate::task::task::first_free(k0.cur_task().fd_table@)))
    &&& id == CLOSE_RANGE ==> (r.is_some() <==> k0.cur_task().fd_table@.len() > 0) && (r matches Some(v) ==> v == 0)
}

/// Dispatches system call `id` with arguments `args` when they are plain numbers: the
/// result, or `None` for a call the caller handles (one that needs user memory, or whose
/// handler's condition on the state does not hold).
pub fn syscall(k: &mut Kernel, id: usize, args: [usize; 6]) -> (r: Option<i64>)
    requires old(k).running(),
    ensures syscall_post(*old(k), *final(k), id, args, r),
{
    proof { crate::task::task::lemma_first_free(old(k).cur_task().fd_table@, 0); }
    let r: i64 = match id {
        FCHOWNAT | FCHOWN | UTIMENSAT | FSYNC | FDATASYNC | SYNC | FALLOCATE | SETUID | SETREUID
        | SETRESUID | SETGID | SETREGID | SETRESGID | SETGROUPS | CAPGET | CAPSET | MADVISE
        | MSYNC | MLOCK | MUNLOCK | MLOCKALL | MUNLOCKALL | MLOCK2 | MINCORE | SIGALTSTACK
        | SCHED_GETSCHEDULER | SCHED_SETSCHEDULER | SCHED_SETPARAM | SCHED_GETPARAM
        | SCHED_SETAFFINITY | SET_ROBUST_LIST | GET_ROBUST_LIST | MEMBARRIER | TIMERFD_SETTIME
        | TIMERFD_GETTIME | IO_DESTROY | IO_SUBMIT | IO_GETEVENTS => 0,
        IO_CANCEL => EINVAL,
        INOTIFY_ADD_WATCH | INOTIFY_RM_WATCH | SECCOMP | RSEQ => ENOSYS,
        GETUID | GETEUID => process::sys_getuid(),
        GETGID | GETEGID => process::sys_getgid(),
        SETPGID => process::sys_setpgid(args[0] as i32, args[1] as i32),
        PRCTL => process::sys_prctl(args[0] as i32, args[1], args[2], args[3], args[4]),
        SETRLIMIT => process::sys_setrlimit(args[0] as u32, 0, 0),
        UMASK => process::sys_umask(args[0] as u32),
        PERSONALITY => process::sys_personality(args[0] as u32),
        MUNMAP => memory::sys_munmap(args[0], args[1]),
        MPROTECT => memory::sys_mprotect(args[0], args[1], args[2] as i32),
        SHUTDOWN => network::sys_shutdown(args[0], args[1] as i32),
        CLOSE => file::sys_close(k, args[0]),
        LSEEK => file::sys_lseek(k, args[0], args[1] as i64, args[2] as i32),
        DUP => {
            if !has_room(k, 1) {
                return None;
            }
            file::sys_dup(k, args[0])
        },
        DUP3 => {
            if args[1] as u128 >= i64::MAX as u128 {
                return None;
            }
            file::sys_dup3(k, args[0], args[1], args[2] as i32)
        },
        FCNTL => {
            if (args[1] as i32 == 0 && args[2] as u128 >= i64::MAX as u128) || !has_room(k, 1) {
                return None;
            }
            file::sys_fcntl(k, args[0], args[1] as i32, args[2])
        },
        FTRUNCATE => {
            if (args[1] as i64) as u64 as u128 > usize::MAX as u128 {
                return None;
            }
            file::sys_ftruncate(k, args[0], args[1] as i64)
        },
        FLOCK => file::sys_flock(k, args[0], args[1] as i32),
        FCHDIR => file::sys_fchdir(k, args[0]),
        FCHMOD => file::sys_fchmod(k, args[0], args[1] as u32),
        GETPID => process::sys_getpid(k),
        GETPPID => process::sys_getppid(k),
        GETTID => process::sys_gettid(k),
        GETPGID => process::sys_getpgid(k, args[0] as i32),
        GETSID => process::sys_getsid(k, args[0] as i32),
        SETSID => process::sys_setsid(k),
        EXIT => {
            process::sys_exit(k, args[0] as i32);
            0
        },
        EXIT_GROUP => {
            process::sys_exit_group(k, args[0] as i32);
            0
        },
        SET_TID_ADDRESS => process::sys_set_tid_address(k, args[0]),
        BRK => memory::sys_brk(k, args[0]),
        SOCKET => {
            if !has_room(k, 1) {
                return None;
            }
            network::sys_socket(k, args[0] as i32, args[1] as i32, args[2] as i32)
        },
        LISTEN => network::sys_listen(k, args[0], args[1] as i32),
        KILL => signal::sys_kill(k, args[0] as i32, args[1] as i32),
        TKILL | TGKILL => signal::sys_tkill(k, args[0] as i32, args[1] as i32, args[2] as i32),
        EPOLL_CREATE1 => {
            if !has_room(k, 1) {
                return None;
            }
            let ghost t0 = k.cur_task().fd_table@;
            let v = epoll::sys_epoll_create1(k, args[0] as i32);
            proof { crate::task::task::lemma_first_free(t0, v as int); }
            v
        },
        SCHED_YIELD => {
            crate::task::suspend_current_and_run_next(k);
            proof {
                let i = old(k).cur();
                let me = old(k).manager.tasks@[i];
                let q = old(k).manager.ready_queue@.push(me.pid);
                let t1 = old(k).manager.tasks@.update(i, crate::task::task::Task { state: crate::task::task::TaskState::Ready, ..me });
                crate::task::manager::lemma_index_of(t1, q[0]);
                assert forall|j: int| 0 <= j < old(k).manager.tasks@.len()
                    implies #[trigger] k.manager.tasks@[j].trap_cx == old(k).manager.tasks@[j].trap_cx by {
                    assert(t1[j].trap_cx == old(k).manager.tasks@[j].trap_cx);
                }
            }
            0
        },
        EVENTFD2 => {
            if !has_room(k, 1) {
                return None;
            }
            misc::sys_eventfd2(k, args[0] as u32, args[1] as i32)
        },
        TIMERFD_CREATE => {
            if !has_room(k, 1) {
                return None;
            }
            misc::sys_timerfd_create(k, args[0] as i32, args[1] as i32)
        },
        INOTIFY_INIT1 => {
            if !has_room(k, 1) {
                return None;
            }
            misc::sys_inotify_init1(k, args[0] as i32)
        },
        CLOSE_RANGE => {
            let i = k.current.unwrap();
            if k.manager.tasks[i].fd_table.len() == 0 {
                return None;
            }
            file::sys_close_range(k, args[0] as u32, args[1] as u32, args[2] as i32)
        },
        READ | WRITE | OPENAT | FSTAT | NEWFSTATAT | READV | WRITEV | PREAD64 | PWRITE64 | PIPE2
        | IOCTL | GETDENTS64 | READLINKAT | FACCESSAT | FACCESSAT2 | MKDIRAT | UNLINKAT | RENAMEAT
        | SENDFILE | GETCWD | CHDIR | FCHMODAT | STATFS | FSTATFS | SYMLINKAT | LINKAT | GETRESUID
        | GETRESGID | GETGROUPS | CLONE | EXECVE | WAIT4 | WAITID | GETRLIMIT | PRLIMIT64
        | GETRUSAGE | MMAP | BIND | ACCEPT | ACCEPT4 | CONNECT | GETSOCKNAME | GETPEERNAME | SENDTO
        | RECVFROM | SETSOCKOPT | GETSOCKOPT | SENDMSG | RECVMSG | SOCKETPAIR | RT_SIGACTION
        | RT_SIGPROCMASK | RT_SIGRETURN | RT_SIGSUSPEND | CLOCK_GETTIME | CLOCK_GETRES
        | CLOCK_NANOSLEEP | NANOSLEEP | GETTIMEOFDAY | TIMES | EPOLL_CTL | EPOLL_PWAIT
        | EPOLL_PWAIT2 | PSELECT6 | PPOLL | UNAME | SYSINFO | GETRANDOM | SCHED_GETAFFINITY | FUTEX
        | IO_SETUP | REBOOT => {
            return None;
        },
        _ => ENOSYS,
    };
    Some(r)
}

} // verus!
