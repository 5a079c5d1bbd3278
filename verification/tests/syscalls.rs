use kernel::arch::riscv64::trap::TrapContext;
use kernel::fs::file::{FileCtx, FileObject};
use kernel::fs::tmpfs::TmpFs;
use kernel::syscall::dispatch;
use kernel::syscall::epoll::{self, EpollEvent, EpollWait};
use kernel::syscall::errno::{EBADF, ECHILD, EINVAL, ENOSYS};
use kernel::syscall::file::{sys_close, sys_dup, sys_fcntl, sys_ioctl, sys_pipe2, sys_read, sys_readv, sys_statfs, sys_write, sys_writev};
use kernel::syscall::signal::{sys_kill, sys_tkill};
use kernel::trap::{trap_handler, TrapAction};
use kernel::timer::Ticks;
use kernel::syscall::misc::{sys_sysinfo, sys_uname};
use kernel::syscall::network::{sys_recvmsg, sys_sendmsg, sys_socketpair};
use kernel::syscall::process::{self, ForkEnv, Wait4};
use kernel::syscall::Kernel;
use kernel::task::context::TaskContext;
use kernel::task::task::TaskState;

fn boot() -> Kernel {
    let ctx = FileCtx { fs: TmpFs::new(), pipes: Vec::new(), console: Vec::new(), now_ms: 0 };
    Kernel::boot(ctx, TrapContext::new(0x1000, 0x8000, 0), TaskContext::new_empty(), 0x1234, 0x4000, 0x3000_0000)
}

#[test]
fn boot_runs_pid_one_with_stdio() {
    let k = boot();
    assert_eq!(process::sys_getpid(&k), 1);
    assert_eq!(process::sys_getppid(&k), 0);
    assert_eq!(k.files.len(), 3);
    assert!(matches!(k.files[1].obj, FileObject::Stdout));
}

#[test]
fn write_to_stdout_reaches_console() {
    let mut k = boot();
    assert_eq!(sys_write(&mut k, 1, b"hello"), 5);
    assert_eq!(sys_write(&mut k, 2, b"!"), 1);
    assert_eq!(k.ctx.console, b"hello!".to_vec());
}

#[test]
fn read_from_closed_descriptor_is_ebadf() {
    let mut k = boot();
    let (n, data) = sys_read(&mut k, 7, 10);
    assert_eq!(n, EBADF);
    assert!(data.is_empty());
}

#[test]
fn pipe_gives_bytes_back_in_order() {
    let mut k = boot();
    let (r, rfd, wfd) = sys_pipe2(&mut k, 0);
    assert_eq!((r, rfd, wfd), (0, 3, 4));
    assert_eq!(sys_write(&mut k, 4, b"abc"), 3);
    let (n, data) = sys_read(&mut k, 3, 2);
    assert_eq!((n, data), (2, b"ab".to_vec()));
    let (n, data) = sys_read(&mut k, 3, 10);
    assert_eq!((n, data), (1, b"c".to_vec()));
}

#[test]
fn close_frees_the_lowest_descriptor() {
    let mut k = boot();
    assert_eq!(sys_close(&mut k, 1), 0);
    assert_eq!(sys_write(&mut k, 1, b"x"), EBADF);
    // the next descriptor handed out is the one just closed
    assert_eq!(sys_dup(&mut k, 2), 1);
    assert_eq!(sys_write(&mut k, 1, b"y"), 1);
    assert_eq!(k.ctx.console, b"y".to_vec());
}

#[test]
fn dup_shares_the_open_file() {
    let mut k = boot();
    assert_eq!(sys_dup(&mut k, 1), 3);
    assert_eq!(k.files[1].refs, 2);
    assert_eq!(sys_write(&mut k, 3, b"dup"), 3);
    assert_eq!(k.ctx.console, b"dup".to_vec());
}

#[test]
fn epoll_reports_writable_stdout() {
    let mut k = boot();
    let ep = epoll::sys_epoll_create1(&mut k, 0);
    assert_eq!(ep, 3);
    let ev = EpollEvent { events: epoll::EPOLLOUT | epoll::EPOLLIN, data: 0x1122 };
    assert_eq!(epoll::sys_epoll_ctl(&mut k, 3, epoll::EPOLL_CTL_ADD, 1, Some(ev)), 0);
    match epoll::sys_epoll_pwait(&k, 3, 8, 0) {
        EpollWait::Done(n, bytes) => {
            assert_eq!(n, 1);
            // EPOLLOUT only: stdout cannot be read
            assert_eq!(bytes, vec![4, 0, 0, 0, 0x22, 0x11, 0, 0, 0, 0, 0, 0]);
        }
        EpollWait::Wait(_, _) => panic!("expected a ready event"),
    }
}

#[test]
fn epoll_ctl_errors() {
    let mut k = boot();
    let ev = EpollEvent { events: 1, data: 0 };
    assert_eq!(epoll::sys_epoll_ctl(&mut k, 9, epoll::EPOLL_CTL_ADD, 1, Some(ev)), EBADF);
    assert_eq!(epoll::sys_epoll_ctl(&mut k, 1, epoll::EPOLL_CTL_ADD, 1, Some(ev)), EINVAL);
    assert_eq!(epoll::sys_epoll_create1(&mut k, 0), 3);
    assert_eq!(epoll::sys_epoll_ctl(&mut k, 3, 7, 1, Some(ev)), EINVAL);
}

#[test]
fn epoll_without_ready_events_waits_or_returns_zero() {
    let mut k = boot();
    assert_eq!(epoll::sys_epoll_create1(&mut k, 0), 3);
    match epoll::sys_epoll_pwait(&k, 3, 4, 0) {
        EpollWait::Done(n, bytes) => {
            assert_eq!(n, 0);
            assert!(bytes.is_empty());
        }
        EpollWait::Wait(_, _) => panic!("a zero timeout does not wait"),
    }
    match epoll::sys_epoll_pwait(&k, 3, 4, 500) {
        EpollWait::Wait(id, ms) => {
            assert_eq!(id, 1000);
            assert_eq!(ms, 100);
        }
        EpollWait::Done(_, _) => panic!("expected a wait"),
    }
    match epoll::sys_epoll_pwait(&k, 1, 4, 0) {
        EpollWait::Done(n, _) => assert_eq!(n, EBADF),
        EpollWait::Wait(_, _) => panic!("stdout is no epoll file"),
    }
}

#[test]
fn epoll_delete_and_modify() {
    let mut k = boot();
    assert_eq!(epoll::sys_epoll_create1(&mut k, 0), 3);
    let ev = EpollEvent { events: epoll::EPOLLIN, data: 7 };
    assert_eq!(epoll::sys_epoll_ctl(&mut k, 3, epoll::EPOLL_CTL_ADD, 1, Some(ev)), 0);
    assert_eq!(epoll::sys_epoll_ctl(&mut k, 3, epoll::EPOLL_CTL_ADD, 0, Some(ev)), 0);
    // entries stay ordered by descriptor
    assert_eq!(k.epolls[0].entries.len(), 2);
    assert_eq!(k.epolls[0].entries[0].fd, 0);
    assert_eq!(k.epolls[0].entries[1].fd, 1);
    let ev2 = EpollEvent { events: epoll::EPOLLOUT, data: 9 };
    assert_eq!(epoll::sys_epoll_ctl(&mut k, 3, epoll::EPOLL_CTL_MOD, 1, Some(ev2)), 0);
    assert_eq!(k.epolls[0].entries[1].events, epoll::EPOLLOUT);
    assert_eq!(k.epolls[0].entries[1].data, 9);
    assert_eq!(epoll::sys_epoll_ctl(&mut k, 3, epoll::EPOLL_CTL_DEL, 0, None), 0);
    assert_eq!(k.epolls[0].entries.len(), 1);
    assert_eq!(k.epolls[0].entries[0].fd, 1);
}

#[test]
fn epoll_result_truncates_to_maxevents() {
    let evs = vec![EpollEvent { events: 1, data: 1 }, EpollEvent { events: 4, data: 2 }];
    let (n, bytes) = epoll::epoll_result(&evs, 1);
    assert_eq!(n, 1);
    assert_eq!(bytes, vec![1, 0, 0, 0, 1, 0, 0, 0, 0, 0, 0, 0]);
    let (n, bytes) = epoll::epoll_result(&evs, -1);
    assert_eq!(n, 2);
    assert_eq!(bytes.len(), 24);
}

#[test]
fn pselect_counts_ready_descriptors() {
    let k = boot();
    let mut rs = vec![0u8; 128];
    let mut ws = vec![0u8; 128];
    rs[0] = 0b011; // stdin, stdout
    ws[0] = 0b110; // stdout, stderr
    let (n, rr, wr) = epoll::sys_pselect6(&k, 3, &rs, &ws);
    assert_eq!(n, 3);
    assert_eq!(rr[0], 0b001);
    assert_eq!(wr[0], 0b110);
    assert!(rr[1..].iter().all(|b| *b == 0));
    let (n, _, _) = epoll::sys_pselect6(&k, 1, &rs, &ws);
    assert_eq!(n, 1);
}

#[test]
fn ppoll_fills_revents() {
    let k = boot();
    let mut fds = vec![
        0, 0, 0, 0, 1, 0, 0xaa, 0xbb, // stdin, POLLIN
        1, 0, 0, 0, 5, 0, 0, 0, // stdout, POLLIN | POLLOUT
        0xff, 0xff, 0xff, 0xff, 1, 0, 9, 9, // -1: ignored
    ];
    let n = epoll::sys_ppoll(&k, &mut fds, 3);
    assert_eq!(n, 2);
    assert_eq!(&fds[6..8], &[1, 0]);
    assert_eq!(&fds[14..16], &[4, 0]);
    assert_eq!(&fds[22..24], &[0, 0]);
    assert_eq!(&fds[0..6], &[0, 0, 0, 0, 1, 0]);
}

#[test]
fn dispatch_answers_plain_calls() {
    let mut k = boot();
    assert_eq!(dispatch::syscall(&mut k, dispatch::GETPID, [0; 6]), Some(1));
    assert_eq!(dispatch::syscall(&mut k, dispatch::UMASK, [0; 6]), Some(0o022));
    assert_eq!(dispatch::syscall(&mut k, 9999, [0; 6]), Some(ENOSYS));
    assert_eq!(dispatch::syscall(&mut k, dispatch::RSEQ, [0; 6]), Some(ENOSYS));
    assert_eq!(dispatch::syscall(&mut k, dispatch::IO_CANCEL, [0; 6]), Some(EINVAL));
    assert_eq!(dispatch::syscall(&mut k, dispatch::READ, [0, 0, 4, 0, 0, 0]), None);
    assert_eq!(dispatch::syscall(&mut k, dispatch::DUP, [1, 0, 0, 0, 0, 0]), Some(3));
    assert_eq!(dispatch::syscall(&mut k, dispatch::CLOSE, [3, 0, 0, 0, 0, 0]), Some(0));
}

#[test]
fn clone_adds_a_ready_child() {
    let mut k = boot();
    let env = ForkEnv { token: 0x9999, kernel_satp: 0x8000, trap_cx_addr: 0x7000, trap_return: 0x6000 };
    let (pid, write) = process::sys_clone(&mut k, 0, 0x5000, 0, 0x2000, 0, env);
    assert_eq!(pid, 2);
    assert_eq!(write, Some((0x2000, 2)));
    assert_eq!(k.manager.tasks.len(), 2);
    let child = &k.manager.tasks[1];
    assert_eq!(child.pid, 2);
    assert_eq!(child.parent, Some(1));
    assert_eq!(child.state, TaskState::Ready);
    assert_eq!(child.trap_cx.x[10], 0);
    assert_eq!(child.trap_cx.x[2], 0x5000);
    assert_eq!(child.trap_cx.user_satp, 0x9999);
    assert_eq!(child.fd_table, vec![Some(0), Some(1), Some(2)]);
    assert_eq!(k.files[0].refs, 2);
    assert_eq!(k.manager.ready_queue, vec![2]);
}

#[test]
fn wait4_without_children_is_echild() {
    let mut k = boot();
    assert!(matches!(process::sys_wait4(&mut k, -1, 0), Wait4::Done(ECHILD)));
}

#[test]
fn wait4_reaps_an_exited_child() {
    let mut k = boot();
    let env = ForkEnv { token: 1, kernel_satp: 2, trap_cx_addr: 3, trap_return: 4 };
    let (pid, _) = process::sys_clone(&mut k, 0, 0, 0, 0, 0, env);
    assert_eq!(pid, 2);
    k.manager.tasks[0].children.push(2);
    assert!(matches!(process::sys_wait4(&mut k, -1, 1), Wait4::Done(0)));
    assert!(matches!(process::sys_wait4(&mut k, -1, 0), Wait4::Block));
    k.manager.tasks[1].state = TaskState::Zombie(3);
    assert!(matches!(process::sys_wait4(&mut k, 5, 1), Wait4::Done(0)));
    assert!(matches!(process::sys_wait4(&mut k, 2, 0), Wait4::Reaped(2, 768)));
    assert!(k.manager.tasks[0].children.is_empty());
}

#[test]
fn exit_records_the_code() {
    let mut k = boot();
    process::sys_exit(&mut k, 3);
    assert_eq!(k.manager.tasks[0].exit_code, 3);
    assert_eq!(k.manager.tasks[0].state, TaskState::Zombie(3));
    assert_eq!(k.current, None);
}

fn word(b: &[u8], at: usize) -> u64 {
    u64::from_le_bytes(b[at..at + 8].try_into().unwrap())
}

#[test]
fn uname_reports_the_system_names() {
    let (r, b) = sys_uname();
    assert_eq!(r, 0);
    assert_eq!(b.len(), 6 * 65);
    assert_eq!(&b[0..6], b"Linux\0");
    assert_eq!(&b[65..72], b"ijiege\0");
    assert_eq!(&b[130..144], b"5.15.0-iJiege\0");
    assert_eq!(&b[260..268], b"riscv64\0");
    assert_eq!(&b[325..332], b"(none)\0");
    assert!(b[332..390].iter().all(|x| *x == 0));
}

#[test]
fn sysinfo_reports_uptime_and_memory() {
    let (r, b) = sys_sysinfo(12_345);
    assert_eq!(r, 0);
    assert_eq!(b.len(), 120);
    assert_eq!(word(&b, 0), 12);
    assert_eq!(word(&b, 32), 128 * 1024 * 1024);
    assert_eq!(word(&b, 40), 64 * 1024 * 1024);
    assert_eq!(u16::from_le_bytes([b[80], b[81]]), 1);
    assert_eq!(u32::from_le_bytes([b[104], b[105], b[106], b[107]]), 1);
    assert_eq!(word(&b, 48), 0);
}

#[test]
fn statfs_reports_a_tmpfs() {
    let (r, b) = sys_statfs(b"/");
    assert_eq!(r, 0);
    assert_eq!(b.len(), 96);
    assert_eq!(word(&b, 0), 0x01021994);
    assert_eq!(word(&b, 8), 4096);
    assert_eq!(word(&b, 16), 1024 * 1024);
    assert_eq!(word(&b, 24), 512 * 1024);
    assert_eq!(word(&b, 72), 255);
    assert_eq!(word(&b, 80), 4096);
}

#[test]
fn socketpair_connects_its_two_ends() {
    let mut k = boot();
    let (r, a, b) = sys_socketpair(&mut k, 1, 1, 0);
    assert_eq!((r, a, b), (0, 3, 4));
    assert_eq!(sys_write(&mut k, b as usize, b"ping"), 4);
    let (n, data) = sys_read(&mut k, a as usize, 16);
    assert_eq!(n, 4);
    assert_eq!(data, b"ping".to_vec());
}

#[test]
fn readv_fills_pieces_in_order_and_skips_empty_ones() {
    let mut k = boot();
    let (_, r, w) = sys_pipe2(&mut k, 0);
    assert_eq!(sys_write(&mut k, w as usize, b"hello"), 5);
    let (n, pieces) = sys_readv(&mut k, r as usize, &vec![2, 0, 10]);
    assert_eq!(n, 5);
    assert_eq!(pieces, vec![b"he".to_vec(), Vec::new(), b"llo".to_vec()]);
    assert_eq!(sys_readv(&mut k, 42, &vec![1]).0, EBADF);
}

#[test]
fn writev_writes_pieces_in_order() {
    let mut k = boot();
    let n = sys_writev(&mut k, 1, &vec![b"ab".to_vec(), Vec::new(), b"cd".to_vec()]);
    assert_eq!(n, 4);
    assert_eq!(k.ctx.console, b"abcd".to_vec());
    assert_eq!(sys_writev(&mut k, 42, &vec![b"x".to_vec()]), EBADF);
}

#[test]
fn sendmsg_and_recvmsg_go_through_every_buffer() {
    let mut k = boot();
    let (_, r, w) = sys_pipe2(&mut k, 0);
    assert_eq!(sys_sendmsg(&mut k, w as usize, &vec![b"hel".to_vec(), b"lo".to_vec()], 0), 5);
    let (n, bufs) = sys_recvmsg(&mut k, r as usize, &vec![2, 10, 5], 0);
    assert_eq!(n, 5);
    assert_eq!(bufs, vec![b"he".to_vec(), b"llo".to_vec()]);
    assert_eq!(sys_sendmsg(&mut k, 42, &vec![b"a".to_vec(), b"b".to_vec()], 0), 2 * EBADF);
}

#[test]
fn kill_is_a_stub_that_answers_zero() {
    let mut k = boot();
    assert_eq!(sys_kill(&mut k, 1, 20), 0); // a number the kernel does not know
    assert!(k.manager.tasks[0].pending_signals.is_empty());
    assert_eq!(sys_kill(&mut k, 42, 9), 0); // no such task
    assert!(k.manager.tasks[0].pending_signals.is_empty());
    assert_eq!(sys_tkill(&mut k, 1, 1, 10), 0);
    assert_eq!(k.manager.tasks[0].pending_signals.len(), 1);
    assert_eq!(dispatch::syscall(&mut k, dispatch::KILL, [1, 31, 0, 0, 0, 0]), Some(0));
}

#[test]
fn ioctl_is_a_stub_on_plain_files() {
    let mut k = boot();
    assert_eq!(sys_ioctl(&mut k, 1, 0x5401, 0), (0, None));
    assert_eq!(sys_ioctl(&mut k, 0, 0x1234, 0), (0, None));
    assert_eq!(sys_ioctl(&mut k, 9, 0x5401, 0), (EBADF, None));
}

#[test]
fn fcntl_dupfd_takes_the_lowest_free_descriptor_from_its_argument() {
    let mut k = boot();
    assert_eq!(sys_fcntl(&mut k, 1, 0, 10), 10);
    assert!(k.manager.tasks[0].fd_table[10].is_some());
    assert!(k.manager.tasks[0].fd_table[5].is_none());
    assert_eq!(sys_fcntl(&mut k, 1, 0, 10), 11);
    assert_eq!(sys_fcntl(&mut k, 1, 0, 0), 3);
    assert_eq!(dispatch::syscall(&mut k, dispatch::FCNTL, [2, 0, 10, 0, 0, 0]), Some(12));
    assert_eq!(sys_fcntl(&mut k, 30, 0, 0), EBADF);
}

#[test]
fn a_system_call_trap_moves_past_ecall_and_returns_in_a0() {
    let mut k = boot();
    let mut ticks = Ticks { count: 0 };
    k.manager.tasks[0].trap_cx.sepc = 0x1000;
    k.manager.tasks[0].trap_cx.x[17] = 1000;
    let r = trap_handler(&mut k, &mut ticks, 8, 0, 0);
    assert!(matches!(r, TrapAction::Done));
    assert_eq!(k.manager.tasks[0].trap_cx.sepc, 0x1004);
    assert_eq!(k.manager.tasks[0].trap_cx.x[10], ENOSYS as usize);
    k.manager.tasks[0].trap_cx.x[17] = dispatch::GETPID;
    trap_handler(&mut k, &mut ticks, 8, 0, 0);
    assert_eq!(k.manager.tasks[0].trap_cx.sepc, 0x1008);
    assert_eq!(k.manager.tasks[0].trap_cx.x[10], 1);
}

#[test]
fn a_memory_fault_ends_the_task_with_sigsegv() {
    let mut k = boot();
    let mut ticks = Ticks { count: 0 };
    let r = trap_handler(&mut k, &mut ticks, 13, 0xdead, 0);
    assert!(matches!(r, TrapAction::Done));
    assert_eq!(k.manager.tasks[0].exit_code, -11);
    assert!(matches!(k.manager.tasks[0].state, TaskState::Zombie(-11)));
    assert!(k.manager.tasks[0].pending_signals.is_empty());
}

#[test]
fn dispatch_relays_the_handlers() {
    let mut k = boot();
    // lseek on the console is refused, on a closed descriptor EBADF
    assert_eq!(dispatch::syscall(&mut k, dispatch::LSEEK, [1, 0, 0, 0, 0, 0]), Some(-1));
    assert_eq!(dispatch::syscall(&mut k, dispatch::LSEEK, [9, 0, 0, 0, 0, 0]), Some(EBADF));
    // dup3 puts the file under the asked-for descriptor
    assert_eq!(dispatch::syscall(&mut k, dispatch::DUP3, [1, 7, 0, 0, 0, 0]), Some(7));
    assert!(k.manager.tasks[0].fd_table[7].is_some());
    // brk below the heap start reports the current break, above it moves it
    let heap_end = k.manager.tasks[0].heap_end as i64;
    assert_eq!(dispatch::syscall(&mut k, dispatch::BRK, [0, 0, 0, 0, 0, 0]), Some(heap_end));
    assert_eq!(dispatch::syscall(&mut k, dispatch::BRK, [0x9000, 0, 0, 0, 0, 0]), Some(0x9000));
    assert_eq!(k.manager.tasks[0].heap_end, 0x9000);
    // setsid makes the task its own session and group leader
    assert_eq!(dispatch::syscall(&mut k, dispatch::SETSID, [0; 6]), Some(1));
    assert_eq!((k.manager.tasks[0].sid, k.manager.tasks[0].pgid), (1, 1));
    assert_eq!(dispatch::syscall(&mut k, dispatch::SET_TID_ADDRESS, [0x1234, 0, 0, 0, 0, 0]), Some(1));
    assert_eq!(k.manager.tasks[0].clear_child_tid, 0x1234);
    // fchdir on a descriptor that is not a directory
    assert_eq!(dispatch::syscall(&mut k, dispatch::FCHDIR, [1, 0, 0, 0, 0, 0]), Some(-20));
    assert_eq!(dispatch::syscall(&mut k, dispatch::SETPGID, [0; 6]), Some(0));
    assert_eq!(dispatch::syscall(&mut k, dispatch::PRCTL, [0; 6]), Some(0));
    assert_eq!(dispatch::syscall(&mut k, dispatch::EXIT, [3, 0, 0, 0, 0, 0]), Some(0));
    assert_eq!(k.manager.tasks[0].exit_code, 3);
    assert!(matches!(k.manager.tasks[0].state, TaskState::Zombie(3)));
}
