//! Signal system calls.
use vstd::prelude::*;
use super::{Kernel, tasks_except};
use super::errno::EINTR;
use crate::signal::{Signal, signal_of};
use crate::task::task::Task;
use crate::task::manager::index_of;

verus! {

/// Handlers are not registered; the call succeeds.
pub fn sys_rt_sigaction(signum: i32, act: usize, oldact: usize, sigsetsize: usize) -> (r: i64)
    ensures r == 0,
{
    0
}

/// Masks are not kept: the old mask, to store where one is asked for (`oldset` not null),
/// is empty.
pub fn sys_rt_sigprocmask(how: i32, set: usize, oldset: usize, sigsetsize: usize) -> (r: (i64, Option<u64>))
    ensures r.0 == 0, r.1 == (if oldset != 0 { Some(0u64) } else { None }),
{
    if oldset != 0 {
        (0, Some(0))
    } else {
        (0, None)
    }
}

/// Returning from a handler leaves the registers as they are.
pub fn sys_rt_sigreturn() -> (r: i64)
    ensures r == 0,
{
    0
}

/// What sending signal `sig` to `pid` does to the kernel: 0 only checks; a known signal goes
/// to task `pid` (when `pid > 0` and it is in the table) or to the running task (`pid` 0 or
/// -1); anything else is dropped.
pub open spec fn kill_post(k0: Kernel, k1: Kernel, pid: i32, sig: i32) -> bool {
    let target: Option<int> = if pid > 0 { index_of(k0.manager.tasks@, pid) }
        else if pid == 0 || pid == -1 { match k0.current { Some(i) => Some(i as int), None => None } }
        else { None };
    &&& k1.wf()
    &&& k1.files == k0.files && k1.ctx == k0.ctx && k1.same_rest(k0)
    &&& if sig == 0 {
        k1 == k0
    } else {
        match signal_of(sig as u32) {
            None => k1 == k0,
            Some(s) => {
                &&& (pid > 0 && target.is_none()) ==> k1 == k0
                &&& (pid < -1) ==> k1 == k0
                &&& target matches Some(t) ==> {
                    &&& tasks_except(k0.manager.tasks@, k1.manager.tasks@, t)
                    &&& k1.manager.tasks@[t] == (Task { pending_signals: k1.manager.tasks@[t].pending_signals, ..k0.manager.tasks@[t] })
                    &&& k1.manager.tasks@[t].pending_signals@ == k0.manager.tasks@[t].pending_signals@.push(s)
                }
                &&& target.is_none() ==> k1.manager.tasks@ == k0.manager.tasks@
            },
        }
    }
}

/// Sends signal `sig` as `kill_post` says. Signals are a stub: the result is always 0.
pub fn sys_kill(k: &mut Kernel, pid: i32, sig: i32) -> (r: i64)
    requires old(k).wf(),
    ensures
        r == 0,
        kill_post(*old(k), *final(k), pid, sig),
{
    if sig == 0 {
        return 0;
    }
    match Signal::from_num(sig as u32) {
        Some(signal) => {
            if pid > 0 {
                proof { crate::task::manager::lemma_index_of(old(k).manager.tasks@, pid); }
                match k.manager.get(pid) {
                    Some(t) => {
                        k.manager.tasks[t].pending_signals.push(signal);
                        proof { lemma_signal_ok(*old(k), *k); }
                        return 0;
                    },
                    None => {},
                }
            } else if pid == 0 || pid == -1 {
                match k.current {
                    Some(i) => {
                        k.manager.tasks[i].pending_signals.push(signal);
                        proof { lemma_signal_ok(*old(k), *k); }
                    },
                    None => {},
                }
                return 0;
            }
            0
        },
        None => 0,
    }
}

proof fn lemma_signal_ok(k0: Kernel, k1: Kernel)
    requires
        k0.wf(),
        k1.current == k0.current,
        k1.files == k0.files,
        k1.ctx == k0.ctx,
        k1.manager.tasks@.len() == k0.manager.tasks@.len(),
        forall|i: int| 0 <= i < k0.manager.tasks@.len() ==> #[trigger] k1.manager.tasks@[i].fd_table@ == k0.manager.tasks@[i].fd_table@,
    ensures k1.wf(),
{
    assert forall|i: int| 0 <= i < k1.manager.tasks@.len()
        implies super::table_ok(#[trigger] k1.manager.tasks@[i].fd_table@, k1.files@.len() as int) by {
        assert(super::table_ok(k0.manager.tasks@[i].fd_table@, k0.files@.len() as int));
        assert(k1.manager.tasks@[i].fd_table@ == k0.manager.tasks@[i].fd_table@);
    }
}

/// Threads are processes here: `tkill` is `kill` of `pid`.
pub fn sys_tkill(k: &mut Kernel, pid: i32, tid: i32, sig: i32) -> (r: i64)
    requires old(k).wf(),
    ensures r == 0, kill_post(*old(k), *final(k), pid, sig),
{
    sys_kill(k, pid, sig)
}

/// Waiting for a signal gives the processor up once and reports an interruption (EINTR, -4);
/// the caller switches tasks.
pub fn sys_rt_sigsuspend(set: usize, sigsetsize: usize) -> (r: i64)
    ensures r == EINTR,
{
    EINTR
}

} // verus!
