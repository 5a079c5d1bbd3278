pub mod context;

use vstd::prelude::*;
use crate::syscall::Kernel;
use crate::syscall::dispatch::{syscall, syscall_post};
use crate::syscall::tasks_except;
use crate::task::task::{Task, TaskState};
use crate::arch::riscv64::trap::TrapContext;
use crate::signal::Signal;
use crate::arch::riscv64::sbi::SbiCall;
use crate::timer::{Ticks, next_trigger, TICK_INTERVAL};
use crate::task::{first_fatal, fatal};

verus! {

/// Why a trap from user mode happened, as far as the kernel tells causes apart.
#[derive(Debug, Clone, Copy, PartialEq, Eq, Structural)]
pub enum TrapCause {
    UserEnvCall,
    StoreFault,
    LoadFault,
    InstructionFault,
    IllegalInstruction,
    SupervisorTimer,
    SupervisorExternal,
    Other,
}

/// The cause a `scause` value stands for: the top bit marks an interrupt, the rest is the
/// code (interrupts 5 and 9; exceptions 8, 7/15, 5/13, 1/12 and 2).
pub open spec fn cause_of(scause: usize) -> TrapCause {
    if scause > isize::MAX {
        let code = scause - isize::MAX - 1;
        if code == 5 {
            TrapCause::SupervisorTimer
        } else if code == 9 {
            TrapCause::SupervisorExternal
        } else {
            TrapCause::Other
        }
    } else if scause == 8 {
        TrapCause::UserEnvCall
    } else if scause == 7 || scause == 15 {
        TrapCause::StoreFault
    } else if scause == 5 || scause == 13 {
        TrapCause::LoadFault
    } else if scause == 1 || scause == 12 {
        TrapCause::InstructionFault
    } else if scause == 2 {
        TrapCause::IllegalInstruction
    } else {
        TrapCause::Other
    }
}

pub fn decode_cause(scause: usize) -> (c: TrapCause)
    ensures c == cause_of(scause),
{
    let top = isize::MAX as usize;
    if scause > top {
        let code = scause - top - 1;
        if code == 5 {
            TrapCause::SupervisorTimer
        } else if code == 9 {
            TrapCause::SupervisorExternal
        } else {
            TrapCause::Other
        }
    } else if scause == 8 {
        TrapCause::UserEnvCall
    } else if scause == 7 || scause == 15 {
        TrapCause::StoreFault
    } else if scause == 5 || scause == 13 {
        TrapCause::LoadFault
    } else if scause == 1 || scause == 12 {
        TrapCause::InstructionFault
    } else if scause == 2 {
        TrapCause::IllegalInstruction
    } else {
        TrapCause::Other
    }
}

/// What the platform does after the kernel handled a trap: run a system call that needs
/// user memory (its result goes in a0 of the task that made it), arm the timer with a call,
/// serve a device interrupt, or nothing.
pub enum TrapAction {
    Syscall(usize, [usize; 6]),
    Timer(SbiCall),
    External,
    Done,
}

/// A signal list with a fatal signal at the end has a first fatal signal.
pub proof fn lemma_fatal_push(s: Seq<Signal>, x: Signal)
    requires fatal(x),
    ensures first_fatal(s.push(x)).is_some(),
    decreases s.len(),
{
    if s.len() == 0 {
        assert(s.push(x)[0] == x);
    } else if !fatal(s[0]) {
        lemma_fatal_push(s.skip(1), x);
        assert(s.push(x).skip(1) =~= s.skip(1).push(x));
    }
}

/// The address after a 4-byte instruction at `pc` (wrapping at the top of memory).
pub open spec fn next_pc(pc: usize) -> usize {
    if pc > usize::MAX - 4 { (pc - (usize::MAX - 3)) as usize } else { (pc + 4) as usize }
}

/// `kb` is `k0` once the running task's `sepc` has moved past its `ecall`.
pub open spec fn ecall_entered(k0: Kernel, kb: Kernel) -> bool {
    let i = k0.cur();
    let t0 = k0.cur_task();
    &&& kb.files == k0.files && kb.ctx == k0.ctx && kb.same_rest(k0)
    &&& tasks_except(k0.manager.tasks@, kb.manager.tasks@, i)
    &&& kb.manager.tasks@[i] == (Task { trap_cx: TrapContext { sepc: next_pc(t0.trap_cx.sepc), ..t0.trap_cx }, ..t0 })
}

/// Handles a trap of the running task with cause `scause` and fault address `stval`
/// (`now_raw` is the timer's raw count): a system call moves past the `ecall` and is
/// dispatched (its result in a0, or handed to the platform); a timer interrupt counts the
/// tick, re-arms the timer and switches tasks; a memory fault delivers SIGSEGV and an
/// illegal instruction SIGILL. Pending signals are handled last.
pub fn trap_handler(k: &mut Kernel, ticks: &mut Ticks, scause: usize, stval: usize, now_raw: u64) -> (r: TrapAction)
    requires old(k).running(), now_raw + TICK_INTERVAL <= usize::MAX,
    ensures
        final(k).wf(),
        final(k).manager.tasks@.len() == old(k).manager.tasks@.len(),
        ({
            let c = cause_of(scause);
            let t0 = old(k).cur_task();
            let cx = t0.trap_cx;
            let i = old(k).cur();
            let t1 = final(k).manager.tasks@[i];
            &&& c == TrapCause::UserEnvCall ==> {
                &&& r is Done || r is Syscall
                &&& t1.trap_cx.sepc == next_pc(cx.sepc)
                &&& r is Syscall ==> r->Syscall_0 == cx.x@[17] && t1.trap_cx.x@ == cx.x@
                    && forall|j: int| 0 <= j < 6 ==> #[trigger] r->Syscall_1@[j] == cx.x@[10 + j]
                &&& r is Done ==> exists|kb: Kernel, k1: Kernel, a: [usize; 6], v: i64| {
                    &&& ecall_entered(*old(k), kb)
                    &&& #[trigger] syscall_post(kb, k1, cx.x@[17], a, Some(v))
                    &&& forall|j: int| 0 <= j < 6 ==> a@[j] == cx.x@[10 + j]
                    &&& t1.trap_cx.x@ == cx.x@.update(10, v as usize)
                }
            }
            &&& c == TrapCause::SupervisorTimer ==> r == TrapAction::Timer(next_trigger(now_raw))
                && final(ticks).count == (if old(ticks).count == usize::MAX { 0 } else { (old(ticks).count + 1) as usize })
            &&& c != TrapCause::SupervisorTimer ==> *final(ticks) == *old(ticks)
            &&& c == TrapCause::SupervisorExternal ==> r is External
            &&& (c == TrapCause::StoreFault || c == TrapCause::LoadFault || c == TrapCause::InstructionFault) ==> {
                let sigs = t0.pending_signals@.push(Signal::SIGSEGV);
                let code = (0 - first_fatal(sigs).unwrap().spec_num()) as i32 as usize as i32;
                &&& r is Done
                &&& t1.exit_code == code
                &&& final(k).current != Some(i as usize) ==> t1.state == TaskState::Zombie(code)
                &&& t0.parent != Some(t0.pid) ==> t1.pending_signals@ == Seq::<Signal>::empty()
            }
            &&& (c == TrapCause::IllegalInstruction || c == TrapCause::Other) ==> r is Done
        }),
{
    let ci = k.current.unwrap();
    let cause = decode_cause(scause);
    let action = match cause {
        TrapCause::UserEnvCall => {
            let sepc = k.manager.tasks[ci].trap_cx.sepc;
            k.manager.tasks[ci].trap_cx.sepc = if sepc > usize::MAX - 4 { sepc - (usize::MAX - 3) } else { sepc + 4 };
            proof {
                crate::task::lemma_same_tables_ok(*old(k), *k);
                assert(k.manager.tasks@[ci as int] == (Task { trap_cx: TrapContext { sepc: next_pc(sepc), ..old(k).cur_task().trap_cx }, ..old(k).cur_task() }));
            }
            let ghost kb = *k;
            let id = k.manager.tasks[ci].trap_cx.syscall_id();
            let args = k.manager.tasks[ci].trap_cx.syscall_args();
            match syscall(k, id, args) {
                Some(v) => {
                    let ghost k1 = *k;
                    k.manager.tasks[ci].trap_cx.set_return_value(v as usize);
                    proof {
                        crate::task::lemma_same_tables_ok(k1, *k);
                        assert(syscall_post(kb, k1, id, args, Some(v)));
                        assert(k.manager.tasks@[ci as int].trap_cx.x@ == old(k).cur_task().trap_cx.x@.update(10, v as usize));
                    }
                    TrapAction::Done
                },
                None => TrapAction::Syscall(id, args),
            }
        },
        TrapCause::SupervisorTimer => {
            let call = crate::timer::tick(ticks, now_raw);
            crate::task::suspend_current_and_run_next(k);
            TrapAction::Timer(call)
        },
        TrapCause::SupervisorExternal => TrapAction::External,
        TrapCause::StoreFault | TrapCause::LoadFault | TrapCause::InstructionFault => {
            if !crate::task::handle_page_fault(stval) {
                crate::task::current_add_signal(k, Signal::SIGSEGV);
            }
            proof { lemma_fatal_push(old(k).cur_task().pending_signals@, Signal::SIGSEGV); }
            TrapAction::Done
        },
        TrapCause::IllegalInstruction => {
            crate::task::current_add_signal(k, Signal::SIGILL);
            TrapAction::Done
        },
        TrapCause::Other => TrapAction::Done,
    };
    let _ = crate::task::handle_signals(k);
    action
}

/// Handles a trap taken in supervisor mode: a timer interrupt counts the tick and re-arms
/// the timer; a device interrupt goes to the platform. Any other cause is a kernel bug,
/// on which the kernel stops; it is left out here.
pub fn kernel_trap_handler(ticks: &mut Ticks, scause: usize, now_raw: u64) -> (r: TrapAction)
    requires
        cause_of(scause) == TrapCause::SupervisorTimer || cause_of(scause) == TrapCause::SupervisorExternal,
        now_raw + TICK_INTERVAL <= usize::MAX,
    ensures
        cause_of(scause) == TrapCause::SupervisorTimer ==> r == TrapAction::Timer(next_trigger(now_raw))
            && final(ticks).count == (if old(ticks).count == usize::MAX { 0 } else { (old(ticks).count + 1) as usize }),
        cause_of(scause) == TrapCause::SupervisorExternal ==> r is External && *final(ticks) == *old(ticks),
{
    match decode_cause(scause) {
        TrapCause::SupervisorTimer => TrapAction::Timer(crate::timer::tick(ticks, now_raw)),
        _ => TrapAction::External,
    }
}

} // verus!
