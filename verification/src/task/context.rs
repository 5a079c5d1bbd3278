//! What a task switch saves: the return address, the stack pointer and s0 to s11.
use vstd::prelude::*;

verus! {

#[derive(Debug, Clone, Copy)]
pub struct TaskContext {
    pub ra: usize,
    pub sp: usize,
    pub s: [usize; 12],
}

impl TaskContext {
    pub fn new_empty() -> (cx: TaskContext)
        ensures cx.ra == 0, cx.sp == 0, forall|i: int| 0 <= i < 12 ==> cx.s@[i] == 0,
    {
        TaskContext { ra: 0, sp: 0, s: [0usize; 12] }
    }

    /// The context of a task that has not run yet: switching to it enters the trap return
    /// path (at address `trap_return`) on the kernel stack `kernel_sp`.
    pub fn goto_trap_return(kernel_sp: usize, trap_return: usize) -> (cx: TaskContext)
        ensures cx.ra == trap_return, cx.sp == kernel_sp, forall|i: int| 0 <= i < 12 ==> cx.s@[i] == 0,
    {
        TaskContext { ra: trap_return, sp: kernel_sp, s: [0usize; 12] }
    }
}

} // verus!
