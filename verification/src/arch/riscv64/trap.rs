//! The registers a trap saves, as the trap entry code lays them out.
use vstd::prelude::*;

verus! {

/// Where the trap context lives in a user address space.
pub const TRAP_CONTEXT_BASE: usize = 0;

/// `sstatus` bit: the previous privilege mode was supervisor.
pub const SSTATUS_SPP: usize = 0x100;
/// `sstatus` bit: interrupts are enabled after `sret`.
pub const SSTATUS_SPIE: usize = 0x20;

#[derive(Debug, Clone, Copy)]
pub struct TrapContext {
    /// General registers x0 to x31.
    pub x: [usize; 32],
    pub sstatus: usize,
    pub sepc: usize,
    /// The user address space (`satp` value).
    pub user_satp: usize,
    /// The kernel address space, switched to on a trap from user mode.
    pub kernel_satp: usize,
}

impl TrapContext {
    /// A context that enters user mode at `entry` with stack `user_sp`: `sstatus` is the
    /// current one (`cur_sstatus`, read by the caller) with SPP cleared and SPIE set.
    pub fn new(entry: usize, user_sp: usize, cur_sstatus: usize) -> (cx: TrapContext)
        ensures
            cx.sepc == entry,
            cx.sstatus == (cur_sstatus & !SSTATUS_SPP) | SSTATUS_SPIE,
            cx.user_satp == 0 && cx.kernel_satp == 0,
            cx.x@[2] == user_sp,
            forall|i: int| 0 <= i < 32 && i != 2 ==> cx.x@[i] == 0,
    {
        let mut cx = TrapContext {
            x: [0usize; 32],
            sstatus: (cur_sstatus & !SSTATUS_SPP) | SSTATUS_SPIE,
            sepc: entry,
            user_satp: 0,
            kernel_satp: 0,
        };
        cx.x[2] = user_sp;
        cx
    }

    pub fn set_sp(&mut self, sp: usize)
        ensures final(self).x@ == old(self).x@.update(2, sp), final(self).sepc == old(self).sepc,
            final(self).sstatus == old(self).sstatus, final(self).user_satp == old(self).user_satp,
            final(self).kernel_satp == old(self).kernel_satp,
    {
        self.x[2] = sp;
    }

    pub fn get_sp(&self) -> (r: usize)
        ensures r == self.x@[2],
    {
        self.x[2]
    }

    /// The system call number, in a7.
    pub fn syscall_id(&self) -> (r: usize)
        ensures r == self.x@[17],
    {
        self.x[17]
    }

    /// The system call arguments, in a0 to a5.
    pub fn syscall_args(&self) -> (r: [usize; 6])
        ensures forall|i: int| 0 <= i < 6 ==> r@[i] == self.x@[10 + i],
    {
        [self.x[10], self.x[11], self.x[12], self.x[13], self.x[14], self.x[15]]
    }

    /// The value a0 carries back to user mode.
    pub fn set_return_value(&mut self, val: usize)
        ensures final(self).x@ == old(self).x@.update(10, val), final(self).sepc == old(self).sepc,
            final(self).sstatus == old(self).sstatus, final(self).user_satp == old(self).user_satp,
            final(self).kernel_satp == old(self).kernel_satp,
    {
        self.x[10] = val;
    }

    /// Sets argument register a`i`.
    pub fn set_arg(&mut self, i: usize, val: usize)
        requires i < 22,
        ensures final(self).x@ == old(self).x@.update(10 + i, val), final(self).sepc == old(self).sepc,
            final(self).sstatus == old(self).sstatus, final(self).user_satp == old(self).user_satp,
            final(self).kernel_satp == old(self).kernel_satp,
    {
        self.x[10 + i] = val;
    }

    /// Argument register a`i`.
    pub fn get_arg(&self, i: usize) -> (r: usize)
        requires i < 22,
        ensures r == self.x@[10 + i],
    {
        self.x[10 + i]
    }
}

} // verus!
