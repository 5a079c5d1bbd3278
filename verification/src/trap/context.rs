//! The registers a trap saves for a user program, and where it goes back to.
use vstd::prelude::*;

verus! {

#[derive(Clone, Copy)]
pub struct Sstatus {
    pub bits: usize,
}

pub const SSTATUS_SIE: usize = 0x2;
pub const SSTATUS_SPIE: usize = 0x20;
pub const SSTATUS_SPP: usize = 0x100;
pub const SSTATUS_SUM: usize = 0x40000;

#[derive(Clone, Copy)]
pub struct TrapContext {
    pub x: [usize; 32],
    pub sstatus: usize,
    pub sepc: usize,
    pub kernel_satp: usize,
    pub kernel_sp: usize,
    pub trap_handler: usize,
}

impl TrapContext {
    /// The context a program starts in: user mode at `entry` with stack `sp`, interrupts
    /// enabled after `sret`, supervisor access to user pages; traps go to `trap_handler`
    /// (the handler's address) on the kernel stack `kernel_sp`.
    pub fn app_init(entry: usize, sp: usize, kernel_sp: usize, trap_handler: usize) -> (cx: TrapContext)
        ensures
            cx.sstatus == SSTATUS_SPIE | SSTATUS_SUM,
            cx.sepc == entry,
            cx.kernel_satp == 0,
            cx.kernel_sp == kernel_sp,
            cx.trap_handler == trap_handler,
            cx.x@[2] == sp,
            forall|i: int| 0 <= i < 32 && i != 2 ==> cx.x@[i] == 0,
    {
        let mut cx = TrapContext {
            x: [0usize; 32],
            sstatus: SSTATUS_SPIE | SSTATUS_SUM,
            sepc: entry,
            kernel_satp: 0,
            kernel_sp,
            trap_handler,
        };
        cx.x[2] = sp;
        cx
    }

    pub fn set_sp(&mut self, sp: usize)
        ensures final(self).x@ == old(self).x@.update(2, sp), final(self).sepc == old(self).sepc,
            final(self).sstatus == old(self).sstatus,
    {
        self.x[2] = sp;
    }

    pub fn set_entry(&mut self, entry: usize)
        ensures final(self).sepc == entry, final(self).x@ == old(self).x@, final(self).sstatus == old(self).sstatus,
    {
        self.sepc = entry;
    }

    pub fn set_arg(&mut self, idx: usize, v: usize)
        requires idx < 22,
        ensures final(self).x@ == old(self).x@.update(10 + idx, v), final(self).sepc == old(self).sepc,
            final(self).sstatus == old(self).sstatus,
    {
        self.x[10 + idx] = v;
    }
}

} // verus!
