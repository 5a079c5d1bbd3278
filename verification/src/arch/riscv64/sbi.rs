//! Calls into the supervisor binary interface, described as the registers an `ecall` takes.
use vstd::prelude::*;

verus! {

/// A legacy extension call: the function number in a7, an argument in a0.
pub const SBI_SET_TIMER: usize = 0;
pub const SBI_CONSOLE_PUTCHAR: usize = 1;
pub const SBI_CONSOLE_GETCHAR: usize = 2;
/// Extension ids of the newer calls.
pub const EXT_TIMER: usize = 0x54494D45;
pub const EXT_SRST: usize = 0x53525354;

/// The registers of one `ecall`: extension id (a7), function id (a6), arguments (a0 to a2).
#[derive(Debug, Clone, Copy, PartialEq, Eq, Structural)]
pub struct SbiCall {
    pub eid: usize,
    pub fid: usize,
    pub arg0: usize,
    pub arg1: usize,
    pub arg2: usize,
}

/// Prints one byte on the console.
pub fn console_putchar(c: u8) -> (call: SbiCall)
    ensures call == (SbiCall { eid: SBI_CONSOLE_PUTCHAR, fid: 0, arg0: c as usize, arg1: 0, arg2: 0 }),
{
    SbiCall { eid: SBI_CONSOLE_PUTCHAR, fid: 0, arg0: c as usize, arg1: 0, arg2: 0 }
}

/// Reads one byte from the console; the byte is the low byte of what a0 returns.
pub fn console_getchar() -> (call: SbiCall)
    ensures call == (SbiCall { eid: SBI_CONSOLE_GETCHAR, fid: 0, arg0: 0, arg1: 0, arg2: 0 }),
{
    SbiCall { eid: SBI_CONSOLE_GETCHAR, fid: 0, arg0: 0, arg1: 0, arg2: 0 }
}

/// Arms the timer for time `time` (the TIME extension).
pub fn set_timer(time: u64) -> (call: SbiCall)
    requires time <= usize::MAX,
    ensures call == (SbiCall { eid: EXT_TIMER, fid: 0, arg0: time as usize, arg1: 0, arg2: 0 }),
{
    SbiCall { eid: EXT_TIMER, fid: 0, arg0: time as usize, arg1: 0, arg2: 0 }
}

/// Powers the machine off (the system reset extension).
pub fn shutdown() -> (call: SbiCall)
    ensures call == (SbiCall { eid: EXT_SRST, fid: 0, arg0: 0, arg1: 0, arg2: 0 }),
{
    SbiCall { eid: EXT_SRST, fid: 0, arg0: 0, arg1: 0, arg2: 0 }
}

} // verus!
