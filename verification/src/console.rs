//! The console: text goes out byte by byte through the supervisor binary interface.
use vstd::prelude::*;
use crate::arch::riscv64::sbi::{SbiCall, console_putchar};
use vstd::string::StringSliceAdditionalSpecFns;

verus! {

pub struct Console;

impl Console {
    /// The calls that print `s`, one per byte, in order.
    pub fn write_str(&mut self, s: &str) -> (calls: Vec<SbiCall>)
        ensures
            calls@.len() == s.spec_bytes().len(),
            forall|i: int| 0 <= i < calls@.len() ==> #[trigger] calls@[i]
                == (SbiCall { eid: 1, fid: 0, arg0: s.spec_bytes()[i] as usize, arg1: 0, arg2: 0 }),
    {
        let b = s.as_bytes();
        let mut calls: Vec<SbiCall> = Vec::new();
        let mut i: usize = 0;
        while i < b.len()
            invariant
                i <= b@.len(),
                calls@.len() == i,
                forall|j: int| 0 <= j < i ==> #[trigger] calls@[j]
                    == (SbiCall { eid: 1, fid: 0, arg0: b@[j] as usize, arg1: 0, arg2: 0 }),
            decreases b@.len() - i,
        {
            calls.push(console_putchar(b[i]));
            i = i + 1;
        }
        calls
    }
}

} // verus!
