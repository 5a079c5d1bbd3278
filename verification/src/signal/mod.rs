//! Signals, by their Linux numbers.
use vstd::prelude::*;

verus! {

#[derive(Debug, Clone, Copy, PartialEq, Eq, Structural)]
pub enum Signal {
    SIGHUP,
    SIGINT,
    SIGQUIT,
    SIGILL,
    SIGTRAP,
    SIGABRT,
    SIGBUS,
    SIGFPE,
    SIGKILL,
    SIGUSR1,
    SIGSEGV,
    SIGUSR2,
    SIGPIPE,
    SIGALRM,
    SIGTERM,
    SIGSTKFLT,
    SIGCHLD,
    SIGCONT,
    SIGSTOP,
    SIGTSTP,
    SIGTTIN,
    SIGTTOU,
    SIGURG,
    SIGXCPU,
    SIGXFSZ,
    SIGVTALRM,
    SIGPROF,
    SIGWINCH,
    SIGIO,
    SIGPWR,
    SIGSYS,
}

impl Signal {
    /// The signal's number.
    pub open spec fn spec_num(self) -> u32 {
        match self {
            Signal::SIGHUP => 1,
            Signal::SIGINT => 2,
            Signal::SIGQUIT => 3,
            Signal::SIGILL => 4,
            Signal::SIGTRAP => 5,
            Signal::SIGABRT => 6,
            Signal::SIGBUS => 7,
            Signal::SIGFPE => 8,
            Signal::SIGKILL => 9,
            Signal::SIGUSR1 => 10,
            Signal::SIGSEGV => 11,
            Signal::SIGUSR2 => 12,
            Signal::SIGPIPE => 13,
            Signal::SIGALRM => 14,
            Signal::SIGTERM => 15,
            Signal::SIGSTKFLT => 16,
            Signal::SIGCHLD => 17,
            Signal::SIGCONT => 18,
            Signal::SIGSTOP => 19,
            Signal::SIGTSTP => 20,
            Signal::SIGTTIN => 21,
            Signal::SIGTTOU => 22,
            Signal::SIGURG => 23,
            Signal::SIGXCPU => 24,
            Signal::SIGXFSZ => 25,
            Signal::SIGVTALRM => 26,
            Signal::SIGPROF => 27,
            Signal::SIGWINCH => 28,
            Signal::SIGIO => 29,
            Signal::SIGPWR => 30,
            Signal::SIGSYS => 31,
        }
    }

    pub fn num(&self) -> (r: u32)
        ensures r == self.spec_num(),
    {
        match self {
            Signal::SIGHUP => 1,
            Signal::SIGINT => 2,
            Signal::SIGQUIT => 3,
            Signal::SIGILL => 4,
            Signal::SIGTRAP => 5,
            Signal::SIGABRT => 6,
            Signal::SIGBUS => 7,
            Signal::SIGFPE => 8,
            Signal::SIGKILL => 9,
            Signal::SIGUSR1 => 10,
            Signal::SIGSEGV => 11,
            Signal::SIGUSR2 => 12,
            Signal::SIGPIPE => 13,
            Signal::SIGALRM => 14,
            Signal::SIGTERM => 15,
            Signal::SIGSTKFLT => 16,
            Signal::SIGCHLD => 17,
            Signal::SIGCONT => 18,
            Signal::SIGSTOP => 19,
            Signal::SIGTSTP => 20,
            Signal::SIGTTIN => 21,
            Signal::SIGTTOU => 22,
            Signal::SIGURG => 23,
            Signal::SIGXCPU => 24,
            Signal::SIGXFSZ => 25,
            Signal::SIGVTALRM => 26,
            Signal::SIGPROF => 27,
            Signal::SIGWINCH => 28,
            Signal::SIGIO => 29,
            Signal::SIGPWR => 30,
            Signal::SIGSYS => 31,
        }
    }

    /// The signal with number `n`, among 1 to 15 and 17 to 19.
    pub fn from_num(n: u32) -> (r: Option<Signal>)
        ensures r == signal_of(n),
    {
        match n {
            1 => Some(Signal::SIGHUP),
            2 => Some(Signal::SIGINT),
            3 => Some(Signal::SIGQUIT),
            4 => Some(Signal::SIGILL),
            5 => Some(Signal::SIGTRAP),
            6 => Some(Signal::SIGABRT),
            7 => Some(Signal::SIGBUS),
            8 => Some(Signal::SIGFPE),
            9 => Some(Signal::SIGKILL),
            10 => Some(Signal::SIGUSR1),
            11 => Some(Signal::SIGSEGV),
            12 => Some(Signal::SIGUSR2),
            13 => Some(Signal::SIGPIPE),
            14 => Some(Signal::SIGALRM),
            15 => Some(Signal::SIGTERM),
            17 => Some(Signal::SIGCHLD),
            18 => Some(Signal::SIGCONT),
            19 => Some(Signal::SIGSTOP),
            _ => None,
        }
    }
}

/// The signal `from_num` gives for `n`.
pub open spec fn signal_of(n: u32) -> Option<Signal> {
    if n == 1 {
        Some(Signal::SIGHUP)
    } else if n == 2 {
        Some(Signal::SIGINT)
    } else if n == 3 {
        Some(Signal::SIGQUIT)
    } else if n == 4 {
        Some(Signal::SIGILL)
    } else if n == 5 {
        Some(Signal::SIGTRAP)
    } else if n == 6 {
        Some(Signal::SIGABRT)
    } else if n == 7 {
        Some(Signal::SIGBUS)
    } else if n == 8 {
        Some(Signal::SIGFPE)
    } else if n == 9 {
        Some(Signal::SIGKILL)
    } else if n == 10 {
        Some(Signal::SIGUSR1)
    } else if n == 11 {
        Some(Signal::SIGSEGV)
    } else if n == 12 {
        Some(Signal::SIGUSR2)
    } else if n == 13 {
        Some(Signal::SIGPIPE)
    } else if n == 14 {
        Some(Signal::SIGALRM)
    } else if n == 15 {
        Some(Signal::SIGTERM)
    } else if n == 17 {
        Some(Signal::SIGCHLD)
    } else if n == 18 {
        Some(Signal::SIGCONT)
    } else if n == 19 {
        Some(Signal::SIGSTOP)
    } else {
        None
    }
}

/// `from_num` undoes `num` on every signal it knows.
pub proof fn lemma_from_num_num(s: Signal)
    requires signal_of(s.spec_num()).is_some(),
    ensures signal_of(s.spec_num()) == Some(s),
{
}

} // verus!
