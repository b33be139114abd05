//! System call numbering. The raw trampoline that saves registers and
//! enables the instruction lives with the kernel; the adapter over this
//! library only needs the mapping between syscalls and their ABI numbers.

use vstd::prelude::*;

verus! {

/// The system calls of the kernel's ABI.
#[derive(Debug, Clone, Copy, PartialEq, Eq, Structural)]
pub enum Syscall {
    Exit,
    Yield,
    Open,
    Read,
    Write,
}

impl Syscall {
    /// The ABI number of this syscall.
    pub open spec fn spec_number(self) -> u64 {
        match self {
            Syscall::Exit => 0,
            Syscall::Yield => 1,
            Syscall::Open => 2,
            Syscall::Read => 3,
            Syscall::Write => 4,
        }
    }

    /// The number a dispatcher compares a caller's register against.
    pub fn number(&self) -> (n: u64)
        ensures
            n == self.spec_number(),
    {
        match *self {
            Syscall::Exit => 0,
            Syscall::Yield => 1,
            Syscall::Open => 2,
            Syscall::Read => 3,
            Syscall::Write => 4,
        }
    }

    /// The syscall a raw ABI number denotes, if any; a dispatcher treats
    /// `None` as an unknown or unimplemented call.
    pub fn from_number(n: u64) -> (r: Option<Syscall>)
        ensures
            r matches Some(s) ==> s.spec_number() == n,
            n <= 4 ==> r is Some,
            n > 4 ==> r is None,
    {
        if n == 0 {
            Some(Syscall::Exit)
        } else if n == 1 {
            Some(Syscall::Yield)
        } else if n == 2 {
            Some(Syscall::Open)
        } else if n == 3 {
            Some(Syscall::Read)
        } else if n == 4 {
            Some(Syscall::Write)
        } else {
            None
        }
    }
}

/// The status a dispatcher writes back for raw syscall number `n`, for the
/// calls that need no filesystem work: `Yield` succeeds with 0, an unknown
/// or not yet implemented call yields -1, and `Exit` (`None`) halts the
/// calling task instead of returning.
pub fn dispatch_status(n: u64) -> (r: Option<i64>)
    ensures
        n == Syscall::Exit.spec_number() ==> r is None,
        n == Syscall::Yield.spec_number() ==> r == Some(0i64),
        n != Syscall::Exit.spec_number() && n != Syscall::Yield.spec_number() ==> r == Some(
            -1i64,
        ),
{
    match Syscall::from_number(n) {
        Some(Syscall::Exit) => None,
        Some(Syscall::Yield) => Some(0),
        _ => Some(-1),
    }
}

} // verus!
