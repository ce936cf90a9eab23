//! The fail-stop policy for faults that cannot be reported as a value.
//!
//! A fault ends the process: nothing unwinds into the caller and no result is
//! handed back. What is decided here is the transition and the way to halt;
//! the host carries the halt out and never returns from it.

use vstd::prelude::*;

verus! {

/// The process as the fault policy sees it.
#[derive(Clone, Copy, Debug, PartialEq, Eq, Structural)]
pub enum RunState {
    /// No fault has been raised.
    Running,
    /// A fault was raised. There is no way back from here.
    Faulted,
}

/// How the host halts once the process has faulted.
#[derive(Clone, Copy, Debug, PartialEq, Eq, Structural)]
pub enum Halt {
    /// Execute the target's trap instruction.
    Trap,
    /// Spin in place, for ever.
    Spin,
}

/// The way to halt on a target: by its trap instruction where it has one,
/// else by spinning.
pub open spec fn halt_on(target_traps: bool) -> Halt {
    if target_traps {
        Halt::Trap
    } else {
        Halt::Spin
    }
}

/// Takes a fault: whatever the state was, the process is faulted from now on,
/// and the host is told how to halt. Called again in the faulted state it
/// answers the same, so the state is never left.
pub fn panic_handler(state: RunState, target_traps: bool) -> (r: (RunState, Halt))
    ensures
        r.0 == RunState::Faulted,
        r.1 == halt_on(target_traps),
{
    let halt = if target_traps {
        Halt::Trap
    } else {
        Halt::Spin
    };
    match state {
        RunState::Running => (RunState::Faulted, halt),
        RunState::Faulted => (RunState::Faulted, halt),
    }
}

} // verus!
