//! Decision rules for operator signals.  The surrounding process traps the
//! signals, asks here what each one means, and performs the chosen action.

use vstd::prelude::*;

verus! {

/// An operator signal the process traps.
#[derive(Clone, Copy, PartialEq, Eq, Structural, Debug)]
pub enum SignalKind {
    Term,
    Int,
    Usr1,
    Usr2,
}

/// What the process does in response to one signal.
#[derive(Clone, Copy, PartialEq, Eq, Structural, Debug)]
pub enum SignalAction {
    /// Stop the server and leave the trap loop.
    Quit,
    /// Log metrics and storage statistics.
    DumpStats,
    /// Profile memory use for a while.
    ProfileMemory,
}

/// The action each signal triggers: either termination signal stops the
/// server, the first user signal dumps statistics, the second profiles
/// memory.
pub open spec fn spec_signal_action(sig: SignalKind) -> SignalAction {
    match sig {
        SignalKind::Term => SignalAction::Quit,
        SignalKind::Int => SignalAction::Quit,
        SignalKind::Usr1 => SignalAction::DumpStats,
        SignalKind::Usr2 => SignalAction::ProfileMemory,
    }
}

/// Decides what to do for one trapped signal.
pub fn signal_action(sig: SignalKind) -> (a: SignalAction)
    ensures
        a == spec_signal_action(sig),
{
    match sig {
        SignalKind::Term => SignalAction::Quit,
        SignalKind::Int => SignalAction::Quit,
        SignalKind::Usr1 => SignalAction::DumpStats,
        SignalKind::Usr2 => SignalAction::ProfileMemory,
    }
}

} // verus!
