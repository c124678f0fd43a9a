//! The machine's power events, as the OS hooks report them.
use vstd::prelude::*;

verus! {

/// The machine is about to sleep, or has woken.
#[derive(Debug, Clone, Copy, PartialEq, Eq, Structural)]
pub enum PowerEvent {
    Sleep,
    Wake,
}

/// Keeps the power listeners for the life of the process; dropping it unregisters nothing.
#[derive(Debug, Default)]
pub struct WakeGuard {
    keep: (),
}

} // verus!
