//! The background spinner's decision.
//!
//! A spinner is a thread that does nothing but add one to a counter which it
//! shares with the other spinners. The shared counter and the thread belong to
//! the driving program; what the spinner does with each value it observes is
//! decided here.

use vstd::prelude::*;

verus! {

/// What a spinner does after one increment of the shared counter.
#[derive(Clone, Copy, Debug, PartialEq, Eq, Structural)]
pub enum Spin {
    /// Increment again.
    Again,
    /// The counter held its greatest value before this increment, so the
    /// increment wrapped it around: there is nothing left to count.
    Exhausted,
}

/// The decision for a counter that held `previous` before the increment.
pub open spec fn spin_after(previous: u64) -> Spin {
    if previous < u64::MAX {
        Spin::Again
    } else {
        Spin::Exhausted
    }
}

/// One turn of a spinner. `previous` is the value that the shared counter held
/// just before this spinner added one to it. The spinner goes on for as long
/// as this returns [`Spin::Again`]; a program that means it to spin forever
/// treats [`Spin::Exhausted`] as a fault.
pub fn spin_forever(previous: u64) -> (next: Spin)
    ensures
        next == spin_after(previous),
        next == Spin::Exhausted <==> previous == u64::MAX,
{
    if previous < u64::MAX {
        Spin::Again
    } else {
        Spin::Exhausted
    }
}

} // verus!
