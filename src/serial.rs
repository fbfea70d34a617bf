//! The transceiver's error type and the timing capabilities that its timer
//! must offer besides counting periods.
use vstd::prelude::*;

verus! {

/// Serial communication error.
#[derive(Debug, PartialEq, Eq)]
pub enum Error<E> {
    /// A pin operation failed with this error.
    Bus(E),
    /// A receive was started while the line was high, outside a start bit.
    InvalidInterrupt,
}

/// Restarting a timer's cycle count.
pub trait Reset {
    /// Restart the cycle count, keeping the configured period.
    fn reset(&mut self);
}

/// A cheap fixed-duration delay step.
pub trait Nop {
    /// Spend one near-zero-cost no-operation cycle.
    fn nop(&mut self);
}

} // verus!
