//! Position policies and step modes of the portfolio kernel.
use vstd::prelude::*;

verus! {

/// How the ledger treats additional opening fills.
#[derive(Debug, Clone, Copy, PartialEq, Eq, Structural)]
pub enum PositionPolicy {
    /// One net position at a time; further opening fills are refused.
    Net,
    /// One net position at a time, grown by further opening fills at a
    /// size-weighted average entry.
    NetAveraging,
    /// Independent concurrent positions, both directions (hedging).
    Independent,
}

impl Default for PositionPolicy {
    fn default() -> (policy: Self)
        ensures
            policy == PositionPolicy::Net,
    {
        PositionPolicy::Net
    }
}

/// Which market event is driving a step.
#[derive(Debug, Clone, Copy, PartialEq, Eq, Structural)]
pub enum StepMode {
    /// A completed OHLC bar.
    Bar,
    /// A single trade print, carried as a degenerate bar.
    Trade,
}

} // verus!
