//! The fatal per-round error kinds. Every one aborts the run; none is
//! retried.

use vstd::prelude::*;

verus! {

/// Why a round could not be turned into a CSV line.
#[derive(Clone, Copy, Debug, PartialEq, Eq, Structural)]
pub enum RoundError {
    /// Two meters contributed a value at the same output position; the field
    /// is the 1-based position both claimed.
    PositionCollision { position: usize },
    /// Fewer than four output positions were populated after fusing.
    IncompleteRound,
    /// The span between the earliest and latest reading timestamp of the
    /// round reached one second.
    SkewExceeded,
    /// A reading's timestamp predates the Unix epoch.
    TimeBeforeEpoch,
}

} // verus!
