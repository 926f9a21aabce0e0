use vstd::prelude::*;

verus! {

/// Failures reported by track operations.
#[derive(Debug, Clone, PartialEq, Eq, Structural)]
pub enum BedError {
    /// A rolling statistic was asked for with an even window width.
    InvalidWindow { window_size: usize },
    /// No record of the requested contig is present.
    EmptyContig,
    /// The track holds too few records for the operation.
    EmptyStore,
    /// Circular padding wider than the contig it wraps around.
    PadExceedsContig { pad: usize, len: usize },
    /// The scores cannot be rescaled (zero total, or zero spread).
    DegenerateTrack,
}

} // verus!
