//! Genomic interval-score tracks: range filtering, contig grouping and
//! window padding, and a streaming merge of touching intervals.
//!
//! Scores are carried as an opaque type parameter `S`: every operation here
//! moves scores around without doing arithmetic on them, so the same code
//! serves any numeric representation chosen by the caller.

mod error;
mod record;
mod merge;
mod store;

pub use error::BedError;
pub use record::{BEDGraphRecord, BEDRecord};
pub use merge::{BEDData, RegionMerger};
pub use store::{BEDGraphData, RollFn};
