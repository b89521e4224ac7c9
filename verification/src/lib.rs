//! Counting the integer lattice points of a quarter-disc, and the estimate
//! of pi that the count gives.

pub mod counter;
pub mod disc;
pub mod error;
pub mod estimate;
pub mod partition;
pub mod sqrt;
