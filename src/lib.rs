//! Counts, for each gene region, the sequencing reads that overlap it on the
//! same strand and chromosome.

pub mod args;
pub mod index;
pub mod interval;
pub mod overlap;
