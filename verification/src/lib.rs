//! Disk-usage analysis: the file list of a scan, the per-folder totals and
//! duplicate groups derived from it, and the rules by which deleting,
//! duplicating and moving files keep the three consistent.

pub mod aggregate;
pub mod duplicates;
pub mod hashing;
pub mod messages;
mod ordering;
pub mod paths;
pub mod records;
pub mod scanner;
pub mod session;
pub mod visualizer;
