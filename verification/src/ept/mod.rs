//! Extended page tables: mapping types, entry encoding, the per-partition
//! mapping planner and installation of page tables into a buffer.

pub mod types;
pub mod table;
pub mod error;
pub mod memory;
pub mod plan;
pub mod install;
