//! What the search knows about files, and the filters it applies to them.

pub mod fields;
pub mod file;
pub mod filter;
pub mod pattern;
pub mod size;
