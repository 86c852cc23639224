//! Scans of Delta tables.

pub mod casts;
pub mod orders;
pub mod paths;
pub mod scalar;
pub mod scan;
pub mod statistics;
