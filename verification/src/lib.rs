//! Recipe-driven discovery and aggregation of reclaimable development
//! artifacts: classification of matched paths, size accounting, age
//! filtering and advisory scoring.

pub mod advice;
pub mod age;
pub mod aggregate;
pub mod classify;
pub mod clean;
pub mod cli;
pub mod hints;
pub mod matcher;
pub mod nesting;
pub mod rank;
pub mod recipes;
pub mod render;
pub mod report;
pub mod scan;
pub mod size;
pub mod text;
