//! Emission of the subtitle markup: scalar formatting, the row-layout
//! engine, and the per-comment line writers.

pub mod ass;
pub mod rows;
pub mod utils;
