//! Exhaustive parameter sweeps: enumerate a grid of fixed-point parameter
//! values, lay out per-task files in shards of 100, splice each combination
//! into a template, read the metric a run reports, and keep the best result.

pub mod args;
pub mod best;
pub mod config;
pub mod float_range;
pub mod grid;
pub mod metric;
pub mod paths;
pub mod task;
pub mod template;
pub mod text;
