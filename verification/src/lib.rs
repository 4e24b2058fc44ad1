//! Live monitor for a partitioned message stream: a filter program is run
//! against each message payload, matches are counted per partition, and the
//! counts are drawn as a bar chart until the operator quits.
//!
//! This crate holds the verified core: the per-partition counter store, the
//! match decision, the consumption-pipeline step, the configuration model and
//! the render-loop state machine. Terminal handling, the broker client and the
//! async plumbing live outside the library.

pub mod app_state;
pub mod config;
pub mod pipeline;
pub mod ui;
