//! Decision logic of an interactive process monitor: risk scoring of
//! processes, the monitor's state machine (selection, sorting, event log),
//! and the parsers and aggregations applied to what the operating system and
//! the GPU counters report.
pub mod models;
pub mod text;
pub mod float;
pub mod analyzer;
pub mod app;
pub mod sorting;
pub mod tick;
pub mod collector;
pub mod gpu;
pub mod logger;
pub mod dashboard;
pub mod laws;
