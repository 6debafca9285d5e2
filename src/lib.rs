//! A periodic job runner: interval parsing, outcome classification, job
//! discovery and the per-group tick state machine that a runtime drives.
pub mod outcome;
pub mod interval;
pub mod config;
pub mod group;
pub mod source;
