//! Incremental log-file analysis: a pattern matcher with fixed precedence,
//! per-pattern sliding-window frequency tracking, cross-event correlation,
//! and an offset-resumable tailer with a per-file coordinator.

pub mod rules;
pub mod text;
pub mod clock;
pub mod detection;
pub mod pattern_matcher;
pub mod frequency_tracker;
pub mod correlation_engine;
pub mod log_reader;
pub mod log_files;
pub mod coordinator;
