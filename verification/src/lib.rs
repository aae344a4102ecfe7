//! Core logic of a command-line tracker for followed streaming channels:
//! credential lifecycle decisions, batched identity/liveness resolution,
//! a local follow list, and the watch orchestrator's input normalization
//! and outcome aggregation. All I/O (network, processes, files) lives in
//! the surrounding application; this crate holds the verified rules.

pub mod clock;
pub mod creds;
pub mod follows;
pub mod listing;
pub mod paths;
pub mod resolver;
pub mod text;
pub mod urlenc;
pub mod vod;
pub mod watch;
