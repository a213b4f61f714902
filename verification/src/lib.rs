//! Verified core of a Multi-Raft runtime: one Raft group per key, shared
//! peer links per node, a pluggable state machine, a file-backed log format
//! and a resumable snapshot fetcher.
//!
//! Everything here is plain data and decisions; the asynchronous Raft
//! engine, sockets, files and timers drive these pieces from the outside.

pub mod text;
pub mod error;
pub mod config;
pub mod json;
pub mod fsm;
pub mod cmd_json;
pub mod counter_fsm;
pub mod log_frames;
pub mod raft_log;
pub mod digest;
pub mod conn_metrics;
pub mod standby_throttle;
pub mod cluster;
pub mod router;
pub mod snapshot_fetch;
pub mod snapshot;
pub mod sm_store;
pub mod demo;
