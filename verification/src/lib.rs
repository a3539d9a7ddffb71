//! Distributed task coordination for graph-algorithm trial runs.
//!
//! One host process owns a queue of tasks (one per graph file and trial) and
//! hands them out to worker processes over a request/response protocol.
//! Workers execute a pluggable compute strategy and report results back; the
//! host aggregates results per graph and tracks completion.
//!
//! This crate holds the coordination logic itself: the task queue with its
//! distribution strategies, the result aggregator, the request handler, the
//! message framing, the discovery payloads and the worker state machine.
//! Network and file transport live outside the crate.

pub mod discovery;
pub mod errors;
pub mod framing;
pub mod graph;
pub mod messages;
pub mod result;
pub mod result_aggregator;
mod rng;
pub mod runner;
pub mod server;
pub mod task;
pub mod task_manager;
pub mod worker;
