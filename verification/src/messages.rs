//! The request/response vocabulary of the coordination protocol.

use vstd::prelude::*;

use crate::result::TaskResult;
use crate::task::Task;

verus! {

/// A message a worker sends to the host. Each request is answered by exactly
/// one [`Response`] on the same connection.
#[derive(Debug)]
pub enum Request {
    /// Ask for one task; answered by `AssignTask` or `NoTaskAvailable`.
    RequestTask { worker_id: String },
    /// Deliver the result of an assigned task; always acknowledged.
    ReportResult { worker_id: String, result: TaskResult },
    /// Signal liveness; always acknowledged.
    Heartbeat { worker_id: String },
}

/// A message the host sends back to a worker.
#[derive(Debug)]
pub enum Response {
    /// One task, now assigned to the requesting worker.
    AssignTask { task: Task },
    /// The pending set is empty right now; the worker should back off and
    /// retry. This is the normal "no work" signal, not an error.
    NoTaskAvailable,
    /// Transport acknowledgement of a report or heartbeat.
    Ack,
    /// Reserved for host-to-worker control signals.
    Command { command_type: String, payload: String },
}

} // verus!
