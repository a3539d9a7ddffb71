//! The worker client as a state machine.
//!
//! The transport loop owns the socket and the clock; this module owns the
//! decisions. The loop feeds each observed event into [`worker_step`],
//! performs the returned action — connect, send a request, run the compute
//! strategy, send a report, or sleep and retry — and hands back the next
//! event. An in-flight assignment lost to a transport failure is abandoned
//! here; the host's staleness sweep reclaims it.

use vstd::prelude::*;

use crate::result::TaskResult;
use crate::task::Task;

verus! {

/// Where the worker loop stands.
#[derive(Debug, Clone, Copy, PartialEq, Eq, Structural)]
pub enum WorkerPhase {
    /// No live connection; the next step is to (re)connect.
    Connecting,
    /// Connected and between tasks.
    Idle,
    /// Running the compute strategy on an assigned task.
    Executing,
    /// Waiting for the host to acknowledge a report.
    Reporting,
}

/// What the transport observed.
#[derive(Debug)]
pub enum WorkerEvent {
    /// A connection to the host is up.
    Connected,
    /// The host assigned a task.
    Assigned { task: Task },
    /// The host had no work.
    NoWork,
    /// The compute strategy finished.
    ResultReady { result: TaskResult },
    /// The host acknowledged the report.
    AckReceived,
    /// The connection failed or an unexpected message arrived.
    TransportFailed,
}

/// What the transport must do next.
#[derive(Debug)]
pub enum WorkerAction {
    /// Open a connection to the host.
    Connect,
    /// Send a task request.
    SendTaskRequest,
    /// Run the compute strategy on the carried task.
    RunTask { task: Task },
    /// Send this result to the host.
    SendReport { result: TaskResult },
    /// Sleep a backoff interval, then send a task request.
    BackoffThenRequest,
    /// Sleep a backoff interval, then reconnect.
    BackoffThenConnect,
}

/// The worker transition table. A transport failure from any phase drops
/// back to connecting; so does any event that the current phase does not
/// expect, which closes a confused exchange instead of wedging the loop.
pub open spec fn worker_step_spec(phase: WorkerPhase, event: WorkerEvent) -> (
    WorkerPhase,
    WorkerAction,
) {
    match (phase, event) {
        (WorkerPhase::Connecting, WorkerEvent::Connected) => (
            WorkerPhase::Idle,
            WorkerAction::SendTaskRequest,
        ),
        (WorkerPhase::Idle, WorkerEvent::Assigned { task }) => (
            WorkerPhase::Executing,
            WorkerAction::RunTask { task },
        ),
        (WorkerPhase::Idle, WorkerEvent::NoWork) => (
            WorkerPhase::Idle,
            WorkerAction::BackoffThenRequest,
        ),
        (WorkerPhase::Executing, WorkerEvent::ResultReady { result }) => (
            WorkerPhase::Reporting,
            WorkerAction::SendReport { result },
        ),
        (WorkerPhase::Reporting, WorkerEvent::AckReceived) => (
            WorkerPhase::Idle,
            WorkerAction::SendTaskRequest,
        ),
        (_, _) => (WorkerPhase::Connecting, WorkerAction::BackoffThenConnect),
    }
}

/// One decision of the worker loop; exactly the transition table.
pub fn worker_step(phase: WorkerPhase, event: WorkerEvent) -> (r: (WorkerPhase, WorkerAction))
    ensures
        r == worker_step_spec(phase, event),
{
    match (phase, event) {
        (WorkerPhase::Connecting, WorkerEvent::Connected) => (
            WorkerPhase::Idle,
            WorkerAction::SendTaskRequest,
        ),
        (WorkerPhase::Idle, WorkerEvent::Assigned { task }) => (
            WorkerPhase::Executing,
            WorkerAction::RunTask { task },
        ),
        (WorkerPhase::Idle, WorkerEvent::NoWork) => (
            WorkerPhase::Idle,
            WorkerAction::BackoffThenRequest,
        ),
        (WorkerPhase::Executing, WorkerEvent::ResultReady { result }) => (
            WorkerPhase::Reporting,
            WorkerAction::SendReport { result },
        ),
        (WorkerPhase::Reporting, WorkerEvent::AckReceived) => (
            WorkerPhase::Idle,
            WorkerAction::SendTaskRequest,
        ),
        (_, _) => (WorkerPhase::Connecting, WorkerAction::BackoffThenConnect),
    }
}

} // verus!
