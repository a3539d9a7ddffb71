//! Error kinds surfaced by the coordination core.

use vstd::prelude::*;

verus! {

/// The error kinds of the coordination core.
///
/// `UnknownAssignment` is the queue's defence against a straggler: a report
/// naming a (task, worker) pair that is not currently assigned. It is logged
/// and acknowledged, never fatal. `ConfigError` covers a bad strategy
/// selector at startup. `ProtocolError` covers a malformed message on a
/// connection. `DiscoveryTimeout` is raised by the transport layer when no
/// host answers a discovery broadcast in time.
#[derive(Debug, Clone, Copy, PartialEq, Eq, Structural)]
pub enum HiveError {
    ConfigError,
    ProtocolError,
    UnknownAssignment,
    DiscoveryTimeout,
}

} // verus!
