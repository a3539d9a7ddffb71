//! The unit of work exchanged between host and workers.

use vstd::prelude::*;

verus! {

/// One unit of work: a single trial run of a compute strategy against one
/// graph file. Created once at seeding time and never mutated afterwards.
#[derive(Debug)]
pub struct Task {
    /// Unique opaque identifier, generated at creation.
    pub id: String,
    /// Name of the graph file the task operates on.
    pub graph_id: String,
    /// Which trial this is for that graph.
    pub run_number: u32,
    /// Opaque serialized configuration blob, passed through unmodified to the
    /// compute strategy.
    pub ag_config: String,
}

/// Mathematical image of a [`Task`].
pub struct TaskView {
    pub id: Seq<char>,
    pub graph_id: Seq<char>,
    pub run_number: u32,
    pub ag_config: Seq<char>,
}

impl View for Task {
    type V = TaskView;

    open spec fn view(&self) -> TaskView {
        TaskView {
            id: self.id@,
            graph_id: self.graph_id@,
            run_number: self.run_number,
            ag_config: self.ag_config@,
        }
    }
}

/// Relies on `uuid::Uuid::new_v4` and the hyphenated `Display` form of
/// `uuid::Uuid`: a fresh random identifier rendered as 36 ASCII characters.
/// The value depends on the process's randomness source, so nothing is
/// claimed about it beyond its length.
#[verifier::external_body]
fn fresh_task_id() -> (r: String)
    ensures
        r@.len() == 36,
{
    uuid::Uuid::new_v4().to_string()
}

impl Task {
    /// Builds a task around a freshly drawn identifier.
    pub fn new(graph_id: String, run_number: u32, ag_config: String) -> (r: Task)
        ensures
            r.graph_id == graph_id,
            r.run_number == run_number,
            r.ag_config == ag_config,
            r.id@.len() == 36,
    {
        Task { id: fresh_task_id(), graph_id, run_number, ag_config }
    }

    /// Field-by-field copy.
    pub fn duplicate(&self) -> (r: Task)
        ensures
            r@ == self@,
    {
        Task {
            id: self.id.clone(),
            graph_id: self.graph_id.clone(),
            run_number: self.run_number,
            ag_config: self.ag_config.clone(),
        }
    }
}

} // verus!
