//! The record a worker produces for one completed task.

use vstd::prelude::*;

verus! {

/// Outcome of one task, produced exactly once per successful execution.
///
/// The fitness convention (lower- or higher-is-better) is fixed by the
/// compute strategy and propagated opaquely, as is the solution payload.
#[derive(Debug)]
pub struct TaskResult {
    /// Identifier of the task this result answers.
    pub task_id: String,
    /// Identifier of the worker that executed the task.
    pub worker_id: String,
    /// Name of the graph file the task operated on.
    pub graph_id: String,
    /// Quality score reported by the compute strategy.
    pub fitness: u64,
    /// Opaque solution payload.
    pub solution_data: Vec<u8>,
    /// How many iterations the strategy ran.
    pub iterations_run: u64,
    /// Wall-clock duration of the execution, in milliseconds.
    pub processing_time_ms: u64,
}

/// Mathematical image of a [`TaskResult`].
pub struct TaskResultView {
    pub task_id: Seq<char>,
    pub worker_id: Seq<char>,
    pub graph_id: Seq<char>,
    pub fitness: u64,
    pub solution_data: Seq<u8>,
    pub iterations_run: u64,
    pub processing_time_ms: u64,
}

impl View for TaskResult {
    type V = TaskResultView;

    open spec fn view(&self) -> TaskResultView {
        TaskResultView {
            task_id: self.task_id@,
            worker_id: self.worker_id@,
            graph_id: self.graph_id@,
            fitness: self.fitness,
            solution_data: self.solution_data@,
            iterations_run: self.iterations_run,
            processing_time_ms: self.processing_time_ms,
        }
    }
}

impl TaskResult {
    /// Field-by-field copy.
    pub fn duplicate(&self) -> (r: TaskResult)
        ensures
            r@ == self@,
    {
        let mut solution_data: Vec<u8> = Vec::new();
        let mut i: usize = 0;
        while i < self.solution_data.len()
            invariant
                i <= self.solution_data.len(),
                solution_data@ == self.solution_data@.subrange(0, i as int),
            decreases self.solution_data.len() - i,
        {
            solution_data.push(self.solution_data[i]);
            i = i + 1;
        }
        proof {
            assert(solution_data@ =~= self.solution_data@);
        }
        TaskResult {
            task_id: self.task_id.clone(),
            worker_id: self.worker_id.clone(),
            graph_id: self.graph_id.clone(),
            fitness: self.fitness,
            solution_data,
            iterations_run: self.iterations_run,
            processing_time_ms: self.processing_time_ms,
        }
    }
}

} // verus!
