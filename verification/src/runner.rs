//! The pluggable compute-strategy boundary.
//!
//! A worker turns a task into a result through a [`GARunner`]. The
//! coordination core never inspects the algorithm; it only relies on the
//! result carrying the right join keys, which is all the trait promises.

use vstd::prelude::*;

use crate::graph::{roman_labels, Graph};
use crate::result::TaskResult;
use crate::rng::random_index_below;
use crate::task::Task;

verus! {

/// A compute strategy: given a task and the worker's identity, produce the
/// task's result. Implementations promise only that the result is keyed to
/// the task and worker it was asked about.
pub trait GARunner {
    fn run(&self, task: Task, worker_id: String) -> (r: TaskResult)
        ensures
            r@.task_id == task@.id,
            r@.worker_id == worker_id@,
            r@.graph_id == task@.graph_id,
    ;
}

/// A stand-in strategy for exercising the coordination path: it computes
/// nothing, returning a fitness derived from the trial number plus a small
/// random perturbation.
#[derive(Debug)]
pub struct DummyGARunner;

impl GARunner for DummyGARunner {
    fn run(&self, task: Task, worker_id: String) -> (r: TaskResult)
        ensures
            r@.task_id == task@.id,
            r@.worker_id == worker_id@,
            r@.graph_id == task@.graph_id,
    {
        let noise = random_index_below(10) as u64;
        let fitness = task.run_number as u64 * 100 / 30 + noise;
        let mut solution_data: Vec<u8> = Vec::new();
        let mut b: u8 = 1;
        while b <= 9
            invariant
                1 <= b <= 10,
            decreases 10 - b,
        {
            solution_data.push(b);
            b = b + 1;
        }
        TaskResult {
            task_id: task.id,
            worker_id,
            graph_id: task.graph_id,
            fitness,
            solution_data,
            iterations_run: 1000,
            processing_time_ms: 1000,
        }
    }
}

/// The sum of a byte sequence.
pub open spec fn sum_bytes(s: Seq<u8>) -> int
    decreases s.len(),
{
    if s.len() == 0 {
        0
    } else {
        sum_bytes(s.drop_last()) + s.last()
    }
}

proof fn lemma_sum_bytes_bound(s: Seq<u8>)
    ensures
        0 <= sum_bytes(s) <= s.len() * 255,
    decreases s.len(),
{
    if s.len() > 0 {
        lemma_sum_bytes_bound(s.drop_last());
        assert((s.len() - 1) * 255 + 255 == s.len() * 255) by (nonlinear_arith);
    }
}

/// The fitness the heuristic runner reports: the sum of the labeling.
pub fn fitness_of(solution: &Vec<u8>) -> (r: u64)
    requires
        solution@.len() * 255 <= u64::MAX,
    ensures
        r == sum_bytes(solution@),
{
    let n = solution.len();
    let mut acc: u64 = 0;
    let mut i: usize = 0;
    while i < n
        invariant
            i <= n,
            n == solution@.len(),
            n * 255 <= u64::MAX,
            acc == sum_bytes(solution@.subrange(0, i as int)),
            acc <= i * 255,
        decreases n - i,
    {
        proof {
            assert(solution@.subrange(0, i as int + 1).drop_last() =~= solution@.subrange(
                0,
                i as int,
            ));
            assert((i + 1) * 255 <= n * 255) by (nonlinear_arith)
                requires
                    i + 1 <= n,
            ;
            assert(i * 255 + 255 == (i + 1) * 255) by (nonlinear_arith);
        }
        acc = acc + solution[i] as u64;
        i = i + 1;
    }
    proof {
        assert(solution@.subrange(0, n as int) =~= solution@);
    }
    acc
}

/// Draws which labeling heuristic to run, uniformly among the four.
pub fn pick_heuristic() -> (r: usize)
    ensures
        1 <= r <= 4,
{
    1 + random_index_below(4)
}

/// The worker-side strategy that labels a graph with one of the four
/// heuristics and reports the labeling's weight as fitness.
#[derive(Debug)]
pub struct HeuristicRunner {
    /// Directory holding the graph files, joined with each task's graph
    /// name by the transport layer that loads them.
    pub graphs_path: String,
}

impl HeuristicRunner {
    /// Runs heuristic `heuristic_choice` on the already-loaded graph and
    /// assembles the task's result: the fitness is the weight (label sum)
    /// of a valid Roman domination labeling of that graph, and the
    /// iteration count is its vertex count.
    pub fn run_on_graph(
        &self,
        task: &Task,
        worker_id: &str,
        graph: &Graph,
        heuristic_choice: usize,
        processing_time_ms: u64,
    ) -> (r: TaskResult)
        requires
            graph.wf(),
            1 <= heuristic_choice <= 4,
            graph.num_vertices_spec() * 255 <= u64::MAX,
        ensures
            r@.task_id == task@.id,
            r@.worker_id == worker_id@,
            r@.graph_id == task@.graph_id,
            r@.processing_time_ms == processing_time_ms,
            r@.iterations_run == graph.num_vertices_spec(),
            r@.solution_data.len() == 0,
            exists|f: Seq<u8>|
                #[trigger] roman_labels(graph.adj(), f) && r@.fitness == sum_bytes(f),
    {
        let labeling = if heuristic_choice == 1 {
            graph.h1()
        } else if heuristic_choice == 2 {
            graph.h2()
        } else if heuristic_choice == 3 {
            graph.h3()
        } else {
            graph.h4()
        };
        let fitness = fitness_of(&labeling);
        let iterations_run = graph.get_num_vertices() as u64;
        proof {
            assert(roman_labels(graph.adj(), labeling@) && fitness == sum_bytes(labeling@));
        }
        TaskResult {
            task_id: task.id.clone(),
            worker_id: worker_id.to_owned(),
            graph_id: task.graph_id.clone(),
            fitness,
            solution_data: Vec::new(),
            iterations_run,
            processing_time_ms,
        }
    }
}

} // verus!
