use kambo_hive::graph::Graph;
use kambo_hive::runner::{fitness_of, pick_heuristic, DummyGARunner, GARunner, HeuristicRunner};
use kambo_hive::task::Task;
use kambo_hive::worker::{worker_step, WorkerAction, WorkerEvent, WorkerPhase};

fn assert_roman(g: &Graph, f: &[u8]) {
    assert_eq!(f.len(), g.get_num_vertices());
    for v in 0..f.len() {
        assert!(f[v] <= 2);
        if f[v] == 0 {
            let dominated = g.get_neighbors(v).iter().any(|&n| f[n] == 2);
            assert!(dominated, "vertex {} is labeled 0 with no 2-neighbor", v);
        }
    }
}

fn path_graph(n: usize) -> Graph {
    let edges: Vec<(usize, usize)> = (0..n - 1).map(|i| (i, i + 1)).collect();
    Graph::new(n, &edges)
}

#[test]
fn new_builds_the_adjacency_lists_in_edge_order() {
    let g = Graph::new(3, &[(0, 1), (1, 2)]);
    assert_eq!(g.get_num_vertices(), 3);
    assert_eq!(g.get_neighbors(0), &vec![1]);
    assert_eq!(g.get_neighbors(1), &vec![0, 2]);
    assert_eq!(g.get_neighbors(2), &vec![1]);
    assert_eq!(g.get_vertex_degree(1), 2);
}

#[test]
fn add_vertex_and_add_edge_grow_the_graph() {
    let mut g = Graph::new(0, &[]);
    g.add_vertex(2);
    assert_eq!(g.get_num_vertices(), 3);
    assert_eq!(g.get_vertex_degree(2), 0);
    g.add_edge(1, 4);
    assert_eq!(g.get_num_vertices(), 5);
    assert_eq!(g.get_neighbors(1), &vec![4]);
    assert_eq!(g.get_neighbors(4), &vec![1]);
    assert_eq!(g.get_vertex_degree(0), 0);
}

#[test]
fn heuristics_produce_roman_labelings() {
    let g = path_graph(9);
    assert_roman(&g, &g.h1());
    assert_roman(&g, &g.h2());
    assert_roman(&g, &g.h3());
    assert_roman(&g, &g.h4());
    // a star: the hub should always end up labeled 2 by the degree-driven
    // heuristics
    let star = Graph::new(6, &[(0, 1), (0, 2), (0, 3), (0, 4), (0, 5)]);
    let f2 = star.h2();
    let f3 = star.h3();
    let f4 = star.h4();
    assert_roman(&star, &f2);
    assert_roman(&star, &f3);
    assert_roman(&star, &f4);
    assert_eq!(f2[0], 2);
    assert_eq!(f3[0], 2);
    assert_eq!(f4[0], 2);
    assert_roman(&star, &star.h1());
}

#[test]
fn heuristics_handle_tiny_graphs() {
    let single = Graph::new(1, &[]);
    assert_eq!(single.h1(), vec![2]);
    assert_eq!(single.h2(), vec![2]);
    assert_eq!(single.h3(), vec![2]);
    assert_eq!(single.h4(), vec![2]);
    let empty = Graph::new(0, &[]);
    assert_eq!(empty.h3(), Vec::<u8>::new());
    let pair = Graph::new(2, &[(0, 1)]);
    let f = pair.h2();
    assert_roman(&pair, &f);
}

#[test]
fn fitness_is_the_label_sum() {
    assert_eq!(fitness_of(&vec![]), 0);
    assert_eq!(fitness_of(&vec![2, 0, 1, 2]), 5);
    assert_eq!(fitness_of(&vec![255, 255]), 510);
}

#[test]
fn heuristic_choice_is_one_of_four() {
    for _ in 0..100 {
        let c = pick_heuristic();
        assert!((1..=4).contains(&c));
    }
}

#[test]
fn dummy_runner_keys_its_result_to_task_and_worker() {
    let task = Task::new("graph-a".to_string(), 3, "cfg".to_string());
    let task_id = task.id.clone();
    let runner = DummyGARunner;
    let r = runner.run(task, "worker-7".to_string());
    assert_eq!(r.task_id, task_id);
    assert_eq!(r.worker_id, "worker-7");
    assert_eq!(r.graph_id, "graph-a");
    // run_number 3: base 3 * 100 / 30 = 10, plus noise below 10
    assert!(r.fitness >= 10 && r.fitness < 20);
    assert_eq!(r.solution_data, vec![1, 2, 3, 4, 5, 6, 7, 8, 9]);
    assert_eq!(r.iterations_run, 1000);
}

#[test]
fn heuristic_runner_reports_a_labeling_weight() {
    let g = path_graph(5);
    let task = Task::new("p5".to_string(), 1, "cfg".to_string());
    let runner = HeuristicRunner { graphs_path: "graphs".to_string() };
    let r = runner.run_on_graph(&task, "w1", &g, 3, 12);
    assert_eq!(r.task_id, task.id);
    assert_eq!(r.worker_id, "w1");
    assert_eq!(r.graph_id, "p5");
    assert_eq!(r.processing_time_ms, 12);
    assert_eq!(r.iterations_run, 5);
    assert!(r.solution_data.is_empty());
    // the weight of any Roman domination labeling of a 5-path lies between
    // the optimum 4 and the all-twos worst case 10
    assert!(r.fitness >= 4 && r.fitness <= 10, "weight {}", r.fitness);
}

#[test]
fn worker_machine_walks_the_happy_path() {
    let task = Task::new("g".to_string(), 1, "cfg".to_string());
    let result = DummyGARunner.run(task, "w".to_string());

    let (p, a) = worker_step(WorkerPhase::Connecting, WorkerEvent::Connected);
    assert_eq!(p, WorkerPhase::Idle);
    assert!(matches!(a, WorkerAction::SendTaskRequest));

    let assigned = Task::new("g".to_string(), 2, "cfg".to_string());
    let (p, a) = worker_step(p, WorkerEvent::Assigned { task: assigned });
    assert_eq!(p, WorkerPhase::Executing);
    assert!(matches!(a, WorkerAction::RunTask { .. }));

    let (p, a) = worker_step(p, WorkerEvent::ResultReady { result });
    assert_eq!(p, WorkerPhase::Reporting);
    assert!(matches!(a, WorkerAction::SendReport { .. }));

    let (p, a) = worker_step(p, WorkerEvent::AckReceived);
    assert_eq!(p, WorkerPhase::Idle);
    assert!(matches!(a, WorkerAction::SendTaskRequest));

    let (p, a) = worker_step(p, WorkerEvent::NoWork);
    assert_eq!(p, WorkerPhase::Idle);
    assert!(matches!(a, WorkerAction::BackoffThenRequest));
}

#[test]
fn worker_machine_reconnects_on_failure_or_confusion() {
    // a transport failure from any phase abandons in-flight work
    for phase in [
        WorkerPhase::Connecting,
        WorkerPhase::Idle,
        WorkerPhase::Executing,
        WorkerPhase::Reporting,
    ] {
        let (p, a) = worker_step(phase, WorkerEvent::TransportFailed);
        assert_eq!(p, WorkerPhase::Connecting);
        assert!(matches!(a, WorkerAction::BackoffThenConnect));
    }
    // an event the phase does not expect closes the exchange too
    let (p, a) = worker_step(WorkerPhase::Idle, WorkerEvent::AckReceived);
    assert_eq!(p, WorkerPhase::Connecting);
    assert!(matches!(a, WorkerAction::BackoffThenConnect));
}
