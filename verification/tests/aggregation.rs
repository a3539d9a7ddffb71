use kambo_hive::result::TaskResult;
use kambo_hive::result_aggregator::ResultAggregator;

fn sample_result(task_id: &str, worker_id: &str, graph_id: &str, fitness: u64) -> TaskResult {
    TaskResult {
        task_id: task_id.to_string(),
        worker_id: worker_id.to_string(),
        graph_id: graph_id.to_string(),
        fitness,
        solution_data: vec![1, 2, 3],
        iterations_run: 42,
        processing_time_ms: 7,
    }
}

#[test]
fn record_groups_results_by_graph() {
    let mut agg = ResultAggregator::new();
    assert_eq!(agg.get_results_collected(), 0);
    agg.add_result(sample_result("t1", "w1", "ga", 10)).unwrap();
    agg.add_result(sample_result("t2", "w2", "gb", 20)).unwrap();
    agg.add_result(sample_result("t3", "w1", "ga", 30)).unwrap();
    assert_eq!(agg.get_results_collected(), 3);
    let snap = agg.snapshot();
    assert_eq!(snap.total_results_collected, 3);
    assert_eq!(snap.results_by_graph.len(), 2);
    let ga = &snap.results_by_graph[0];
    assert_eq!(ga.graph_id, "ga");
    assert_eq!(ga.results.len(), 2);
    assert_eq!(ga.results[0].fitness, 10);
    assert_eq!(ga.results[1].fitness, 30);
    let gb = &snap.results_by_graph[1];
    assert_eq!(gb.graph_id, "gb");
    assert_eq!(gb.results.len(), 1);
    assert_eq!(gb.results[0].fitness, 20);
}

#[test]
fn duplicate_results_are_counted_twice_and_kept_twice() {
    // duplicates are accepted, not deduplicated: the task queue, not the
    // aggregator, decides whether a task is done
    let mut agg = ResultAggregator::new();
    agg.add_result(sample_result("t1", "w1", "ga", 10)).unwrap();
    agg.add_result(sample_result("t1", "w1", "ga", 10)).unwrap();
    assert_eq!(agg.get_results_collected(), 2);
    let snap = agg.snapshot();
    assert_eq!(snap.results_by_graph.len(), 1);
    let ga = &snap.results_by_graph[0];
    assert_eq!(ga.results.len(), 2);
    assert_eq!(ga.results[0].task_id, "t1");
    assert_eq!(ga.results[1].task_id, "t1");
    assert_eq!(ga.results[0].fitness, 10);
    assert_eq!(ga.results[1].fitness, 10);
}

#[test]
fn snapshot_is_a_deep_copy() {
    let mut agg = ResultAggregator::new();
    agg.add_result(sample_result("t1", "w1", "ga", 10)).unwrap();
    let snap = agg.snapshot();
    // recording more afterwards does not disturb the snapshot
    agg.add_result(sample_result("t2", "w1", "ga", 20)).unwrap();
    assert_eq!(snap.results_by_graph[0].results.len(), 1);
    assert_eq!(agg.snapshot().results_by_graph[0].results.len(), 2);
    assert_eq!(snap.results_by_graph[0].results[0].solution_data, vec![1, 2, 3]);
}

#[test]
fn report_combines_counters_and_results() {
    let mut agg = ResultAggregator::new();
    agg.add_result(sample_result("t1", "w1", "ga", 10)).unwrap();
    agg.add_result(sample_result("t2", "w2", "gb", 20)).unwrap();
    let report = agg.build_report(6, 2);
    assert_eq!(report.total_tasks, 6);
    assert_eq!(report.completed_tasks, 2);
    assert_eq!(report.total_results, 2);
    assert_eq!(report.results_by_graph.len(), 2);
}
