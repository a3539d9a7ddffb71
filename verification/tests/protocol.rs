use kambo_hive::messages::{Request, Response};
use kambo_hive::result::TaskResult;
use kambo_hive::result_aggregator::ResultAggregator;
use kambo_hive::server::{handle_request, WorkerLiveness};
use kambo_hive::task::Task;
use kambo_hive::task_manager::{DistributionStrategy, TaskManager};

fn result_for(task: &Task, worker_id: &str, fitness: u64) -> TaskResult {
    TaskResult {
        task_id: task.id.clone(),
        worker_id: worker_id.to_string(),
        graph_id: task.graph_id.clone(),
        fitness,
        solution_data: Vec::new(),
        iterations_run: 5,
        processing_time_ms: 3,
    }
}

#[test]
fn request_task_assigns_or_reports_no_work() {
    let mut tm = TaskManager::new(DistributionStrategy::Fifo);
    let mut agg = ResultAggregator::new();
    let mut live = WorkerLiveness::new();
    tm.add_new_graph_tasks("g1", 1, "cfg");
    let r1 = handle_request(
        &mut tm,
        &mut agg,
        &mut live,
        Request::RequestTask { worker_id: "w1".to_string() },
        100,
    );
    assert!(matches!(r1, Response::AssignTask { .. }));
    let r2 = handle_request(
        &mut tm,
        &mut agg,
        &mut live,
        Request::RequestTask { worker_id: "w1".to_string() },
        101,
    );
    assert!(matches!(r2, Response::NoTaskAvailable));
}

#[test]
fn report_result_is_acked_and_credited_once() {
    let mut tm = TaskManager::new(DistributionStrategy::Fifo);
    let mut agg = ResultAggregator::new();
    let mut live = WorkerLiveness::new();
    tm.add_new_graph_tasks("g1", 1, "cfg");
    let task = match handle_request(
        &mut tm,
        &mut agg,
        &mut live,
        Request::RequestTask { worker_id: "w1".to_string() },
        100,
    ) {
        Response::AssignTask { task } => task,
        other => panic!("expected an assignment, got {:?}", other),
    };
    let report = Request::ReportResult {
        worker_id: "w1".to_string(),
        result: result_for(&task, "w1", 9),
    };
    let r = handle_request(&mut tm, &mut agg, &mut live, report, 200);
    assert!(matches!(r, Response::Ack));
    assert_eq!(tm.get_completed_tasks_count(), 1);
    assert_eq!(agg.get_results_collected(), 1);
    // a duplicate report is still acked and recorded, but not re-credited
    let duplicate = Request::ReportResult {
        worker_id: "w1".to_string(),
        result: result_for(&task, "w1", 9),
    };
    let r2 = handle_request(&mut tm, &mut agg, &mut live, duplicate, 201);
    assert!(matches!(r2, Response::Ack));
    assert_eq!(tm.get_completed_tasks_count(), 1);
    assert_eq!(agg.get_results_collected(), 2);
}

#[test]
fn heartbeat_updates_last_seen() {
    let mut tm = TaskManager::new(DistributionStrategy::Fifo);
    let mut agg = ResultAggregator::new();
    let mut live = WorkerLiveness::new();
    assert_eq!(live.last_seen("w1"), None);
    let r = handle_request(
        &mut tm,
        &mut agg,
        &mut live,
        Request::Heartbeat { worker_id: "w1".to_string() },
        500,
    );
    assert!(matches!(r, Response::Ack));
    assert_eq!(live.last_seen("w1"), Some(500));
    assert_eq!(live.last_seen("w2"), None);
    handle_request(
        &mut tm,
        &mut agg,
        &mut live,
        Request::Heartbeat { worker_id: "w1".to_string() },
        900,
    );
    assert_eq!(live.last_seen("w1"), Some(900));
}

#[test]
fn two_workers_drain_six_tasks_into_a_full_report() {
    // three graphs, two trials each, Fifo: two workers pull one task at a
    // time and report immediately until everything is done
    let mut tm = TaskManager::new(DistributionStrategy::Fifo);
    let mut agg = ResultAggregator::new();
    let mut live = WorkerLiveness::new();
    tm.add_new_graph_tasks("g1", 2, "cfg");
    tm.add_new_graph_tasks("g2", 2, "cfg");
    tm.add_new_graph_tasks("g3", 2, "cfg");
    assert_eq!(tm.get_total_tasks(), 6);

    let workers = ["w1", "w2"];
    let mut now: u64 = 1;
    let mut turn = 0usize;
    while tm.get_completed_tasks_count() < tm.get_total_tasks() {
        let worker = workers[turn % 2];
        turn += 1;
        now += 1;
        let resp = handle_request(
            &mut tm,
            &mut agg,
            &mut live,
            Request::RequestTask { worker_id: worker.to_string() },
            now,
        );
        match resp {
            Response::AssignTask { task } => {
                now += 1;
                let r = handle_request(
                    &mut tm,
                    &mut agg,
                    &mut live,
                    Request::ReportResult {
                        worker_id: worker.to_string(),
                        result: result_for(&task, worker, task.run_number as u64),
                    },
                    now,
                );
                assert!(matches!(r, Response::Ack));
            }
            Response::NoTaskAvailable => panic!("work ran out before completion"),
            other => panic!("unexpected response {:?}", other),
        }
    }
    assert_eq!(tm.get_completed_tasks_count(), 6);
    let report = agg.build_report(tm.get_total_tasks(), tm.get_completed_tasks_count());
    assert_eq!(report.total_tasks, 6);
    assert_eq!(report.completed_tasks, 6);
    assert_eq!(report.total_results, 6);
    assert_eq!(report.results_by_graph.len(), 3);
    for group in &report.results_by_graph {
        assert_eq!(group.results.len(), 2);
    }
}

#[test]
fn lost_worker_task_is_reclaimed_and_reassigned() {
    // a worker receives an assignment, then disappears without reporting;
    // after the assignment age limit passes, the sweep returns the task to
    // the pending queue and another draw hands out the same task again
    let mut tm = TaskManager::new(DistributionStrategy::Fifo);
    let mut agg = ResultAggregator::new();
    let mut live = WorkerLiveness::new();
    tm.add_new_graph_tasks("g1", 1, "cfg");
    let task = match handle_request(
        &mut tm,
        &mut agg,
        &mut live,
        Request::RequestTask { worker_id: "w1".to_string() },
        1_000,
    ) {
        Response::AssignTask { task } => task,
        other => panic!("expected an assignment, got {:?}", other),
    };
    // before the age limit passes, nothing is reclaimed
    tm.reclaim_stale(5_000, 3_000);
    assert!(tm.next_task("w2", 3_000).is_none());
    // after it passes, the same task comes back out
    tm.reclaim_stale(5_000, 7_000);
    let again = tm.next_task("w2", 7_000).unwrap();
    assert_eq!(again.id, task.id);
    assert_eq!(again.graph_id, task.graph_id);
    assert_eq!(again.run_number, task.run_number);
    // the straggler's late report is rejected by the queue but would still
    // be acknowledged by the server
    assert!(tm.complete(&task.id, "w1").is_err());
    assert_eq!(tm.complete(&task.id, "w2"), Ok(()));
}
