use kambo_hive::errors::HiveError;
use kambo_hive::task_manager::{parse_strategy, DistributionStrategy, TaskManager};

#[test]
fn fifo_returns_tasks_in_insertion_order() {
    let mut tm = TaskManager::new(DistributionStrategy::Fifo);
    tm.add_new_graph_tasks("g1", 3, "cfg");
    let t1 = tm.next_task("w", 10).unwrap();
    let t2 = tm.next_task("w", 11).unwrap();
    let t3 = tm.next_task("w", 12).unwrap();
    assert_eq!(t1.run_number, 1);
    assert_eq!(t2.run_number, 2);
    assert_eq!(t3.run_number, 3);
    assert!(tm.next_task("w", 13).is_none());
}

#[test]
fn lifo_returns_tasks_in_reverse_insertion_order() {
    let mut tm = TaskManager::new(DistributionStrategy::Lifo);
    tm.add_new_graph_tasks("g1", 3, "cfg");
    let t1 = tm.next_task("w", 10).unwrap();
    let t2 = tm.next_task("w", 11).unwrap();
    let t3 = tm.next_task("w", 12).unwrap();
    assert_eq!(t1.run_number, 3);
    assert_eq!(t2.run_number, 2);
    assert_eq!(t3.run_number, 1);
}

#[test]
fn random_draws_every_position_with_similar_frequency() {
    // 3000 independent first draws over 3 pending tasks: each trial number
    // should be drawn roughly a third of the time.
    let mut counts = [0usize; 3];
    for _ in 0..3000 {
        let mut tm = TaskManager::new(DistributionStrategy::Random);
        tm.add_new_graph_tasks("g1", 3, "cfg");
        let t = tm.next_task("w", 0).unwrap();
        counts[(t.run_number - 1) as usize] += 1;
    }
    for &c in counts.iter() {
        assert!(c > 800 && c < 1200, "biased draw: {:?}", counts);
    }
}

#[test]
fn next_task_returns_none_only_when_pending_is_empty() {
    let mut tm = TaskManager::new(DistributionStrategy::Fifo);
    assert!(tm.next_task("w", 0).is_none());
    tm.add_new_graph_tasks("g1", 1, "cfg");
    assert!(tm.next_task("w", 0).is_some());
    assert!(tm.next_task("w", 0).is_none());
    assert!(tm.next_task("w", 0).is_none());
}

#[test]
fn two_draws_never_hand_out_the_same_task() {
    let mut tm = TaskManager::new(DistributionStrategy::Random);
    tm.add_new_graph_tasks("g1", 2, "cfg");
    let t1 = tm.next_task("w1", 0).unwrap();
    let t2 = tm.next_task("w2", 0).unwrap();
    assert_ne!(t1.id, t2.id);
}

#[test]
fn complete_succeeds_only_for_the_assigned_pair() {
    let mut tm = TaskManager::new(DistributionStrategy::Fifo);
    tm.add_new_graph_tasks("g1", 1, "cfg");
    let t = tm.next_task("w1", 0).unwrap();
    // wrong worker, wrong task: rejected, state unchanged
    assert_eq!(tm.complete(&t.id, "w2"), Err(HiveError::UnknownAssignment));
    assert_eq!(tm.complete("no-such-task", "w1"), Err(HiveError::UnknownAssignment));
    assert_eq!(tm.get_completed_tasks_count(), 0);
    // the exact pair: accepted once
    assert_eq!(tm.complete(&t.id, "w1"), Ok(()));
    assert_eq!(tm.get_completed_tasks_count(), 1);
    // a straggler repeating the report: no longer assigned
    assert_eq!(tm.complete(&t.id, "w1"), Err(HiveError::UnknownAssignment));
    assert_eq!(tm.get_completed_tasks_count(), 1);
}

#[test]
fn reclaim_stale_moves_exactly_the_overaged_assignments() {
    let mut tm = TaskManager::new(DistributionStrategy::Fifo);
    tm.add_new_graph_tasks("g1", 2, "cfg");
    let t_old = tm.next_task("w1", 1000).unwrap();
    let t_new = tm.next_task("w2", 4000).unwrap();
    // at time 5000 with a 2000 ms budget, only the first assignment is stale
    tm.reclaim_stale(2000, 5000);
    let reclaimed = tm.next_task("w3", 5000).unwrap();
    assert_eq!(reclaimed.id, t_old.id);
    // the fresh assignment stayed with its worker
    assert_eq!(tm.complete(&t_new.id, "w2"), Ok(()));
    assert!(tm.next_task("w3", 5000).is_none());
}

#[test]
fn reclaim_boundary_is_strict() {
    let mut tm = TaskManager::new(DistributionStrategy::Fifo);
    tm.add_new_graph_tasks("g1", 1, "cfg");
    let t = tm.next_task("w1", 1000).unwrap();
    // age is exactly the budget: not yet stale
    tm.reclaim_stale(2000, 3000);
    assert!(tm.next_task("w2", 3000).is_none());
    // one millisecond later it is
    tm.reclaim_stale(2000, 3001);
    let again = tm.next_task("w2", 3001).unwrap();
    assert_eq!(again.id, t.id);
}

#[test]
fn counters_track_seeding_and_completion() {
    let mut tm = TaskManager::new(DistributionStrategy::Fifo);
    assert_eq!(tm.get_total_tasks(), 0);
    tm.add_new_graph_tasks("g1", 2, "cfg");
    tm.add_new_graph_tasks("g2", 3, "cfg");
    assert_eq!(tm.get_total_tasks(), 5);
    assert_eq!(tm.get_completed_tasks_count(), 0);
    let t = tm.next_task("w", 0).unwrap();
    assert_eq!(tm.complete(&t.id, "w"), Ok(()));
    assert_eq!(tm.get_completed_tasks_count(), 1);
    assert_eq!(tm.get_total_tasks(), 5);
}

#[test]
fn strategy_selector_parses_exactly_three_values() {
    assert_eq!(parse_strategy("fifo"), Ok(DistributionStrategy::Fifo));
    assert_eq!(parse_strategy("lifo"), Ok(DistributionStrategy::Lifo));
    assert_eq!(parse_strategy("random"), Ok(DistributionStrategy::Random));
    assert_eq!(parse_strategy("FIFO"), Err(HiveError::ConfigError));
    assert_eq!(parse_strategy(""), Err(HiveError::ConfigError));
    assert_eq!(parse_strategy("round-robin"), Err(HiveError::ConfigError));
}

#[test]
fn task_ids_are_uuid_shaped() {
    let t = kambo_hive::task::Task::new("g".to_string(), 1, "cfg".to_string());
    assert_eq!(t.id.len(), 36);
    assert_eq!(t.graph_id, "g");
    assert_eq!(t.run_number, 1);
    assert_eq!(t.ag_config, "cfg");
}

#[test]
fn reseeding_a_graph_appends_more_trials() {
    let mut tm = TaskManager::new(DistributionStrategy::Fifo);
    tm.add_new_graph_tasks("g1", 2, "cfg");
    tm.add_new_graph_tasks("g1", 2, "cfg");
    assert_eq!(tm.get_total_tasks(), 4);
    // Fifo keeps the seeding order; the trial numbers restart per batch
    let runs: Vec<u32> = (0..4).map(|_| tm.next_task("w", 0).unwrap().run_number).collect();
    assert_eq!(runs, vec![1, 2, 1, 2]);
}
