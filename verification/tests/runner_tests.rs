use deckbench::runner::{plan_run, run_worker, RunError};

#[test]
fn partition_evenly_divisible() {
    let plan = plan_run(100, 4).unwrap();
    assert_eq!(plan.per_worker, 25);
    assert_eq!(plan.thread_count, 4);
    assert_eq!(plan.actual_count(), 100);
}

#[test]
fn partition_with_dropped_remainder() {
    let plan = plan_run(10, 4).unwrap();
    assert_eq!(plan.per_worker, 2);
    assert_eq!(plan.actual_count(), 8);
}

#[test]
fn zero_thread_count_is_invalid_partition() {
    assert_eq!(plan_run(7, 0), Err(RunError::InvalidPartition));
    assert_eq!(plan_run(0, 0), Err(RunError::InvalidPartition));
}

#[test]
fn zero_total_count_is_allowed() {
    let plan = plan_run(0, 8).unwrap();
    assert_eq!(plan.per_worker, 0);
    assert_eq!(plan.actual_count(), 0);
}

#[test]
fn worker_completes_its_share() {
    assert_eq!(run_worker(0), 0);
    assert_eq!(run_worker(5), 5);
}

#[test]
fn sequential_run_matches_plan() {
    // Running every worker's share in sequence performs exactly the
    // planned number of iterations.
    let plan = plan_run(10, 4).unwrap();
    let mut completed = 0u128;
    for _ in 0..plan.thread_count {
        completed += run_worker(plan.per_worker);
    }
    assert_eq!(completed, plan.actual_count());
}
