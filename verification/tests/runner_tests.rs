use scraper2::tasks::{RunnerAction, TaskRunner, TaskType};

type Outcome = Result<String, &'static str>;

fn ok(task: u32) -> Outcome {
    Ok(format!("r{}", task))
}

fn in_flight(runner: &TaskRunner<u32, String>) -> Vec<u32> {
    runner.in_flight().iter().copied().collect()
}

#[test]
fn empty_queue_finishes_at_once() {
    let mut runner: TaskRunner<u32, String> = TaskRunner::new(TaskType::ComponentCount, vec![], 4);
    assert_eq!(runner.task_type(), TaskType::ComponentCount);
    assert_eq!(runner.next_action(), RunnerAction::Finished);
    assert!(runner.into_results().is_empty());
}

#[test]
fn batches_take_the_queue_in_order() {
    let mut runner: TaskRunner<u32, String> =
        TaskRunner::new(TaskType::ComponentScrape, (1..=5).collect(), 2);
    assert_eq!(runner.remaining(), 5);
    assert_eq!(runner.next_action(), RunnerAction::Launch { count: 2 });
    assert_eq!(in_flight(&runner), vec![1, 2]);
    assert_eq!(runner.remaining(), 3);
    assert_eq!(runner.next_action(), RunnerAction::Launch { count: 2 });
    assert_eq!(in_flight(&runner), vec![1, 2]);
    runner.batch_resolved(vec![ok(1), ok(2)]);
    assert_eq!(runner.next_action(), RunnerAction::Launch { count: 2 });
    assert_eq!(in_flight(&runner), vec![3, 4]);
    runner.batch_resolved(vec![ok(3), ok(4)]);
    assert_eq!(runner.next_action(), RunnerAction::Launch { count: 1 });
    assert_eq!(in_flight(&runner), vec![5]);
    runner.batch_resolved(vec![ok(5)]);
    assert_eq!(runner.next_action(), RunnerAction::Finished);
    assert_eq!(runner.into_results(), vec!["r1", "r2", "r3", "r4", "r5"]);
}

#[test]
fn credential_rotation_mid_run() {
    let mut runner: TaskRunner<u32, String> =
        TaskRunner::new(TaskType::ComponentCount, (1..=8).collect(), 4);
    assert_eq!(runner.next_action(), RunnerAction::Launch { count: 4 });
    assert_eq!(in_flight(&runner), vec![1, 2, 3, 4]);
    runner.batch_resolved(vec![ok(1), Err("denied"), Err("denied"), ok(4)]);
    assert!(runner.in_flight().is_empty());
    assert_eq!(runner.remaining(), 6);
    assert_eq!(runner.next_action(), RunnerAction::Refresh { failed: 2 });
    assert_eq!(runner.next_action(), RunnerAction::Refresh { failed: 2 });
    assert!(runner.in_flight().is_empty());
    runner.credential_refreshed();
    assert_eq!(runner.next_action(), RunnerAction::Launch { count: 4 });
    assert_eq!(in_flight(&runner), vec![5, 6, 7, 8]);
    runner.batch_resolved(vec![ok(5), ok(6), ok(7), ok(8)]);
    assert_eq!(runner.next_action(), RunnerAction::Launch { count: 2 });
    assert_eq!(in_flight(&runner), vec![2, 3]);
    runner.batch_resolved(vec![ok(2), ok(3)]);
    assert_eq!(runner.next_action(), RunnerAction::Finished);
    let results = runner.into_results();
    assert_eq!(results.len(), 8);
    assert_eq!(results, vec!["r1", "r4", "r5", "r6", "r7", "r8", "r2", "r3"]);
}

#[test]
fn a_task_can_fail_more_than_once() {
    let mut runner: TaskRunner<u32, String> = TaskRunner::new(TaskType::AttributeScrape, vec![7], 10);
    for _ in 0..3 {
        assert_eq!(runner.next_action(), RunnerAction::Launch { count: 1 });
        runner.batch_resolved(vec![Err::<String, &str>("down")]);
        assert_eq!(runner.next_action(), RunnerAction::Refresh { failed: 1 });
        runner.credential_refreshed();
    }
    assert_eq!(runner.next_action(), RunnerAction::Launch { count: 1 });
    runner.batch_resolved(vec![ok(7)]);
    assert_eq!(runner.next_action(), RunnerAction::Finished);
    assert_eq!(runner.into_results(), vec!["r7"]);
}

#[test]
fn batch_size_zero_takes_one_task_at_a_time() {
    let mut runner: TaskRunner<u32, String> = TaskRunner::new(TaskType::ComponentCount, vec![1, 2], 0);
    assert_eq!(runner.next_action(), RunnerAction::Launch { count: 1 });
    runner.batch_resolved(vec![ok(1)]);
    assert_eq!(runner.next_action(), RunnerAction::Launch { count: 1 });
    runner.batch_resolved(vec![ok(2)]);
    assert_eq!(runner.next_action(), RunnerAction::Finished);
}

#[test]
fn batch_larger_than_the_queue_takes_everything() {
    let mut runner: TaskRunner<u32, String> = TaskRunner::new(TaskType::ComponentCount, vec![1, 2, 3], 100);
    assert_eq!(runner.next_action(), RunnerAction::Launch { count: 3 });
    assert_eq!(runner.remaining(), 0);
}

#[test]
fn task_without_outcome_counts_as_failed() {
    let mut runner: TaskRunner<u32, String> = TaskRunner::new(TaskType::ComponentCount, vec![1, 2, 3], 3);
    assert_eq!(runner.next_action(), RunnerAction::Launch { count: 3 });
    runner.batch_resolved(vec![ok(1)]);
    assert_eq!(runner.next_action(), RunnerAction::Refresh { failed: 2 });
    runner.credential_refreshed();
    assert_eq!(runner.next_action(), RunnerAction::Launch { count: 2 });
    assert_eq!(in_flight(&runner), vec![2, 3]);
    runner.batch_resolved(vec![ok(2), ok(3), ok(99)]);
    assert_eq!(runner.next_action(), RunnerAction::Finished);
    assert_eq!(runner.into_results(), vec!["r1", "r2", "r3"]);
}

#[test]
fn outcomes_without_a_batch_are_dropped() {
    let mut runner: TaskRunner<u32, String> = TaskRunner::new(TaskType::ComponentCount, vec![1], 1);
    runner.batch_resolved(vec![ok(5), Err("x")]);
    assert_eq!(runner.remaining(), 1);
    assert_eq!(runner.next_action(), RunnerAction::Launch { count: 1 });
    runner.batch_resolved(vec![ok(1)]);
    assert_eq!(runner.next_action(), RunnerAction::Finished);
    assert_eq!(runner.into_results(), vec!["r1"]);
}
