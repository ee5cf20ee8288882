use man10_routine::scheduler::dag_scheduler::{
    Failure, RunStep, Scheduler, TaskJoinError, TaskResult, TaskState,
};
use man10_routine::scheduler::{InvalidDagError, Shutdown, TaskSpec};

fn task(name: &str, deps: &[&str]) -> TaskSpec<u32> {
    TaskSpec::new(name.to_string(), deps.iter().map(|d| d.to_string()).collect(), 0)
}

fn build(tasks: Vec<TaskSpec<u32>>) -> Result<Scheduler<u32, String>, InvalidDagError> {
    Scheduler::from_tasks(tasks, Shutdown::new())
}

/// Runs the scheduler to its end, settling the running tasks in the order in which they
/// were launched. `fail` names a task that returns an error. The names come back in the
/// order of launch, with the result of the run.
fn drive(
    scheduler: &mut Scheduler<u32, String>,
    fail: Option<&str>,
) -> (Vec<String>, Result<Result<(), String>, TaskJoinError>) {
    let mut launched: Vec<String> = Vec::new();
    let mut running: Vec<(usize, String)> = Vec::new();
    loop {
        match scheduler.run() {
            RunStep::Launch { task, name, body: _ } => {
                launched.push(name.clone());
                running.push((task, name));
            }
            RunStep::Await => {
                let (task, name) = running.remove(0);
                if fail == Some(name.as_str()) {
                    scheduler.settle(task, TaskResult::Failed(format!("{name} failed")));
                } else {
                    scheduler.settle(task, TaskResult::Succeeded);
                }
            }
            RunStep::Finished(result) => return (launched, result),
        }
    }
}

fn position(launched: &[String], name: &str) -> usize {
    launched.iter().position(|n| n == name).unwrap()
}

#[test]
fn duplicate_names_are_refused() {
    let err = build(vec![task("a", &[]), task("b", &[]), task("a", &[]), task("b", &[])])
        .err()
        .unwrap();
    assert_eq!(err, InvalidDagError::DuplicateTaskName("a".to_string()));
}

#[test]
fn unknown_dependency_is_refused_with_the_first_one() {
    let err = build(vec![task("a", &[]), task("b", &["a", "x", "y"]), task("c", &["z"])])
        .err()
        .unwrap();
    assert_eq!(
        err,
        InvalidDagError::UnknownDependency { task: "b".to_string(), dependency: "x".to_string() }
    );
}

#[test]
fn duplicates_are_reported_before_unknown_dependencies() {
    let err = build(vec![task("a", &["x"]), task("a", &[])]).err().unwrap();
    assert_eq!(err, InvalidDagError::DuplicateTaskName("a".to_string()));
}

#[test]
fn cycles_are_refused() {
    assert_eq!(
        build(vec![task("a", &["c"]), task("b", &["a"]), task("c", &["b"])]).err().unwrap(),
        InvalidDagError::Cycle
    );
    assert_eq!(build(vec![task("a", &["a"])]).err().unwrap(), InvalidDagError::Cycle);
    assert_eq!(
        build(vec![task("root", &[]), task("a", &["root", "b"]), task("b", &["a"])])
            .err()
            .unwrap(),
        InvalidDagError::Cycle
    );
}

#[test]
fn an_empty_graph_runs_to_nothing() {
    let mut scheduler = build(vec![]).unwrap();
    assert_eq!(scheduler.len(), 0);
    let (launched, result) = drive(&mut scheduler, None);
    assert!(launched.is_empty());
    assert_eq!(result, Ok(Ok(())));
}

#[test]
fn initial_state_queues_the_tasks_without_dependencies() {
    let scheduler = build(vec![task("a", &[]), task("b", &["a"]), task("c", &[])]).unwrap();
    assert_eq!(scheduler.len(), 3);
    assert_eq!(scheduler.state_of(0), Some(TaskState::Ready));
    assert_eq!(scheduler.state_of(1), Some(TaskState::Pending));
    assert_eq!(scheduler.state_of(2), Some(TaskState::Ready));
    assert_eq!(scheduler.state_of(3), None);
    assert_eq!(scheduler.find(&"b".to_string()), Some(1));
    assert_eq!(scheduler.find(&"x".to_string()), None);
    assert!(!scheduler.shutdown_requested());
}

#[test]
fn tasks_start_after_their_dependencies_completed() {
    let mut scheduler = build(vec![
        task("d", &["b", "c"]),
        task("b", &["a"]),
        task("c", &["a", "a"]),
        task("a", &[]),
        task("e", &[]),
    ])
    .unwrap();
    let (launched, result) = drive(&mut scheduler, None);
    assert_eq!(result, Ok(Ok(())));
    assert_eq!(launched, vec!["a", "e", "b", "c", "d"]);
    for u in 0..5 {
        assert_eq!(scheduler.state_of(u), Some(TaskState::Completed));
    }
}

#[test]
fn a_dependent_is_not_launched_while_its_dependency_runs() {
    let mut scheduler = build(vec![task("a", &[]), task("b", &["a"])]).unwrap();
    match scheduler.run() {
        RunStep::Launch { task, name, body } => {
            assert_eq!((task, name.as_str(), body), (0, "a", 0));
        }
        _ => panic!("a must be launched first"),
    }
    assert_eq!(scheduler.state_of(0), Some(TaskState::Running));
    assert!(matches!(scheduler.run(), RunStep::Await));
    assert_eq!(scheduler.state_of(1), Some(TaskState::Pending));
    scheduler.settle(0, TaskResult::Succeeded);
    assert_eq!(scheduler.state_of(0), Some(TaskState::Completed));
    assert_eq!(scheduler.state_of(1), Some(TaskState::Ready));
    match scheduler.run() {
        RunStep::Launch { task, name, .. } => assert_eq!((task, name.as_str()), (1, "b")),
        _ => panic!("b must be launched after a completed"),
    }
    scheduler.settle(1, TaskResult::Succeeded);
    match scheduler.run() {
        RunStep::Finished(result) => assert_eq!(result, Ok(Ok(()))),
        _ => panic!("the run must be over"),
    }
}

#[test]
fn each_task_is_launched_at_most_once() {
    let mut scheduler =
        build(vec![task("a", &[]), task("b", &["a"]), task("c", &["a", "b"])]).unwrap();
    let (launched, _) = drive(&mut scheduler, None);
    let mut sorted = launched.clone();
    sorted.sort();
    sorted.dedup();
    assert_eq!(sorted.len(), launched.len());
    assert_eq!(launched.len(), 3);
}

#[test]
fn the_first_error_ends_admission_and_is_the_result() {
    let mut scheduler = build(vec![
        task("a", &[]),
        task("b", &[]),
        task("c", &["a"]),
        task("d", &["b"]),
    ])
    .unwrap();
    let (launched, result) = drive(&mut scheduler, Some("a"));
    assert_eq!(launched, vec!["a", "b"]);
    assert_eq!(result, Ok(Err("a failed".to_string())));
    assert_eq!(scheduler.state_of(0), Some(TaskState::Failed));
    assert_eq!(scheduler.state_of(1), Some(TaskState::Completed));
    assert_eq!(scheduler.state_of(2), Some(TaskState::Pending));
    assert_eq!(scheduler.state_of(3), Some(TaskState::Pending));
}

#[test]
fn later_errors_are_dropped() {
    let mut scheduler = build(vec![task("a", &[]), task("b", &[])]).unwrap();
    assert!(matches!(scheduler.run(), RunStep::Launch { task: 0, .. }));
    assert!(matches!(scheduler.run(), RunStep::Launch { task: 1, .. }));
    scheduler.settle(1, TaskResult::Failed("first".to_string()));
    assert!(matches!(scheduler.run(), RunStep::Await));
    scheduler.settle(0, TaskResult::Failed("second".to_string()));
    match scheduler.run() {
        RunStep::Finished(result) => assert_eq!(result, Ok(Err("first".to_string()))),
        _ => panic!("the run must be over"),
    }
}

#[test]
fn a_task_that_ends_without_returning_is_a_join_error() {
    let mut scheduler = build(vec![task("a", &[]), task("b", &["a"])]).unwrap();
    assert!(matches!(scheduler.run(), RunStep::Launch { task: 0, .. }));
    scheduler.settle(
        0,
        TaskResult::JoinFailed(TaskJoinError { message: "panicked".to_string() }),
    );
    match scheduler.run() {
        RunStep::Finished(result) => {
            assert_eq!(result, Err(TaskJoinError { message: "panicked".to_string() }))
        }
        _ => panic!("the run must be over"),
    }
    assert_eq!(scheduler.state_of(1), Some(TaskState::Pending));
}

#[test]
fn a_report_on_a_task_that_is_not_running_changes_nothing() {
    let mut scheduler = build(vec![task("a", &[]), task("b", &["a"])]).unwrap();
    scheduler.settle(1, TaskResult::Succeeded);
    scheduler.settle(7, TaskResult::Failed("nobody".to_string()));
    assert_eq!(scheduler.state_of(0), Some(TaskState::Ready));
    assert_eq!(scheduler.state_of(1), Some(TaskState::Pending));
    let (launched, result) = drive(&mut scheduler, None);
    assert_eq!(launched, vec!["a", "b"]);
    assert_eq!(result, Ok(Ok(())));
}

#[test]
fn shutdown_before_the_run_launches_nothing() {
    let mut latch = Shutdown::new();
    latch.arm("SIGTERM");
    let mut scheduler: Scheduler<u32, String> =
        Scheduler::from_tasks(vec![task("a", &[]), task("b", &["a"])], latch).unwrap();
    assert!(scheduler.shutdown_requested());
    match scheduler.run() {
        RunStep::Finished(result) => assert_eq!(result, Ok(Ok(()))),
        _ => panic!("nothing may be launched"),
    }
    assert_eq!(scheduler.state_of(0), Some(TaskState::Ready));
}

#[test]
fn shutdown_during_the_run_lets_running_tasks_settle() {
    let mut scheduler = build(vec![task("a", &[]), task("b", &["a"]), task("c", &[])]).unwrap();
    assert!(matches!(scheduler.run(), RunStep::Launch { task: 0, .. }));
    scheduler.signal("SIGINT");
    assert!(matches!(scheduler.run(), RunStep::Await));
    assert_eq!(scheduler.state_of(2), Some(TaskState::Ready));
    scheduler.settle(0, TaskResult::Succeeded);
    assert_eq!(scheduler.state_of(1), Some(TaskState::Pending));
    match scheduler.run() {
        RunStep::Finished(result) => assert_eq!(result, Ok(Ok(()))),
        _ => panic!("the run must be over"),
    }
    assert_eq!(scheduler.state_of(0), Some(TaskState::Completed));
}

#[test]
fn the_latch_keeps_its_first_signal() {
    let mut latch = Shutdown::new();
    assert!(!latch.requested());
    assert_eq!(latch.signal(), None);
    latch.arm("SIGINT");
    latch.arm("SIGTERM");
    assert!(latch.requested());
    assert_eq!(latch.signal(), Some("SIGINT"));
    assert!(!Shutdown::default().requested());
}

#[test]
fn failure_values_compare_by_content() {
    let a: Failure<String> = Failure::Task("x".to_string());
    assert!(matches!(a, Failure::Task(ref m) if m == "x"));
}

#[test]
fn graph_errors_say_what_is_wrong() {
    assert_eq!(
        InvalidDagError::DuplicateTaskName("a".to_string()).message(),
        "Duplicate task name detected: a"
    );
    assert_eq!(
        InvalidDagError::UnknownDependency { task: "b".to_string(), dependency: "x".to_string() }
            .message(),
        "Task 'b' depends on unknown task 'x'"
    );
    assert_eq!(InvalidDagError::Cycle.message(), "Tasks depend on each other in a cycle");
}
