use k8s_openapi::api::batch::v1::Job;
use man10_routine::config::polling::{Duration, PollingConfig};
use man10_routine::config::raw::{RawConfig, RawMinecraftChart};
use man10_routine::config::Config;
use man10_routine::kubernetes_objects::argocd::tearing::TeardownStep;
use man10_routine::kubernetes_objects::argocd::{ArgoCdError, TearState};
use man10_routine::kubernetes_objects::custom_job::CustomJob;
use man10_routine::kubernetes_objects::job::{JobStatus, WaitJobFinishedError};
use man10_routine::kubernetes_objects::minecraft_chart::{ChartTeardown, MinecraftChartError};
use man10_routine::kubernetes_objects::statefulset::{
    StatefulSet, StatefulSetScaleError, StatefulSetStatus, WaitStatefulSetScaleError,
};
use man10_routine::routine::daily::error::DailyRoutineError;
use man10_routine::routine::daily::finalizer::finalizer;
use man10_routine::routine::daily::phase_argocd_teardown::{
    check_teardown_expects, phase_argocd_teardown, TeardownAction, TeardownEvent, TeardownStage,
};
use man10_routine::routine::daily::phase_execute_job::{
    execute_job, JobAction, JobEvent, JobStage,
};
use man10_routine::routine::daily::phase_relaunch_mcproxy::phase_relaunch_mcproxy;
use man10_routine::routine::daily::phase_relaunch_mcserver::relaunch_mcserver;
use man10_routine::routine::daily::phase_shutdown_mcproxy::phase_shutdown_mcproxy;
use man10_routine::routine::daily::phase_shutdown_mcservers::shutdown_mcserver;
use man10_routine::routine::daily::scale_statefulset::{
    ScaleAction, ScaleEvent, ScaleKind, ScaleStage,
};
use man10_routine::routine::daily::{build_daily_tasks, DailyRoutineContext, DailyTask};
use man10_routine::scheduler::dag_scheduler::{RunStep, TaskJoinError, TaskResult, TaskState};
use man10_routine::scheduler::{InvalidDagError, Shutdown};

fn job(dependencies: &[&str], required: bool) -> CustomJob {
    CustomJob {
        dependencies: dependencies.iter().map(|d| d.to_string()).collect(),
        manifest: Job::default(),
        required,
        completion_polling: PollingConfig {
            initial_wait: Duration::from_secs(1),
            poll_interval: Duration::from_secs(2),
            max_wait: Duration::from_secs(3),
            error_wait: Duration::from_secs(4),
            max_errors: 2,
        },
    }
}

fn server(path: &str, required: Option<bool>, jobs: Vec<(&str, CustomJob)>) -> RawMinecraftChart {
    RawMinecraftChart {
        name: None,
        argocd: path.to_string(),
        rcon_container: "console".to_string(),
        jobs_after_snapshot: jobs.into_iter().map(|(n, j)| (n.to_string(), j)).collect(),
        required_to_start: required,
    }
}

fn config(servers: Vec<(&str, RawMinecraftChart)>) -> Config {
    Config::try_from(RawConfig {
        namespace: "default".to_string(),
        mcproxy: RawMinecraftChart {
            name: Some("mcproxy".to_string()),
            argocd: "apps/minecraft/mcproxy".to_string(),
            rcon_container: "proxy-console".to_string(),
            jobs_after_snapshot: Vec::new(),
            required_to_start: None,
        },
        mcservers: servers.into_iter().map(|(k, s)| (k.to_string(), s)).collect(),
    })
    .unwrap()
}

fn two_servers() -> Config {
    config(vec![
        ("s1", server("apps/minecraft/servers/s1", None, vec![])),
        ("s2", server("apps/minecraft/servers/s2", None, vec![])),
    ])
}

fn graph(config: &Config) -> Vec<(String, Vec<String>, DailyTask)> {
    build_daily_tasks(config).into_iter().map(|t| (t.name, t.deps, t.body)).collect()
}

fn entry(name: &str, deps: &[&str], body: DailyTask) -> (String, Vec<String>, DailyTask) {
    (name.to_string(), deps.iter().map(|d| d.to_string()).collect(), body)
}

fn sts(replicas: i32, shown: i32) -> Result<StatefulSet, String> {
    Ok(StatefulSet {
        replicas: Some(replicas),
        status: Some(StatefulSetStatus {
            current_replicas: Some(shown),
            available_replicas: Some(shown),
        }),
    })
}

fn secs(n: u64) -> Duration {
    Duration::from_secs(n)
}

#[test]
fn the_graph_of_two_servers_without_jobs() {
    assert_eq!(
        graph(&two_servers()),
        vec![
            entry("argocd_teardown", &[], DailyTask::ArgocdTeardown),
            entry("shutdown_mcproxy", &["argocd_teardown"], DailyTask::ShutdownMcproxy),
            entry(
                "shutdown_mcserver/s1",
                &["shutdown_mcproxy"],
                DailyTask::ShutdownMcserver { server: 0 }
            ),
            entry(
                "shutdown_mcserver/s2",
                &["shutdown_mcproxy"],
                DailyTask::ShutdownMcserver { server: 1 }
            ),
            entry(
                "relaunch_mcserver/s1",
                &["shutdown_mcserver/s1"],
                DailyTask::RelaunchMcserver { server: 0 }
            ),
            entry(
                "relaunch_mcserver/s2",
                &["shutdown_mcserver/s2"],
                DailyTask::RelaunchMcserver { server: 1 }
            ),
            entry(
                "relaunch_mcproxy",
                &["relaunch_mcserver/s1", "relaunch_mcserver/s2", "shutdown_mcproxy"],
                DailyTask::RelaunchMcproxy
            ),
        ]
    );
}

#[test]
fn the_graph_with_jobs_and_a_server_that_is_not_required() {
    let config = config(vec![
        (
            "s1",
            server(
                "apps/s1",
                None,
                vec![("a", job(&[], true)), ("b", job(&["a"], true))],
            ),
        ),
        ("s2", server("apps/s2", Some(false), vec![("c", job(&[], false))])),
    ]);
    assert_eq!(
        graph(&config)[4..],
        vec![
            entry(
                "execute_job/after_snapshot/s1/a",
                &["shutdown_mcserver/s1"],
                DailyTask::ExecuteJob { server: 0, job: 0 }
            ),
            entry(
                "execute_job/after_snapshot/s1/b",
                &["execute_job/after_snapshot/s1/a", "shutdown_mcserver/s1"],
                DailyTask::ExecuteJob { server: 0, job: 1 }
            ),
            entry(
                "execute_job/after_snapshot/s2/c",
                &["shutdown_mcserver/s2"],
                DailyTask::ExecuteJob { server: 1, job: 0 }
            ),
            entry(
                "relaunch_mcserver/s1",
                &[
                    "execute_job/after_snapshot/s1/a",
                    "execute_job/after_snapshot/s1/b",
                    "shutdown_mcserver/s1"
                ],
                DailyTask::RelaunchMcserver { server: 0 }
            ),
            entry(
                "relaunch_mcserver/s2",
                &["execute_job/after_snapshot/s2/c", "shutdown_mcserver/s2"],
                DailyTask::RelaunchMcserver { server: 1 }
            ),
            entry(
                "relaunch_mcproxy",
                &["relaunch_mcserver/s1", "shutdown_mcproxy"],
                DailyTask::RelaunchMcproxy
            ),
        ]
    );
}

/// Runs the routine with every task succeeding, one at a time, and returns the names in
/// the order in which the tasks were launched.
fn run_all(context: &DailyRoutineContext) -> Vec<String> {
    let mut scheduler = context.run(Shutdown::new()).unwrap();
    let mut launched = Vec::new();
    let mut running = Vec::new();
    loop {
        match scheduler.run() {
            RunStep::Launch { task, name, .. } => {
                launched.push(name);
                running.push(task);
            }
            RunStep::Await => scheduler.settle(running.remove(0), TaskResult::Succeeded),
            RunStep::Finished(result) => {
                assert_eq!(DailyRoutineContext::finished(result), Ok(()));
                return launched;
            }
        }
    }
}

fn before(launched: &[String], first: &str, second: &str) -> bool {
    let at = |name: &str| launched.iter().position(|n| n == name).unwrap();
    at(first) < at(second)
}

#[test]
fn the_happy_path_runs_every_task_in_order() {
    let context = DailyRoutineContext::new(two_servers());
    let launched = run_all(&context);
    assert_eq!(launched.len(), 7);
    assert_eq!(launched[0], "argocd_teardown");
    assert_eq!(launched[1], "shutdown_mcproxy");
    assert_eq!(launched[6], "relaunch_mcproxy");
    assert!(before(&launched, "shutdown_mcserver/s1", "relaunch_mcserver/s1"));
    assert!(before(&launched, "shutdown_mcserver/s2", "relaunch_mcserver/s2"));
}

#[test]
fn jobs_run_in_the_order_of_their_dependencies() {
    let context = DailyRoutineContext::new(config(vec![(
        "s1",
        server("apps/s1", None, vec![("a", job(&[], true)), ("b", job(&["a"], true))]),
    )]));
    let mut scheduler = context.run(Shutdown::new()).unwrap();
    let name_of = |step: RunStep<DailyTask, DailyRoutineError>| match step {
        RunStep::Launch { task, name, .. } => (task, name),
        other => panic!("unexpected step {other:?}"),
    };
    let (teardown, _) = name_of(scheduler.run());
    scheduler.settle(teardown, TaskResult::Succeeded);
    let (proxy, _) = name_of(scheduler.run());
    scheduler.settle(proxy, TaskResult::Succeeded);
    let (shutdown, name) = name_of(scheduler.run());
    assert_eq!(name, "shutdown_mcserver/s1");
    assert!(matches!(scheduler.run(), RunStep::Await));
    let a = scheduler.find(&"execute_job/after_snapshot/s1/a".to_string()).unwrap();
    let b = scheduler.find(&"execute_job/after_snapshot/s1/b".to_string()).unwrap();
    assert_eq!(scheduler.state_of(a), Some(TaskState::Pending));
    assert_eq!(scheduler.state_of(b), Some(TaskState::Pending));
    scheduler.settle(shutdown, TaskResult::Succeeded);
    let (launched, name) = name_of(scheduler.run());
    assert_eq!((launched, name.as_str()), (a, "execute_job/after_snapshot/s1/a"));
    assert!(matches!(scheduler.run(), RunStep::Await));
    assert_eq!(scheduler.state_of(b), Some(TaskState::Pending));
    scheduler.settle(a, TaskResult::Succeeded);
    let (launched, name) = name_of(scheduler.run());
    assert_eq!((launched, name.as_str()), (b, "execute_job/after_snapshot/s1/b"));
}

#[test]
fn jobs_that_name_unknown_jobs_or_wait_in_a_circle_are_refused() {
    let unknown = DailyRoutineContext::new(config(vec![(
        "s1",
        server("apps/s1", None, vec![("a", job(&["x"], true))]),
    )]));
    assert_eq!(
        unknown.run(Shutdown::new()).err().unwrap(),
        DailyRoutineError::InvalidTaskDag(InvalidDagError::UnknownDependency {
            task: "execute_job/after_snapshot/s1/a".to_string(),
            dependency: "execute_job/after_snapshot/s1/x".to_string(),
        })
    );
    let circle = DailyRoutineContext::new(config(vec![(
        "s1",
        server("apps/s1", None, vec![("a", job(&["b"], true)), ("b", job(&["a"], true))]),
    )]));
    assert_eq!(
        circle.run(Shutdown::new()).err().unwrap(),
        DailyRoutineError::InvalidTaskDag(InvalidDagError::Cycle)
    );
}

#[test]
fn a_join_error_fails_the_routine() {
    let error = TaskJoinError { message: "panicked".to_string() };
    assert_eq!(
        DailyRoutineContext::finished(Err(TaskJoinError { message: "panicked".to_string() })),
        Err(DailyRoutineError::TaskJoin(error))
    );
    assert_eq!(
        DailyRoutineContext::finished(Ok(Err(DailyRoutineError::KubeClient("x".to_string())))),
        Err(DailyRoutineError::KubeClient("x".to_string()))
    );
}

/// Tears the chart's application down with every pause going through.
fn teardown_chart(config: &mut Config, server: Option<usize>) {
    let plan = match server {
        Some(k) => config.mcservers[k].1.argocd_teardown(),
        None => config.mcproxy.argocd_teardown(),
    };
    let app = match plan {
        ChartTeardown::Tear(app) => app,
        other => panic!("unexpected plan {other:?}"),
    };
    let mut step = config.argocds.tear(app);
    let guard = loop {
        match step {
            TeardownStep::Pause { .. } => step = config.argocds.paused(Ok(None)),
            TeardownStep::Granted(guard) => break guard,
            other => panic!("unexpected step {other:?}"),
        }
    };
    let recorded = match server {
        Some(k) => config.mcservers[k].1.argocd_torn(Ok(guard)),
        None => config.mcproxy.argocd_torn(Ok(guard)),
    };
    assert_eq!(recorded, Ok(()));
}

#[test]
fn the_finalizer_hands_out_the_guards_of_all_charts_once() {
    let mut config = two_servers();
    teardown_chart(&mut config, None);
    teardown_chart(&mut config, Some(0));
    teardown_chart(&mut config, Some(1));
    let guards = finalizer(&mut config);
    let apps: Vec<usize> = guards.iter().map(|g| g.app()).collect();
    assert_eq!(apps, vec![config.mcproxy.argocd, config.mcservers[0].1.argocd, config.mcservers[1].1.argocd]);
    assert!(finalizer(&mut config).is_empty());
    assert_eq!(config.mcservers.len(), 2);
    assert_eq!(config.mcservers[1].0, "s2");
    let mut restored = Vec::new();
    for guard in guards {
        let mut step = guard.close(&mut config.argocds);
        while let TeardownStep::Restore { app } = step {
            restored.push(config.argocds.get(app).unwrap().name.clone());
            step = config.argocds.restored(Ok(()));
        }
        assert_eq!(step, TeardownStep::Closed);
    }
    assert_eq!(restored, vec!["mcproxy", "s1", "s2", "servers", "minecraft", "apps"]);
    for app in 0..config.argocds.len() {
        assert_eq!(config.argocds.get(app).unwrap().tear, TearState::Idle);
    }
}

#[test]
fn a_shutdown_after_the_proxy_stopped_leaves_the_servers_alone() {
    let mut config = two_servers();
    teardown_chart(&mut config, None);
    let context = DailyRoutineContext::new(config);
    let mut scheduler = context.run(Shutdown::new()).unwrap();
    let mut launched = Vec::new();
    for _ in 0..2 {
        match scheduler.run() {
            RunStep::Launch { task, name, .. } => {
                launched.push(name);
                scheduler.settle(task, TaskResult::Succeeded);
            }
            other => panic!("unexpected step {other:?}"),
        }
    }
    assert_eq!(launched, vec!["argocd_teardown", "shutdown_mcproxy"]);
    scheduler.signal("SIGINT");
    match scheduler.run() {
        RunStep::Finished(result) => assert_eq!(DailyRoutineContext::finished(result), Ok(())),
        other => panic!("unexpected step {other:?}"),
    }
    let s1 = scheduler.find(&"shutdown_mcserver/s1".to_string()).unwrap();
    assert_eq!(scheduler.state_of(s1), Some(TaskState::Ready));

    let mut config = context.config;
    let guards = finalizer(&mut config);
    assert_eq!(guards.len(), 1);
    let mut restored = Vec::new();
    for guard in guards {
        let mut step = guard.close(&mut config.argocds);
        while let TeardownStep::Restore { app } = step {
            restored.push(config.argocds.get(app).unwrap().name.clone());
            step = config.argocds.restored(Ok(()));
        }
    }
    assert_eq!(restored, vec!["mcproxy", "minecraft", "apps"]);
}

#[test]
fn a_game_server_is_shut_down_step_by_step() {
    let config = two_servers();
    let mut task = shutdown_mcserver(&config, 0);
    assert_eq!(task.kind, ScaleKind::ShutdownMcserver);
    assert!(task.check_expects(&ScaleEvent::Started));
    assert!(!task.check_expects(&ScaleEvent::Slept));
    assert_eq!(task.step(ScaleEvent::Started), ScaleAction::Read { name: "s1".to_string() });
    assert_eq!(
        task.step(ScaleEvent::Read(sts(1, 1))),
        ScaleAction::Patch { name: "s1".to_string(), replicas: 0 }
    );
    assert_eq!(
        task.step(ScaleEvent::Patched(Ok(()))),
        ScaleAction::Exec { pod: "s1-0".to_string(), container: "console".to_string() }
    );
    assert_eq!(task.step(ScaleEvent::Executed), ScaleAction::Sleep(secs(60)));
    assert_eq!(task.step(ScaleEvent::Slept), ScaleAction::Read { name: "s1".to_string() });
    assert_eq!(task.step(ScaleEvent::Read(sts(0, 1))), ScaleAction::Sleep(secs(5)));
    assert_eq!(task.step(ScaleEvent::Slept), ScaleAction::Read { name: "s1".to_string() });
    assert_eq!(task.step(ScaleEvent::Read(Err("x".to_string()))), ScaleAction::Sleep(secs(10)));
    assert_eq!(task.step(ScaleEvent::Slept), ScaleAction::Read { name: "s1".to_string() });
    assert_eq!(task.step(ScaleEvent::Read(sts(0, 0))), ScaleAction::Finished(Ok(())));
    assert_eq!(task.stage, ScaleStage::Finished);
    assert!(!task.check_expects(&ScaleEvent::Started));
}

#[test]
fn a_shutdown_of_what_is_down_already_ends_at_once() {
    let config = two_servers();
    let mut task = phase_shutdown_mcproxy(&config);
    assert_eq!(task.step(ScaleEvent::Started), ScaleAction::Read { name: "mcproxy".to_string() });
    assert_eq!(task.step(ScaleEvent::Read(sts(0, 0))), ScaleAction::Finished(Ok(())));
}

#[test]
fn the_proxy_is_shut_down_without_the_console_and_soaks() {
    let config = two_servers();
    let mut task = phase_shutdown_mcproxy(&config);
    task.step(ScaleEvent::Started);
    task.step(ScaleEvent::Read(sts(1, 1)));
    assert_eq!(task.step(ScaleEvent::Patched(Ok(()))), ScaleAction::Sleep(secs(60)));
    task.step(ScaleEvent::Slept);
    assert_eq!(task.step(ScaleEvent::Read(sts(0, 0))), ScaleAction::Sleep(secs(10)));
    assert_eq!(task.stage, ScaleStage::Soaking);
    assert_eq!(task.step(ScaleEvent::Slept), ScaleAction::Finished(Ok(())));
}

#[test]
fn a_shutdown_fails_when_it_cannot_scale_or_the_wait_runs_out() {
    let config = two_servers();
    let mut task = shutdown_mcserver(&config, 1);
    task.step(ScaleEvent::Started);
    assert_eq!(
        task.step(ScaleEvent::Read(Ok(StatefulSet { replicas: None, status: None }))),
        ScaleAction::Finished(Err(DailyRoutineError::ShutdownMinecraftServer(
            "s2".to_string(),
            StatefulSetScaleError::StatefulSetHasNoReplicas
        )))
    );
    let mut task = shutdown_mcserver(&config, 1);
    task.step(ScaleEvent::Started);
    task.step(ScaleEvent::Read(sts(1, 1)));
    assert_eq!(
        task.step(ScaleEvent::Patched(Err("denied".to_string()))),
        ScaleAction::Finished(Err(DailyRoutineError::ShutdownMinecraftServer(
            "s2".to_string(),
            StatefulSetScaleError::KubeClient("denied".to_string())
        )))
    );
    let mut task = phase_shutdown_mcproxy(&config);
    task.step(ScaleEvent::Started);
    task.step(ScaleEvent::Read(sts(1, 1)));
    task.step(ScaleEvent::Patched(Ok(())));
    let mut waited = 60;
    let end = loop {
        task.step(ScaleEvent::Slept);
        match task.step(ScaleEvent::Read(sts(0, 1))) {
            ScaleAction::Sleep(span) => waited += span.as_secs(),
            other => break other,
        }
    };
    assert_eq!(waited, 150);
    assert_eq!(
        end,
        ScaleAction::Finished(Err(DailyRoutineError::ShutdownMinecraftServer(
            "mcproxy".to_string(),
            StatefulSetScaleError::StatefulSetNotScaled(
                "mcproxy".to_string(),
                WaitStatefulSetScaleError::StatefulSetScaledCheckTimeout(150)
            )
        )))
    );
}

#[test]
fn a_start_waits_even_when_the_replicas_are_there() {
    let config = two_servers();
    let mut task = relaunch_mcserver(&config, 0);
    task.step(ScaleEvent::Started);
    assert_eq!(task.step(ScaleEvent::Read(sts(1, 0))), ScaleAction::Sleep(secs(10)));
    assert_eq!(task.step(ScaleEvent::Slept), ScaleAction::Read { name: "s1".to_string() });
    assert_eq!(task.step(ScaleEvent::Read(sts(1, 0))), ScaleAction::Sleep(secs(10)));
    task.step(ScaleEvent::Slept);
    assert_eq!(task.step(ScaleEvent::Read(sts(1, 1))), ScaleAction::Sleep(secs(180)));
    assert_eq!(task.step(ScaleEvent::Slept), ScaleAction::Finished(Ok(())));

    let mut proxy = phase_relaunch_mcproxy(&config);
    proxy.step(ScaleEvent::Started);
    assert_eq!(
        proxy.step(ScaleEvent::Read(sts(0, 0))),
        ScaleAction::Patch { name: "mcproxy".to_string(), replicas: 1 }
    );
    assert_eq!(proxy.step(ScaleEvent::Patched(Ok(()))), ScaleAction::Sleep(secs(10)));
    proxy.step(ScaleEvent::Slept);
    assert_eq!(proxy.step(ScaleEvent::Read(sts(1, 1))), ScaleAction::Sleep(secs(10)));
    assert_eq!(proxy.step(ScaleEvent::Slept), ScaleAction::Finished(Ok(())));
}

#[test]
fn a_start_reports_its_failures() {
    let config = two_servers();
    let mut proxy = phase_relaunch_mcproxy(&config);
    proxy.step(ScaleEvent::Started);
    assert_eq!(
        proxy.step(ScaleEvent::Read(Err("gone".to_string()))),
        ScaleAction::Finished(Err(DailyRoutineError::RelaunchMinecraftServer(
            "mcproxy".to_string(),
            StatefulSetScaleError::KubeClient("gone".to_string())
        )))
    );
    let mut proxy = phase_relaunch_mcproxy(&config);
    proxy.step(ScaleEvent::Started);
    proxy.step(ScaleEvent::Read(sts(1, 0)));
    proxy.step(ScaleEvent::Slept);
    assert_eq!(
        proxy.step(ScaleEvent::Read(Ok(StatefulSet { replicas: Some(1), status: None }))),
        ScaleAction::Finished(Err(DailyRoutineError::RelaunchMinecraftServer(
            "mcproxy".to_string(),
            StatefulSetScaleError::StatefulSetNotScaled(
                "mcproxy".to_string(),
                WaitStatefulSetScaleError::StatefulSetHasNoStatus
            )
        )))
    );
    let mut task = relaunch_mcserver(&config, 0);
    task.step(ScaleEvent::Started);
    task.step(ScaleEvent::Read(sts(1, 0)));
    let mut failures = 0;
    let end = loop {
        task.step(ScaleEvent::Slept);
        match task.step(ScaleEvent::Read(Err("flaky".to_string()))) {
            ScaleAction::Sleep(span) => {
                assert_eq!(span, secs(10));
                failures += 1;
            }
            other => break other,
        }
    };
    assert_eq!(failures, 4);
    assert_eq!(
        end,
        ScaleAction::Finished(Err(DailyRoutineError::ShutdownMinecraftServer(
            "s1".to_string(),
            StatefulSetScaleError::StatefulSetNotScaled(
                "s1".to_string(),
                WaitStatefulSetScaleError::KubeClient("flaky".to_string())
            )
        )))
    );
}

fn with_jobs() -> Config {
    config(vec![(
        "s1",
        server("apps/s1", None, vec![("must", job(&[], true)), ("may", job(&[], false))]),
    )])
}

#[test]
fn a_job_is_created_and_waited_for() {
    let config = with_jobs();
    let mut task = execute_job(&config, 0, 0);
    assert!(task.check_accepts(&JobEvent::Started));
    assert_eq!(task.step(JobEvent::Started), JobAction::Create { server: 0, job: 0 });
    assert_eq!(
        task.step(JobEvent::JobCreated(Ok(Some("must-x7".to_string())))),
        JobAction::Sleep(secs(1))
    );
    assert_eq!(task.step(JobEvent::Slept), JobAction::Read { name: "must-x7".to_string() });
    let running = JobStatus { active: Some(1), failed: None };
    assert!(task.check_accepts(&JobEvent::JobRead(Ok(Some(running)))));
    assert_eq!(task.step(JobEvent::JobRead(Ok(Some(running)))), JobAction::Sleep(secs(2)));
    task.step(JobEvent::Slept);
    let done = JobStatus { active: None, failed: None };
    assert_eq!(task.step(JobEvent::JobRead(Ok(Some(done)))), JobAction::Finished(Ok(())));
    assert_eq!(task.stage, JobStage::Finished);
    assert!(!task.check_accepts(&JobEvent::Slept));
}

#[test]
fn a_required_job_that_fails_fails_the_task() {
    let config = with_jobs();
    let failed = JobStatus { active: Some(0), failed: Some(2) };
    let mut task = execute_job(&config, 0, 0);
    task.step(JobEvent::Started);
    assert_eq!(task.step(JobEvent::JobCreated(Ok(None))), JobAction::Sleep(secs(1)));
    assert_eq!(task.step(JobEvent::Slept), JobAction::Read { name: "<unknown>".to_string() });
    assert_eq!(
        task.step(JobEvent::JobRead(Ok(Some(failed)))),
        JobAction::Finished(Err(DailyRoutineError::CustomJobHasFailure(
            "<unknown>".to_string(),
            failed
        )))
    );
    let mut task = execute_job(&config, 0, 0);
    task.step(JobEvent::Started);
    assert_eq!(
        task.step(JobEvent::JobCreated(Err("denied".to_string()))),
        JobAction::Finished(Err(DailyRoutineError::KubeClient("denied".to_string())))
    );
    let mut task = execute_job(&config, 0, 0);
    task.step(JobEvent::Started);
    task.step(JobEvent::JobCreated(Ok(Some("j".to_string()))));
    task.step(JobEvent::Slept);
    assert_eq!(task.step(JobEvent::JobRead(Err("a".to_string()))), JobAction::Sleep(secs(4)));
    task.step(JobEvent::Slept);
    assert_eq!(
        task.step(JobEvent::JobRead(Err("b".to_string()))),
        JobAction::Finished(Err(DailyRoutineError::WaitJobFinished(
            "j".to_string(),
            WaitJobFinishedError::KubeClient("b".to_string())
        )))
    );
}

#[test]
fn a_job_that_is_not_required_never_fails_the_task() {
    let config = with_jobs();
    let failed = JobStatus { active: None, failed: Some(1) };
    let mut task = execute_job(&config, 0, 1);
    assert!(!task.required);
    task.step(JobEvent::Started);
    task.step(JobEvent::JobCreated(Ok(Some("may-1".to_string()))));
    task.step(JobEvent::Slept);
    assert_eq!(task.step(JobEvent::JobRead(Ok(Some(failed)))), JobAction::Finished(Ok(())));
    let mut task = execute_job(&config, 0, 1);
    task.step(JobEvent::Started);
    assert_eq!(
        task.step(JobEvent::JobCreated(Err("denied".to_string()))),
        JobAction::Finished(Ok(()))
    );
    let mut task = execute_job(&config, 0, 1);
    task.step(JobEvent::Started);
    task.step(JobEvent::JobCreated(Ok(None)));
    task.step(JobEvent::Slept);
    assert_eq!(task.step(JobEvent::JobRead(Ok(None))), JobAction::Finished(Ok(())));
}

#[test]
fn the_teardown_task_tears_the_proxy_then_the_servers_then_soaks() {
    let kube = MinecraftChartError::ArgocdError(ArgoCdError::KubeError("no".to_string()));
    assert!(check_teardown_expects(TeardownStage::Created, &TeardownEvent::Started));
    assert!(!check_teardown_expects(TeardownStage::Finished, &TeardownEvent::Slept));
    assert_eq!(
        phase_argocd_teardown(TeardownStage::Created, TeardownEvent::Started),
        (TeardownStage::Proxy, TeardownAction::TeardownProxy)
    );
    assert_eq!(
        phase_argocd_teardown(TeardownStage::Proxy, TeardownEvent::TornDown(Ok(()))),
        (TeardownStage::Servers, TeardownAction::TeardownServers { fan_out: 10 })
    );
    assert_eq!(
        phase_argocd_teardown(TeardownStage::Servers, TeardownEvent::TornDown(Ok(()))),
        (TeardownStage::Soaking, TeardownAction::Sleep(secs(10)))
    );
    assert_eq!(
        phase_argocd_teardown(TeardownStage::Soaking, TeardownEvent::Slept),
        (TeardownStage::Finished, TeardownAction::Finished(Ok(())))
    );
    assert_eq!(
        phase_argocd_teardown(
            TeardownStage::Proxy,
            TeardownEvent::TornDown(Err(MinecraftChartError::ArgocdError(
                ArgoCdError::KubeError("no".to_string())
            )))
        ),
        (
            TeardownStage::Finished,
            TeardownAction::Finished(Err(DailyRoutineError::MinecraftChart(kube)))
        )
    );
    assert_eq!(
        phase_argocd_teardown(
            TeardownStage::Servers,
            TeardownEvent::TornDown(Err(MinecraftChartError::ArgocdError(ArgoCdError::Dropped)))
        ),
        (
            TeardownStage::Finished,
            TeardownAction::Finished(Err(DailyRoutineError::MinecraftChart(
                MinecraftChartError::ArgocdError(ArgoCdError::Dropped)
            )))
        )
    );
}
