use man10_routine::config::polling::{Duration, PollingConfig};
use man10_routine::kubernetes_objects::job::{
    wait_until_job_finished, JobStatus, WaitJobFinishedError,
};
use man10_routine::kubernetes_objects::pod::{wait_until_pod_stopped, WaitPodStoppedError};
use man10_routine::kubernetes_objects::polling::{Outcome, PollStep, Polling, WaitStep};
use man10_routine::kubernetes_objects::statefulset::{
    scale_statefulset_patched, scale_statefulset_to_zero, wait_until_statefulset_scaled, ScaleStep,
    StatefulSet, StatefulSetScaleError, StatefulSetStatus, WaitStatefulSetScaleError,
};
use man10_routine::kubernetes_objects::{
    ARGOCD_NAMESPACE, AUTOMATED_SYNC_POINTER, MANAGEER_ROLE_NAME, RCON_PROGRAM, RCON_STOP,
};

fn secs(n: u64) -> Duration {
    Duration::from_secs(n)
}

fn config() -> PollingConfig {
    PollingConfig {
        initial_wait: secs(60),
        poll_interval: secs(5),
        max_wait: secs(70),
        error_wait: secs(10),
        max_errors: 3,
    }
}

fn sts(replicas: Option<i32>, current: Option<i32>, available: Option<i32>) -> StatefulSet {
    StatefulSet {
        replicas,
        status: Some(StatefulSetStatus { current_replicas: current, available_replicas: available }),
    }
}

#[test]
fn constants_of_the_cluster() {
    assert_eq!(MANAGEER_ROLE_NAME, "man10routine");
    assert_eq!(ARGOCD_NAMESPACE, "argocd");
    assert_eq!(AUTOMATED_SYNC_POINTER, "/spec/syncPolicy/automated");
    assert_eq!([RCON_PROGRAM, RCON_STOP], ["rcon-cli", "stop"]);
}

#[test]
fn a_loop_starts_with_the_initial_wait() {
    let (polling, first) = Polling::start(&config());
    assert_eq!(first, secs(60));
    assert_eq!(polling, Polling { elapsed: secs(60), errors: 0 });
    assert!(polling.check_can_wait(&config()));
}

#[test]
fn done_ends_the_loop_with_its_value() {
    let (mut polling, _) = Polling::start(&config());
    assert_eq!(polling.observe(&config(), Outcome::Done(7)), PollStep::Done(7));
    assert_eq!(polling, Polling { elapsed: secs(60), errors: 0 });
}

#[test]
fn not_yet_costs_poll_intervals_until_the_time_is_up() {
    let (mut polling, _) = Polling::start(&config());
    assert_eq!(polling.observe::<()>(&config(), Outcome::NotYet), PollStep::Sleep(secs(5)));
    assert_eq!(polling.elapsed, secs(65));
    assert_eq!(polling.observe::<()>(&config(), Outcome::Missing), PollStep::Sleep(secs(5)));
    assert_eq!(polling.elapsed, secs(70));
    assert_eq!(polling.observe::<()>(&config(), Outcome::NotYet), PollStep::TimedOut(70));
    assert_eq!(polling, Polling { elapsed: secs(70), errors: 0 });
}

#[test]
fn the_failure_that_reaches_the_budget_ends_the_loop() {
    let (mut polling, _) = Polling::start(&config());
    let failed = |m: &str| Outcome::<()>::TransientError(m.to_string());
    assert_eq!(polling.observe(&config(), failed("one")), PollStep::Sleep(secs(10)));
    assert_eq!(polling, Polling { elapsed: secs(70), errors: 1 });
    assert_eq!(polling.observe(&config(), failed("two")), PollStep::Sleep(secs(10)));
    assert_eq!(polling, Polling { elapsed: secs(80), errors: 2 });
    assert_eq!(
        polling.observe(&config(), failed("three")),
        PollStep::ClientError("three".to_string())
    );
    assert_eq!(polling, Polling { elapsed: secs(80), errors: 2 });
}

#[test]
fn a_budget_of_none_fails_on_the_first_failure() {
    let mut none = config();
    none.max_errors = 0;
    let (mut polling, _) = Polling::start(&none);
    assert_eq!(
        polling.observe::<()>(&none, Outcome::TransientError("x".to_string())),
        PollStep::ClientError("x".to_string())
    );
    none.max_errors = 1;
    assert_eq!(
        polling.observe::<()>(&none, Outcome::TransientError("y".to_string())),
        PollStep::ClientError("y".to_string())
    );
}

#[test]
fn a_wait_that_cannot_grow_is_recognised() {
    let far = Duration::new(u64::MAX, 0).unwrap();
    let polling = Polling { elapsed: far, errors: 0 };
    assert!(!polling.check_can_wait(&config()));
}

#[test]
fn scaling_decides_from_the_replicas_of_the_spec() {
    assert_eq!(scale_statefulset_to_zero(Ok(sts(Some(1), None, None)), 0), ScaleStep::Patch(0));
    assert_eq!(
        scale_statefulset_to_zero(Ok(sts(Some(0), Some(1), Some(1))), 0),
        ScaleStep::Finished(Ok(false))
    );
    assert_eq!(scale_statefulset_to_zero(Ok(sts(Some(0), None, None)), 1), ScaleStep::Patch(1));
    assert_eq!(
        scale_statefulset_to_zero(Ok(sts(None, Some(0), Some(0))), 0),
        ScaleStep::Finished(Err(StatefulSetScaleError::StatefulSetHasNoReplicas))
    );
    assert_eq!(
        scale_statefulset_to_zero(Err("gone".to_string()), 0),
        ScaleStep::Finished(Err(StatefulSetScaleError::KubeClient("gone".to_string())))
    );
    assert_eq!(scale_statefulset_patched(Ok(())), Ok(true));
    assert_eq!(
        scale_statefulset_patched(Err("denied".to_string())),
        Err(StatefulSetScaleError::KubeClient("denied".to_string()))
    );
}

#[test]
fn a_statefulset_is_scaled_when_both_counts_match() {
    let (mut polling, _) = Polling::start(&config());
    let status = StatefulSetStatus { current_replicas: Some(1), available_replicas: Some(1) };
    assert_eq!(
        wait_until_statefulset_scaled(&mut polling, &config(), 1, Ok(sts(Some(1), Some(1), Some(1)))),
        WaitStep::Finished(Ok(status))
    );
    assert_eq!(
        wait_until_statefulset_scaled(&mut polling, &config(), 1, Ok(sts(Some(1), Some(1), None))),
        WaitStep::Sleep(secs(5))
    );
    let zero = StatefulSetStatus { current_replicas: None, available_replicas: None };
    assert_eq!(
        wait_until_statefulset_scaled(&mut polling, &config(), 0, Ok(sts(Some(0), None, None))),
        WaitStep::Finished(Ok(zero))
    );
}

#[test]
fn a_statefulset_wait_fails_without_status_in_time_or_on_errors() {
    let (mut polling, _) = Polling::start(&config());
    assert_eq!(
        wait_until_statefulset_scaled(
            &mut polling,
            &config(),
            0,
            Ok(StatefulSet { replicas: Some(0), status: None })
        ),
        WaitStep::Finished(Err(WaitStatefulSetScaleError::StatefulSetHasNoStatus))
    );
    let busy = || Ok(sts(Some(0), Some(1), Some(1)));
    assert_eq!(
        wait_until_statefulset_scaled(&mut polling, &config(), 0, busy()),
        WaitStep::Sleep(secs(5))
    );
    assert_eq!(
        wait_until_statefulset_scaled(&mut polling, &config(), 0, busy()),
        WaitStep::Sleep(secs(5))
    );
    assert_eq!(
        wait_until_statefulset_scaled(&mut polling, &config(), 0, busy()),
        WaitStep::Finished(Err(WaitStatefulSetScaleError::StatefulSetScaledCheckTimeout(70)))
    );
    let mut quick = config();
    quick.max_errors = 1;
    assert_eq!(
        wait_until_statefulset_scaled(&mut polling, &quick, 0, Err("boom".to_string())),
        WaitStep::Finished(Err(WaitStatefulSetScaleError::KubeClient("boom".to_string())))
    );
}

#[test]
fn a_job_is_finished_when_nothing_is_active() {
    let (mut polling, _) = Polling::start(&config());
    let running = JobStatus { active: Some(2), failed: None };
    let done = JobStatus { active: None, failed: Some(1) };
    assert_eq!(
        wait_until_job_finished(&mut polling, &config(), Ok(Some(running))),
        WaitStep::Sleep(secs(5))
    );
    assert_eq!(
        wait_until_job_finished(&mut polling, &config(), Ok(Some(done))),
        WaitStep::Finished(Ok(done))
    );
    assert!(done.check_has_failure());
    assert!(!JobStatus { active: Some(0), failed: Some(0) }.check_has_failure());
    assert!(!running.check_has_failure());
    assert_eq!(
        wait_until_job_finished(&mut polling, &config(), Ok(None)),
        WaitStep::Finished(Err(WaitJobFinishedError::JobHasNoStatus))
    );
    assert_eq!(
        wait_until_job_finished(&mut polling, &config(), Ok(Some(running))),
        WaitStep::Sleep(secs(5))
    );
    assert_eq!(
        wait_until_job_finished(&mut polling, &config(), Ok(Some(running))),
        WaitStep::Finished(Err(WaitJobFinishedError::JobCompletionCheckTimeout(70)))
    );
    let mut quick = config();
    quick.max_errors = 1;
    assert_eq!(
        wait_until_job_finished(&mut polling, &quick, Err("boom".to_string())),
        WaitStep::Finished(Err(WaitJobFinishedError::KubeClient("boom".to_string())))
    );
}

#[test]
fn a_pod_is_stopped_when_it_is_missing() {
    let (mut polling, _) = Polling::start(&config());
    assert_eq!(
        wait_until_pod_stopped(&mut polling, &config(), Outcome::Done(())),
        WaitStep::Sleep(secs(5))
    );
    assert_eq!(
        wait_until_pod_stopped(&mut polling, &config(), Outcome::Missing),
        WaitStep::Finished(Ok(()))
    );
    assert_eq!(
        wait_until_pod_stopped(&mut polling, &config(), Outcome::NotYet),
        WaitStep::Sleep(secs(5))
    );
    assert_eq!(
        wait_until_pod_stopped(&mut polling, &config(), Outcome::Done(())),
        WaitStep::Finished(Err(WaitPodStoppedError::PodShutdownCheckTimeout(70)))
    );
    let mut quick = config();
    quick.max_errors = 1;
    assert_eq!(
        wait_until_pod_stopped(&mut polling, &quick, Outcome::TransientError("boom".to_string())),
        WaitStep::Finished(Err(WaitPodStoppedError::KubeClient("boom".to_string())))
    );
}

#[test]
fn settings_fit_unless_their_waits_add_up_too_far() {
    assert!(Polling::check_fits(&config()));
    assert!(Polling::check_fits(&PollingConfig::default()));
    let mut endless = config();
    endless.max_errors = u64::MAX;
    endless.error_wait = Duration::new(u64::MAX / 4, 0).unwrap();
    assert!(!Polling::check_fits(&endless));
    endless.max_errors = 2;
    assert!(Polling::check_fits(&endless));
    endless.max_errors = 3;
    assert!(!Polling::check_fits(&endless));
    endless.max_errors = u64::MAX;
    endless.error_wait = secs(0);
    assert!(Polling::check_fits(&endless));
    let mut long = config();
    long.max_wait = Duration::longest();
    assert!(!Polling::check_fits(&long));
    assert_eq!(Duration::longest().as_nanos(), u64::MAX as u128 * 1_000_000_000 + 999_999_999);
    assert_eq!(secs(2).as_nanos(), 2_000_000_000);
}
