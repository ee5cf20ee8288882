use man10_routine::config::Config;
use man10_routine::kubernetes_objects::argocd::tearing::{TearingArgoCdGuard, TeardownStep};
use man10_routine::kubernetes_objects::argocd::{
    ArgoCdError, ArgoCdForest, SyncPolicy, TearState, Teardown,
};
use man10_routine::kubernetes_objects::minecraft_chart::{
    ChartTeardown, MinecraftChart, MinecraftChartError,
};

/// apps(0) / minecraft(1) / servers(2) / s1(3), s2(4); apps / minecraft / mcproxy(5)
fn forest() -> ArgoCdForest {
    let mut forest = ArgoCdForest::new();
    assert_eq!(Config::build_argocd_hierarchy(&mut forest, "apps/minecraft/servers/s1"), Ok(3));
    assert_eq!(Config::build_argocd_hierarchy(&mut forest, "apps/minecraft/servers/s2"), Ok(4));
    assert_eq!(Config::build_argocd_hierarchy(&mut forest, "apps/minecraft/mcproxy"), Ok(5));
    forest
}

fn policy(text: &str) -> Option<SyncPolicy> {
    Some(SyncPolicy { document: text.to_string() })
}

fn kube(message: &str) -> ArgoCdError {
    ArgoCdError::KubeError(message.to_string())
}

fn counter(forest: &ArgoCdForest, app: usize) -> Option<usize> {
    match &forest.get(app).unwrap().tear {
        TearState::Torn(teardown) => Some(teardown.counter),
        _ => None,
    }
}

/// Tears `app` down with every pause going through, and returns the applications that
/// were paused, in order, with the guard.
fn tear_ok(forest: &mut ArgoCdForest, app: usize) -> (Vec<usize>, TearingArgoCdGuard) {
    let mut paused = Vec::new();
    let mut step = forest.tear(app);
    loop {
        match step {
            TeardownStep::Pause { app } => {
                paused.push(app);
                step = forest.paused(Ok(policy(&format!("policy of {app}"))));
            }
            TeardownStep::Granted(guard) => return (paused, guard),
            other => panic!("unexpected step {other:?}"),
        }
    }
}

/// Closes `guard` with every restore going through, and returns the applications that
/// were restored, in order.
fn close_ok(forest: &mut ArgoCdForest, guard: TearingArgoCdGuard) -> Vec<usize> {
    let mut restored = Vec::new();
    let mut step = guard.close(forest);
    loop {
        match step {
            TeardownStep::Restore { app } => {
                restored.push(app);
                step = forest.restored(Ok(()));
            }
            TeardownStep::Closed => return restored,
            other => panic!("unexpected step {other:?}"),
        }
    }
}

#[test]
fn a_teardown_pauses_the_chain_from_the_root_down() {
    let mut forest = forest();
    let (paused, guard) = tear_ok(&mut forest, 3);
    assert_eq!(paused, vec![0, 1, 2, 3]);
    assert_eq!(guard.app(), 3);
    for app in 0..4 {
        assert_eq!(counter(&forest, app), Some(1));
    }
    assert_eq!(forest.get(4).unwrap().tear, TearState::Idle);
    assert_eq!(
        forest.get(3).unwrap().tear,
        TearState::Torn(Teardown {
            upstream: true,
            original_sync_policy: policy("policy of 3"),
            counter: 1,
        })
    );
    assert_eq!(
        forest.get(0).unwrap().tear,
        TearState::Torn(Teardown {
            upstream: false,
            original_sync_policy: policy("policy of 0"),
            counter: 1,
        })
    );
    assert!(!forest.is_busy());
    assert_eq!(close_ok(&mut forest, guard), vec![3, 2, 1, 0]);
}

#[test]
fn a_second_teardown_pauses_only_what_is_not_paused() {
    let mut forest = forest();
    let (_, guard_s1) = tear_ok(&mut forest, 3);
    let (paused, guard_s2) = tear_ok(&mut forest, 4);
    assert_eq!(paused, vec![4]);
    assert_eq!(counter(&forest, 2), Some(2));
    assert_eq!(counter(&forest, 1), Some(1));
    let (paused, guard_proxy) = tear_ok(&mut forest, 5);
    assert_eq!(paused, vec![5]);
    assert_eq!(counter(&forest, 1), Some(2));

    assert_eq!(close_ok(&mut forest, guard_s1), vec![3]);
    assert_eq!(counter(&forest, 2), Some(1));
    assert_eq!(forest.get(3).unwrap().tear, TearState::Idle);
    assert_eq!(close_ok(&mut forest, guard_proxy), vec![5]);
    assert_eq!(counter(&forest, 1), Some(1));
    assert_eq!(close_ok(&mut forest, guard_s2), vec![4, 2, 1, 0]);
    for app in 0..6 {
        assert_eq!(forest.get(app).unwrap().tear, TearState::Idle);
    }
}

#[test]
fn many_callers_pause_once_and_restore_once() {
    let mut forest = forest();
    let mut guards = Vec::new();
    let mut pauses = 0;
    for _ in 0..5 {
        let (paused, guard) = tear_ok(&mut forest, 1);
        pauses += paused.iter().filter(|app| **app == 1).count();
        guards.push(guard);
    }
    assert_eq!(pauses, 1);
    assert_eq!(counter(&forest, 1), Some(5));
    let mut restores = 0;
    while let Some(guard) = guards.pop() {
        let last = guards.is_empty();
        let restored = close_ok(&mut forest, guard);
        restores += restored.iter().filter(|app| **app == 1).count();
        assert_eq!(restored.is_empty(), !last);
    }
    assert_eq!(restores, 1);
    assert_eq!(forest.get(1).unwrap().tear, TearState::Idle);
    assert_eq!(forest.get(0).unwrap().tear, TearState::Idle);
}

#[test]
fn a_failed_pause_rolls_the_ancestors_back() {
    let mut forest = forest();
    let mut trace: Vec<String> = Vec::new();
    let mut step = forest.tear(3);
    let result = loop {
        match step {
            TeardownStep::Pause { app } => {
                trace.push(format!("pause {}", forest.get(app).unwrap().path.join("/")));
                step = if app == 3 {
                    forest.paused(Err(kube("no")))
                } else {
                    forest.paused(Ok(policy("p")))
                };
            }
            TeardownStep::Restore { app } => {
                trace.push(format!("restore {}", forest.get(app).unwrap().path.join("/")));
                step = forest.restored(Ok(()));
            }
            TeardownStep::Failed(error) => break error,
            other => panic!("unexpected step {other:?}"),
        }
    };
    assert_eq!(result, kube("no"));
    assert_eq!(
        trace,
        vec![
            "pause apps",
            "pause apps/minecraft",
            "pause apps/minecraft/servers",
            "pause apps/minecraft/servers/s1",
            "restore apps/minecraft/servers",
            "restore apps/minecraft",
            "restore apps",
        ]
    );
    assert_eq!(forest.get(3).unwrap().tear, TearState::Failed(kube("no")));
    for app in 0..3 {
        assert_eq!(forest.get(app).unwrap().tear, TearState::Idle);
    }
    assert!(!forest.is_busy());
    // The failure stays: a later teardown fails at once, and sends nothing.
    assert_eq!(forest.tear(3), TeardownStep::Failed(kube("no")));
    assert_eq!(forest.get(2).unwrap().tear, TearState::Idle);
}

#[test]
fn a_failed_pause_leaves_ancestors_that_others_hold() {
    let mut forest = forest();
    let (_, guard_s2) = tear_ok(&mut forest, 4);
    assert_eq!(forest.tear(3), TeardownStep::Pause { app: 3 });
    assert_eq!(counter(&forest, 2), Some(2));
    assert_eq!(forest.paused(Err(kube("down"))), TeardownStep::Failed(kube("down")));
    assert_eq!(counter(&forest, 2), Some(1));
    assert_eq!(close_ok(&mut forest, guard_s2), vec![4, 2, 1, 0]);
}

#[test]
fn a_failed_ancestor_fails_the_teardown_of_its_descendants() {
    let mut forest = forest();
    assert_eq!(forest.tear(1), TeardownStep::Pause { app: 0 });
    assert_eq!(forest.paused(Err(kube("root is gone"))), TeardownStep::Failed(kube("root is gone")));
    assert_eq!(forest.tear(5), TeardownStep::Failed(kube("root is gone")));
    assert_eq!(forest.get(5).unwrap().tear, TearState::Idle);
    assert_eq!(forest.get(1).unwrap().tear, TearState::Idle);
}

#[test]
fn a_failed_restore_ends_the_release_with_its_error() {
    let mut forest = forest();
    let (_, guard) = tear_ok(&mut forest, 2);
    assert_eq!(guard.close(&mut forest), TeardownStep::Restore { app: 2 });
    assert_eq!(forest.restored(Ok(())), TeardownStep::Restore { app: 1 });
    assert_eq!(forest.restored(Err(kube("late"))), TeardownStep::Failed(kube("late")));
    assert!(!forest.is_busy());
    assert_eq!(counter(&forest, 2), Some(0));
    assert_eq!(counter(&forest, 1), Some(0));
    assert_eq!(counter(&forest, 0), Some(1));
}

#[test]
fn a_failed_rollback_still_fails_with_the_error_of_the_pause() {
    let mut forest = forest();
    assert_eq!(forest.tear(1), TeardownStep::Pause { app: 0 });
    assert_eq!(forest.paused(Ok(None)), TeardownStep::Pause { app: 1 });
    assert_eq!(forest.paused(Err(kube("pause"))), TeardownStep::Restore { app: 0 });
    assert_eq!(forest.restored(Err(kube("restore"))), TeardownStep::Failed(kube("pause")));
    assert_eq!(forest.get(1).unwrap().tear, TearState::Failed(kube("pause")));
}

#[test]
fn a_guard_of_an_application_that_is_not_suspended_is_refused() {
    let mut forest = forest();
    let mut other = ArgoCdForest::new();
    Config::build_argocd_hierarchy(&mut other, "a/b").unwrap();
    let (_, guard) = tear_ok(&mut other, 1);
    assert_eq!(guard.close(&mut forest), TeardownStep::Failed(ArgoCdError::Dropped));
    assert_eq!(ArgoCdError::dropped(), ArgoCdError::Dropped);
    for app in 0..6 {
        assert_eq!(forest.get(app).unwrap().tear, TearState::Idle);
    }
    assert!(forest.check_has_room());
}

#[test]
fn a_chart_remembers_its_teardown() {
    let mut forest = forest();
    let mut chart = MinecraftChart::new("s1".to_string(), 3, "rcon".to_string(), Vec::new(), true);
    assert!(!chart.check_holds_guard());
    assert_eq!(chart.argocd_teardown(), ChartTeardown::Tear(3));
    let (_, guard) = tear_ok(&mut forest, 3);
    assert_eq!(chart.argocd_torn(Ok(guard)), Ok(()));
    assert!(chart.check_holds_guard());
    assert_eq!(chart.argocd_teardown(), ChartTeardown::Cached(Ok(())));
    let guard = chart.release().unwrap();
    assert_eq!(guard.app(), 3);
    assert!(chart.release().is_none());
    assert_eq!(chart.argocd_teardown(), ChartTeardown::Tear(3));
    assert_eq!(close_ok(&mut forest, guard), vec![3, 2, 1, 0]);
}

#[test]
fn a_chart_remembers_a_failed_teardown_for_good() {
    let mut chart = MinecraftChart::new("s1".to_string(), 3, "rcon".to_string(), Vec::new(), true);
    assert_eq!(
        chart.argocd_torn(Err(kube("no"))),
        Err(MinecraftChartError::ArgocdError(kube("no")))
    );
    assert_eq!(
        chart.argocd_teardown(),
        ChartTeardown::Cached(Err(MinecraftChartError::ArgocdError(kube("no"))))
    );
    assert!(!chart.check_holds_guard());
    assert!(chart.release().is_none());
    assert_eq!(
        chart.argocd_teardown(),
        ChartTeardown::Cached(Err(MinecraftChartError::ArgocdError(kube("no"))))
    );
}
