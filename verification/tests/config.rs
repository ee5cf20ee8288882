use k8s_openapi::api::batch::v1::Job;
use man10_routine::config::polling::{
    default_error_wait, default_initial_wait, default_max_errors, default_max_wait,
    default_poll_interval, Duration, PollingConfig, RawPollingConfig,
};
use man10_routine::config::raw::{
    build_jobs_after_snapshot, default_required, RawConfig, RawMinecraftChart,
};
use man10_routine::config::{Config, ConfigParseError};
use man10_routine::kubernetes_objects::argocd::{ArgoCdForest, ArgoCdKind, TearState};
use man10_routine::kubernetes_objects::custom_job::CustomJob;

fn chart(name: Option<&str>, argocd: &str, rcon: &str, required: Option<bool>) -> RawMinecraftChart {
    RawMinecraftChart {
        name: name.map(|n| n.to_string()),
        argocd: argocd.to_string(),
        rcon_container: rcon.to_string(),
        jobs_after_snapshot: Vec::new(),
        required_to_start: required,
    }
}

fn job(dependencies: &[&str]) -> CustomJob {
    CustomJob {
        dependencies: dependencies.iter().map(|d| d.to_string()).collect(),
        manifest: Job::default(),
        required: true,
        completion_polling: PollingConfig::default(),
    }
}

fn two_servers() -> RawConfig {
    RawConfig {
        namespace: "default".to_string(),
        mcproxy: chart(Some("mcproxy"), "apps/minecraft/mcproxy", "mcproxy", None),
        mcservers: vec![
            (
                "server1".to_string(),
                chart(
                    Some("server1_customname"),
                    "apps/minecraft/servers/server1",
                    "server1",
                    None,
                ),
            ),
            (
                "server2".to_string(),
                chart(None, "apps/minecraft/servers/server2", "server2", Some(false)),
            ),
        ],
    }
}

fn path_of(forest: &ArgoCdForest, app: usize) -> Vec<String> {
    forest.get(app).unwrap().path.clone()
}

#[test]
fn test_config_parse() {
    let raw = two_servers();

    let config = Config::try_from(raw).expect("Config parse failed");
    assert_eq!(config.namespace, "default");
    assert_eq!(config.argocds.len(), 6);
    {
        let server_1 = &config.mcservers.iter().find(|(k, _)| k == "server1").unwrap().1;
        assert_eq!(server_1.name, "server1_customname");
        assert!(server_1.required_to_start);
    }
    {
        let server_2 = &config.mcservers.iter().find(|(k, _)| k == "server2").unwrap().1;
        assert_eq!(server_2.name, "server2");
        assert!(!server_2.required_to_start);
    }
    {
        let server_1 = &config.mcservers.iter().find(|(k, _)| k == "server1").unwrap().1;
        let server_1_argocd = config.argocds.get(server_1.argocd).unwrap();
        assert_eq!(server_1_argocd.path, vec!["apps", "minecraft", "servers", "server1"]);
        assert_eq!(server_1_argocd.name, "server1");
    }
}

#[test]
fn argocd_test_argocd_path() {
    let mut forest = ArgoCdForest::new();
    let app_of_apps = forest.new_app_of_apps("root".to_string(), None);
    let application = forest.new_application("app1".to_string(), Some(app_of_apps));
    assert_eq!(forest.get(app_of_apps).unwrap().path, vec!["root"]);
    assert_eq!(forest.get(application).unwrap().path, vec!["root", "app1"]);
}

#[test]
fn initialize_test_argocd_path() {
    let mut forest = ArgoCdForest::new();
    let app_of_apps = forest.new_app_of_apps("root".to_string(), None);
    let application = forest.new_application("app1".to_string(), Some(app_of_apps));
    assert_eq!(forest.get(app_of_apps).unwrap().path, vec!["root"]);
    assert_eq!(forest.get(application).unwrap().path, vec!["root", "app1"]);
    assert_eq!(forest.get(app_of_apps).unwrap().kind, ArgoCdKind::AppOfApps);
    assert_eq!(forest.get(application).unwrap().kind, ArgoCdKind::Application);
    assert_eq!(forest.get(application).unwrap().parent, Some(app_of_apps));
    assert_eq!(forest.get(application).unwrap().tear, TearState::Idle);
}

#[test]
fn happy_path_forest_has_six_nodes_in_order() {
    let raw = RawConfig {
        namespace: "default".to_string(),
        mcproxy: chart(Some("mcproxy"), "apps/minecraft/mcproxy", "mcproxy", None),
        mcservers: vec![
            ("s1".to_string(), chart(None, "apps/minecraft/servers/s1", "s1", None)),
            ("s2".to_string(), chart(None, "apps/minecraft/servers/s2", "s2", None)),
        ],
    };
    let config = Config::try_from(raw).unwrap();
    assert_eq!(config.argocds.len(), 6);
    let paths: Vec<String> = (0..6).map(|i| path_of(&config.argocds, i).join("/")).collect();
    assert_eq!(
        paths,
        vec![
            "apps",
            "apps/minecraft",
            "apps/minecraft/mcproxy",
            "apps/minecraft/servers",
            "apps/minecraft/servers/s1",
            "apps/minecraft/servers/s2",
        ]
    );
    assert_eq!(config.mcproxy.argocd, 2);
    assert_eq!(config.mcservers[0].1.argocd, 4);
    assert_eq!(config.mcservers[1].1.argocd, 5);
    assert_eq!(config.mcservers[0].1.name, "s1");
    assert!(!config.mcproxy.required_to_start);
    assert_eq!(config.argocds.get(5).unwrap().kind, ArgoCdKind::Application);
    assert_eq!(config.argocds.get(3).unwrap().kind, ArgoCdKind::AppOfApps);
    assert!(!config.argocds.is_busy());
}

#[test]
fn proxy_without_name_is_refused() {
    let mut raw = two_servers();
    raw.mcproxy.name = None;
    assert_eq!(Config::try_from(raw).unwrap_err(), ConfigParseError::McproxyNameMissing);
}

#[test]
fn no_required_server_is_refused() {
    let mut raw = two_servers();
    raw.mcservers[0].1.required_to_start = Some(false);
    assert_eq!(
        Config::try_from(raw).unwrap_err(),
        ConfigParseError::McproxyRequiresNoServerToStart
    );
}

#[test]
fn no_server_at_all_is_refused() {
    let mut raw = two_servers();
    raw.mcservers.clear();
    assert_eq!(
        Config::try_from(raw).unwrap_err(),
        ConfigParseError::McproxyRequiresNoServerToStart
    );
}

#[test]
fn proxy_required_to_start_is_refused() {
    let mut raw = two_servers();
    raw.mcproxy.required_to_start = Some(false);
    assert_eq!(
        Config::try_from(raw).unwrap_err(),
        ConfigParseError::RequiredToStartCannotBeSetForMcproxy
    );
}

#[test]
fn server_key_with_slash_is_refused_first() {
    let mut raw = two_servers();
    raw.mcservers[1].0 = "a/b".to_string();
    raw.mcproxy.required_to_start = Some(true);
    assert_eq!(
        Config::try_from(raw).unwrap_err(),
        ConfigParseError::McserverNameIncludesSlash { name: "a/b".to_string() }
    );
}

#[test]
fn job_name_with_slash_is_refused() {
    let mut raw = two_servers();
    raw.mcservers[1].1.jobs_after_snapshot =
        vec![("ok".to_string(), job(&[])), ("bad/name".to_string(), job(&[]))];
    assert_eq!(
        Config::try_from(raw).unwrap_err(),
        ConfigParseError::JobNameIncludesSlash {
            chart_name: "server2".to_string(),
            job_name: "bad/name".to_string(),
        }
    );
}

#[test]
fn two_charts_on_one_application_are_refused() {
    let mut raw = two_servers();
    raw.mcservers[1].1.argocd = "apps/minecraft/servers/server1".to_string();
    assert_eq!(
        Config::try_from(raw).unwrap_err(),
        ConfigParseError::ArgoCdHasMultipleCharts { name: "server1".to_string() }
    );
}

#[test]
fn a_name_under_two_parents_is_refused() {
    let mut raw = two_servers();
    raw.mcservers[1].1.argocd = "other/minecraft/server2".to_string();
    assert_eq!(
        Config::try_from(raw).unwrap_err(),
        ConfigParseError::ArgoCdParentMismatch {
            name: "minecraft".to_string(),
            first_parent: "apps".to_string(),
            second_parent: "other".to_string(),
        }
    );
}

#[test]
fn a_root_reused_below_is_refused_with_none_as_parent() {
    let mut raw = two_servers();
    raw.mcservers[1].1.argocd = "minecraft/server2".to_string();
    assert_eq!(
        Config::try_from(raw).unwrap_err(),
        ConfigParseError::ArgoCdParentMismatch {
            name: "minecraft".to_string(),
            first_parent: "apps".to_string(),
            second_parent: "None".to_string(),
        }
    );
}

#[test]
fn hierarchy_helpers_build_and_reuse_nodes() {
    let mut forest = ArgoCdForest::new();
    let apps = Config::get_or_insert_argocd_apps_of_apps(&mut forest, None, "apps").unwrap();
    let again = Config::get_or_insert_argocd_apps_of_apps(&mut forest, None, "apps").unwrap();
    assert_eq!(apps, again);
    assert_eq!(forest.len(), 1);
    let leaf = Config::insert_argocd_application(&mut forest, Some("apps"), "proxy").unwrap();
    assert_eq!(leaf, 1);
    assert_eq!(forest.get(leaf).unwrap().parent, Some(apps));
    assert_eq!(
        Config::insert_argocd_application(&mut forest, Some("apps"), "proxy").unwrap_err(),
        ConfigParseError::ArgoCdHasMultipleCharts { name: "proxy".to_string() }
    );
    let deep = Config::build_argocd_hierarchy(&mut forest, "apps/servers/s1").unwrap();
    assert_eq!(deep, 3);
    assert_eq!(forest.get(deep).unwrap().path, vec!["apps", "servers", "s1"]);
    assert_eq!(forest.find("servers"), Some(2));
    assert_eq!(forest.find("nothing"), None);
}

#[test]
fn jobs_pass_through_unchanged() {
    let jobs = vec![("a".to_string(), job(&[])), ("b".to_string(), job(&["a"]))];
    let built = build_jobs_after_snapshot(jobs, "chart").unwrap();
    assert_eq!(built.len(), 2);
    assert_eq!(built[1].0, "b");
    assert_eq!(built[1].1.dependencies, vec!["a"]);
}

#[test]
fn polling_defaults() {
    assert_eq!(default_initial_wait(), Duration::from_secs(10));
    assert_eq!(default_poll_interval(), Duration::from_secs(5));
    assert_eq!(default_max_wait(), Duration::from_secs(600));
    assert_eq!(default_error_wait(), Duration::from_secs(10));
    assert_eq!(default_max_errors(), 5);
    assert!(default_required());
    assert_eq!(
        PollingConfig::default(),
        PollingConfig {
            initial_wait: Duration::from_secs(10),
            poll_interval: Duration::from_secs(5),
            max_wait: Duration::from_secs(600),
            error_wait: Duration::from_secs(10),
            max_errors: 5,
        }
    );
}

#[test]
fn durations_add_and_compare() {
    let a = Duration::new(1, 600_000_000).unwrap();
    let b = Duration::new(2, 500_000_000).unwrap();
    let sum = a.checked_add(&b).unwrap();
    assert_eq!(sum.as_secs(), 4);
    assert_eq!(sum.subsec_nanos(), 100_000_000);
    assert!(b.at_least(&a));
    assert!(!a.at_least(&b));
    assert!(a.at_least(&a));
    assert_eq!(Duration::new(0, 1_000_000_000), None);
    assert_eq!(Duration::from_mins(15), Duration::from_secs(900));
    let max = Duration::new(u64::MAX, 999_999_999).unwrap();
    assert_eq!(max.checked_add(&Duration::new(0, 1).unwrap()), None);
    assert_eq!(max.checked_add(&Duration::from_secs(0)), Some(max));
}

#[test]
fn a_configuration_written_back_reads_the_same() {
    let mut raw = two_servers();
    raw.mcservers[0].1.jobs_after_snapshot =
        vec![("a".to_string(), job(&[])), ("b".to_string(), job(&["a"]))];
    let first = Config::try_from(raw).unwrap();
    let shown = format!("{first:?}");
    let written = first.into_raw();
    assert_eq!(written.mcproxy.argocd, "apps/minecraft/mcproxy");
    assert_eq!(written.mcproxy.required_to_start, None);
    assert_eq!(written.mcservers[1].1.name, Some("server2".to_string()));
    assert_eq!(written.mcservers[1].1.required_to_start, Some(false));
    assert_eq!(written.mcservers[0].1.required_to_start, Some(true));
    assert_eq!(written.mcservers[0].1.argocd, "apps/minecraft/servers/server1");
    let second = Config::try_from(written).unwrap();
    assert_eq!(format!("{second:?}"), shown);
}

#[test]
fn test_polling_config_deserialize_defaults() {
    // config:
    //   poll_interval: 15s
    let fields = RawPollingConfig { poll_interval: Some("15s".to_string()), ..Default::default() };

    let config = PollingConfig::from_raw(&fields).unwrap();

    assert_eq!(
        config,
        PollingConfig {
            initial_wait: Duration::from_secs(10),
            poll_interval: Duration::from_secs(15),
            max_wait: Duration::from_secs(600),
            error_wait: Duration::from_secs(10),
            max_errors: 5,
        }
    );
}

#[test]
fn test_polling_config_deserialize_omitted() {
    let config = PollingConfig::from_raw(&RawPollingConfig::default()).unwrap();

    assert_eq!(
        config,
        PollingConfig {
            initial_wait: Duration::from_secs(10),
            poll_interval: Duration::from_secs(5),
            max_wait: Duration::from_secs(600),
            error_wait: Duration::from_secs(10),
            max_errors: 5,
        }
    );
}

#[test]
fn durations_are_read_as_people_write_them() {
    let fields = RawPollingConfig {
        initial_wait: Some("1m30s".to_string()),
        poll_interval: Some("250ms".to_string()),
        max_wait: Some("15m".to_string()),
        error_wait: Some("2".to_string()),
        max_errors: Some(0),
    };
    let config = PollingConfig::from_raw(&fields).unwrap();
    assert_eq!(config.initial_wait, Duration::from_secs(90));
    assert_eq!(config.poll_interval, Duration::new(0, 250_000_000).unwrap());
    assert_eq!(config.max_wait, Duration::from_mins(15));
    assert_eq!(config.error_wait, Duration::from_secs(2));
    assert_eq!(config.max_errors, 0);
}

#[test]
fn the_first_text_that_is_no_duration_fails_the_reading() {
    let fields = RawPollingConfig {
        initial_wait: Some("10s".to_string()),
        poll_interval: Some("soon".to_string()),
        max_wait: Some("".to_string()),
        ..Default::default()
    };
    let soon = PollingConfig::from_raw(&fields).unwrap_err();
    let alone = PollingConfig::from_raw(&RawPollingConfig {
        poll_interval: Some("soon".to_string()),
        ..Default::default()
    })
    .unwrap_err();
    assert_eq!(soon, alone);
    let empty = PollingConfig::from_raw(&RawPollingConfig {
        max_wait: Some("".to_string()),
        ..Default::default()
    })
    .unwrap_err();
    assert_ne!(soon, empty);
}

#[test]
fn absent_fields_get_their_defaults() {
    let config = PollingConfig::with_defaults(
        None,
        Some(Duration::from_secs(1)),
        None,
        Some(Duration::from_secs(2)),
        Some(9),
    );
    assert_eq!(
        config,
        PollingConfig {
            initial_wait: Duration::from_secs(10),
            poll_interval: Duration::from_secs(1),
            max_wait: Duration::from_secs(600),
            error_wait: Duration::from_secs(2),
            max_errors: 9,
        }
    );
}

#[test]
fn validation_errors_say_what_is_wrong() {
    assert_eq!(
        ConfigParseError::ArgoCdParentMismatch {
            name: "minecraft".to_string(),
            first_parent: "apps".to_string(),
            second_parent: "None".to_string(),
        }
        .message(),
        "Parent mismatch for ArgoCD app 'minecraft': first defined parent 'apps', but afterwards defined parent 'None'"
    );
    assert_eq!(
        ConfigParseError::ArgoCdHasMultipleCharts { name: "s1".to_string() }.message(),
        "ArgoCD app 's1' has multiple minecraft charts assigned"
    );
    assert_eq!(ConfigParseError::McproxyNameMissing.message(), "mcproxy must have a name defined");
    assert_eq!(
        ConfigParseError::McserverNameIncludesSlash { name: "a/b".to_string() }.message(),
        "mcserver key 'a/b' must not contain '/' characters"
    );
    assert_eq!(
        ConfigParseError::RequiredToStartCannotBeSetForMcproxy.message(),
        "The 'required_to_start' field cannot be set for mcproxy"
    );
    assert_eq!(
        ConfigParseError::McproxyRequiresNoServerToStart.message(),
        "Not all 'required_to_start' values for all mcservers should be false."
    );
    assert_eq!(
        ConfigParseError::JobNameIncludesSlash {
            chart_name: "server2".to_string(),
            job_name: "bad/name".to_string(),
        }
        .message(),
        "Job name 'bad/name' in chart 'server2' must not contain '/' characters"
    );
}
