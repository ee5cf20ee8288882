//! The configuration as it is read, before it is validated.

use crate::kubernetes_objects::custom_job::{jobs_view, CustomJob, CustomJobView};
use crate::text::{contains_slash, first_slashed, lemma_first_slashed_is, slash};
use vstd::string::StringExecFns;
use vstd::prelude::*;

verus! {

/// The configuration as it is read.
#[derive(Debug)]
pub struct RawConfig {
    pub namespace: String,
    pub mcproxy: RawMinecraftChart,
    /// The game servers by key, in the order of their keys.
    pub mcservers: Vec<(String, RawMinecraftChart)>,
}

/// One chart as it is read.
#[derive(Debug)]
pub struct RawMinecraftChart {
    /// The name of the chart's StatefulSet. A game server without one is called by its key.
    pub name: Option<String>,
    /// The path of the chart's application in the forest, its segments separated by `/`.
    pub argocd: String,
    pub rcon_container: String,
    /// The jobs to run after the volumes were snapshotted, by name, in the order of their
    /// names.
    pub jobs_after_snapshot: Vec<(String, CustomJob)>,
    /// Whether the proxy waits for this server. Absent means yes; the proxy has none.
    pub required_to_start: Option<bool>,
}

/// Whether a job is required where the configuration does not say: it is.
pub fn default_required() -> (required: bool)
    ensures
        required,
{
    true
}

/// Why a configuration is not valid.
#[derive(Debug, PartialEq, Eq)]
pub enum ConfigParseError {
    /// The application `name` was first placed under `first_parent` and then under
    /// `second_parent`. A missing parent is written `None`.
    ArgoCdParentMismatch { name: String, first_parent: String, second_parent: String },
    /// Two charts are bound to the application `name`, or a chart is bound to an
    /// application that other applications were placed under before.
    ArgoCdHasMultipleCharts { name: String },
    /// The proxy has no name.
    McproxyNameMissing,
    /// The key of a game server holds a `/`.
    McserverNameIncludesSlash { name: String },
    /// The proxy says whether it is required to start.
    RequiredToStartCannotBeSetForMcproxy,
    /// No game server is required to start.
    McproxyRequiresNoServerToStart,
    /// The name of a job holds a `/`.
    JobNameIncludesSlash { chart_name: String, job_name: String },
}

/// A validation error as specifications see it.
pub enum ConfigParseErrorView {
    ArgoCdParentMismatch { name: Seq<char>, first_parent: Seq<char>, second_parent: Seq<char> },
    ArgoCdHasMultipleCharts { name: Seq<char> },
    McproxyNameMissing,
    McserverNameIncludesSlash { name: Seq<char> },
    RequiredToStartCannotBeSetForMcproxy,
    McproxyRequiresNoServerToStart,
    JobNameIncludesSlash { chart_name: Seq<char>, job_name: Seq<char> },
}

impl View for ConfigParseError {
    type V = ConfigParseErrorView;

    open spec fn view(&self) -> ConfigParseErrorView {
        match self {
            ConfigParseError::ArgoCdParentMismatch { name, first_parent, second_parent } => {
                ConfigParseErrorView::ArgoCdParentMismatch {
                    name: name@,
                    first_parent: first_parent@,
                    second_parent: second_parent@,
                }
            },
            ConfigParseError::ArgoCdHasMultipleCharts { name } => {
                ConfigParseErrorView::ArgoCdHasMultipleCharts { name: name@ }
            },
            ConfigParseError::McproxyNameMissing => ConfigParseErrorView::McproxyNameMissing,
            ConfigParseError::McserverNameIncludesSlash { name } => {
                ConfigParseErrorView::McserverNameIncludesSlash { name: name@ }
            },
            ConfigParseError::RequiredToStartCannotBeSetForMcproxy => {
                ConfigParseErrorView::RequiredToStartCannotBeSetForMcproxy
            },
            ConfigParseError::McproxyRequiresNoServerToStart => {
                ConfigParseErrorView::McproxyRequiresNoServerToStart
            },
            ConfigParseError::JobNameIncludesSlash { chart_name, job_name } => {
                ConfigParseErrorView::JobNameIncludesSlash {
                    chart_name: chart_name@,
                    job_name: job_name@,
                }
            },
        }
    }
}

/// A chart as it is read, as specifications see it.
pub struct RawMinecraftChartView {
    pub name: Option<Seq<char>>,
    pub argocd: Seq<char>,
    pub rcon_container: Seq<char>,
    pub jobs_after_snapshot: Seq<(Seq<char>, CustomJobView)>,
    pub required_to_start: Option<bool>,
}

impl View for RawMinecraftChart {
    type V = RawMinecraftChartView;

    open spec fn view(&self) -> RawMinecraftChartView {
        RawMinecraftChartView {
            name: match self.name {
                Some(name) => Some(name@),
                None => None,
            },
            argocd: self.argocd@,
            rcon_container: self.rcon_container@,
            jobs_after_snapshot: jobs_view(self.jobs_after_snapshot@),
            required_to_start: self.required_to_start,
        }
    }
}

/// The game servers as they are read, as specifications see them.
pub open spec fn raw_servers_view(servers: Seq<(String, RawMinecraftChart)>) -> Seq<
    (Seq<char>, RawMinecraftChartView),
> {
    Seq::new(servers.len(), |i: int| (servers[i].0@, servers[i].1@))
}

/// The configuration as it is read, as specifications see it.
pub struct RawConfigView {
    pub namespace: Seq<char>,
    pub mcproxy: RawMinecraftChartView,
    pub mcservers: Seq<(Seq<char>, RawMinecraftChartView)>,
}

impl View for RawConfig {
    type V = RawConfigView;

    open spec fn view(&self) -> RawConfigView {
        RawConfigView {
            namespace: self.namespace@,
            mcproxy: self.mcproxy@,
            mcservers: raw_servers_view(self.mcservers@),
        }
    }
}

/// The names of a chart's jobs, in order.
pub open spec fn job_names(jobs: Seq<(Seq<char>, CustomJobView)>) -> Seq<Seq<char>> {
    Seq::new(jobs.len(), |i: int| jobs[i].0)
}

/// What checking the jobs of the chart `chart_name` gives: nothing to object to, or the
/// first job whose name holds a `/`.
pub open spec fn checked_jobs(
    jobs: Seq<(Seq<char>, CustomJobView)>,
    chart_name: Seq<char>,
) -> Option<ConfigParseErrorView> {
    let first = first_slashed(job_names(jobs));
    if first < jobs.len() {
        Some(
            ConfigParseErrorView::JobNameIncludesSlash { chart_name, job_name: jobs[first].0 },
        )
    } else {
        None
    }
}

/// Checks the names of a chart's jobs and hands the jobs on.
///
/// The jobs come back unchanged unless the name of one holds a `/`; the error then names
/// the chart and the first such job.
pub fn build_jobs_after_snapshot(raw_jobs: Vec<(String, CustomJob)>, chart_name: &str) -> (built:
    Result<Vec<(String, CustomJob)>, ConfigParseError>)
    ensures
        match built {
            Ok(jobs) => checked_jobs(jobs_view(raw_jobs@), chart_name@) is None && jobs
                == raw_jobs,
            Err(error) => checked_jobs(jobs_view(raw_jobs@), chart_name@) == Some(error@),
        },
{
    let ghost jobs_v = jobs_view(raw_jobs@);
    let mut i: usize = 0;
    while i < raw_jobs.len()
        invariant
            jobs_v == jobs_view(raw_jobs@),
            i <= raw_jobs.len(),
            forall|k: int| 0 <= k < i ==> !(#[trigger] job_names(jobs_v)[k]).contains(slash()),
        decreases raw_jobs.len() - i,
    {
        assert(job_names(jobs_v)[i as int] == raw_jobs@[i as int].0@);
        if contains_slash(raw_jobs[i].0.as_str()) {
            proof {
                lemma_first_slashed_is(job_names(jobs_v), i as int);
            }
            return Err(
                ConfigParseError::JobNameIncludesSlash {
                    chart_name: String::from_str(chart_name),
                    job_name: raw_jobs[i].0.clone(),
                },
            );
        }
        i += 1;
    }
    proof {
        lemma_first_slashed_is(job_names(jobs_v), raw_jobs.len() as int);
    }
    Ok(raw_jobs)
}


/// What a validation error says to people.
pub open spec fn parse_error_message(error: ConfigParseErrorView) -> Seq<char> {
    match error {
        ConfigParseErrorView::ArgoCdParentMismatch { name, first_parent, second_parent } => {
            "Parent mismatch for ArgoCD app '"@ + name + "': first defined parent '"@
                + first_parent + "', but afterwards defined parent '"@ + second_parent + "'"@
        },
        ConfigParseErrorView::ArgoCdHasMultipleCharts { name } => {
            "ArgoCD app '"@ + name + "' has multiple minecraft charts assigned"@
        },
        ConfigParseErrorView::McproxyNameMissing => "mcproxy must have a name defined"@,
        ConfigParseErrorView::McserverNameIncludesSlash { name } => {
            "mcserver key '"@ + name + "' must not contain '/' characters"@
        },
        ConfigParseErrorView::RequiredToStartCannotBeSetForMcproxy => {
            "The 'required_to_start' field cannot be set for mcproxy"@
        },
        ConfigParseErrorView::McproxyRequiresNoServerToStart => {
            "Not all 'required_to_start' values for all mcservers should be false."@
        },
        ConfigParseErrorView::JobNameIncludesSlash { chart_name, job_name } => {
            "Job name '"@ + job_name + "' in chart '"@ + chart_name
                + "' must not contain '/' characters"@
        },
    }
}

impl ConfigParseError {
    /// What the error says to people.
    pub fn message(&self) -> (text: String)
        ensures
            text@ == parse_error_message(self@),
    {
        match self {
            ConfigParseError::ArgoCdParentMismatch { name, first_parent, second_parent } => {
                let mut text = String::from_str("Parent mismatch for ArgoCD app '");
                text.append(name.as_str());
                text.append("': first defined parent '");
                text.append(first_parent.as_str());
                text.append("', but afterwards defined parent '");
                text.append(second_parent.as_str());
                text.append("'");
                text
            },
            ConfigParseError::ArgoCdHasMultipleCharts { name } => {
                let mut text = String::from_str("ArgoCD app '");
                text.append(name.as_str());
                text.append("' has multiple minecraft charts assigned");
                text
            },
            ConfigParseError::McproxyNameMissing => String::from_str(
                "mcproxy must have a name defined",
            ),
            ConfigParseError::McserverNameIncludesSlash { name } => {
                let mut text = String::from_str("mcserver key '");
                text.append(name.as_str());
                text.append("' must not contain '/' characters");
                text
            },
            ConfigParseError::RequiredToStartCannotBeSetForMcproxy => String::from_str(
                "The 'required_to_start' field cannot be set for mcproxy",
            ),
            ConfigParseError::McproxyRequiresNoServerToStart => String::from_str(
                "Not all 'required_to_start' values for all mcservers should be false.",
            ),
            ConfigParseError::JobNameIncludesSlash { chart_name, job_name } => {
                let mut text = String::from_str("Job name '");
                text.append(job_name.as_str());
                text.append("' in chart '");
                text.append(chart_name.as_str());
                text.append("' must not contain '/' characters");
                text
            },
        }
    }
}

} // verus!
