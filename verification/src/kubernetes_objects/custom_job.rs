//! A job that a server chart runs after its volumes were snapshotted.

use crate::config::polling::PollingConfig;
use k8s_openapi::api::batch::v1::Job;
use vstd::prelude::*;

verus! {

/// The Kubernetes Job manifest of `k8s_openapi`. The routine only carries it from the
/// configuration to the call that creates the Job and never looks inside.
#[verifier::external_type_specification]
#[verifier::external_body]
pub struct ExJob(Job);

/// One configured job of a server chart.
#[derive(Debug)]
pub struct CustomJob {
    /// Names of the jobs of the same chart that must complete before this one starts.
    pub dependencies: Vec<String>,
    /// The manifest to create.
    pub manifest: Job,
    /// Whether the routine stops when this job does not succeed.
    pub required: bool,
    /// How to wait for the job to complete.
    pub completion_polling: PollingConfig,
}

/// A configured job as specifications see it.
pub struct CustomJobView {
    pub dependencies: Seq<Seq<char>>,
    pub manifest: Job,
    pub required: bool,
    pub completion_polling: PollingConfig,
}

impl View for CustomJob {
    type V = CustomJobView;

    open spec fn view(&self) -> CustomJobView {
        CustomJobView {
            dependencies: self.dependencies.deep_view(),
            manifest: self.manifest,
            required: self.required,
            completion_polling: self.completion_polling,
        }
    }
}

/// A chart's jobs as specifications see them: each name with its job, in order.
pub open spec fn jobs_view(jobs: Seq<(String, CustomJob)>) -> Seq<(Seq<char>, CustomJobView)> {
    Seq::new(jobs.len(), |i: int| (jobs[i].0@, jobs[i].1@))
}

} // verus!
