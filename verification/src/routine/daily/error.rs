//! How a task of the daily routine, or the routine itself, fails.

use crate::kubernetes_objects::argocd::ArgoCdError;
use crate::kubernetes_objects::job::{JobStatus, WaitJobFinishedError};
use crate::kubernetes_objects::minecraft_chart::MinecraftChartError;
use crate::kubernetes_objects::statefulset::StatefulSetScaleError;
use crate::scheduler::dag_scheduler::{InvalidDagError, TaskJoinError};
use vstd::prelude::*;

verus! {

/// Why the daily routine stopped.
#[derive(Debug, PartialEq, Eq)]
pub enum DailyRoutineError {
    ArgoCd(ArgoCdError),
    MinecraftChart(MinecraftChartError),
    /// The StatefulSet of this name could not be shut down.
    ShutdownMinecraftServer(String, StatefulSetScaleError),
    /// The StatefulSet of this name could not be started again.
    RelaunchMinecraftServer(String, StatefulSetScaleError),
    /// The wait for the Job of this name ended without success.
    WaitJobFinished(String, WaitJobFinishedError),
    /// The Job of this name finished with failed pods; its last status is given.
    CustomJobHasFailure(String, JobStatus),
    /// A call to the cluster failed.
    KubeClient(String),
    /// A task ended without returning.
    TaskJoin(TaskJoinError),
    /// The tasks of the routine are no graph that can be run.
    InvalidTaskDag(InvalidDagError),
}

} // verus!
