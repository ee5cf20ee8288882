//! One server chart and the GitOps application it is bound to.

use crate::kubernetes_objects::argocd::tearing::TearingArgoCdGuard;
use crate::kubernetes_objects::argocd::ArgoCdError;
use crate::kubernetes_objects::custom_job::{jobs_view, CustomJob, CustomJobView};
use vstd::prelude::*;

verus! {

/// Why an operation on a chart failed.
#[derive(Debug, PartialEq, Eq)]
pub enum MinecraftChartError {
    ArgocdError(ArgoCdError),
}

/// One server chart: the proxy or a game server.
#[derive(Debug)]
pub struct MinecraftChart {
    /// The name of the chart's StatefulSet.
    pub name: String,
    /// The position of the chart's application in the forest.
    pub argocd: usize,
    /// The container in which the server's console runs.
    pub rcon_container: String,
    /// The jobs to run after the volumes were snapshotted, by name.
    pub jobs_after_snapshot: Vec<(String, CustomJob)>,
    /// Whether the proxy waits for this server before it is started again.
    pub required_to_start: bool,
    /// What the chart remembers of its teardown: nothing, the guard it holds, or the error
    /// with which the teardown failed.
    pub argocd_tear: Option<Result<TearingArgoCdGuard, ArgoCdError>>,
}

/// A chart as specifications see it: all of it but what it remembers of its teardown.
pub struct MinecraftChartView {
    pub name: Seq<char>,
    pub argocd: usize,
    pub rcon_container: Seq<char>,
    pub jobs_after_snapshot: Seq<(Seq<char>, CustomJobView)>,
    pub required_to_start: bool,
}

impl View for MinecraftChart {
    type V = MinecraftChartView;

    open spec fn view(&self) -> MinecraftChartView {
        MinecraftChartView {
            name: self.name@,
            argocd: self.argocd,
            rcon_container: self.rcon_container@,
            jobs_after_snapshot: jobs_view(self.jobs_after_snapshot@),
            required_to_start: self.required_to_start,
        }
    }
}

impl MinecraftChart {
    /// A chart that was not torn down.
    pub fn new(
        name: String,
        argocd: usize,
        rcon_container: String,
        jobs_after_snapshot: Vec<(String, CustomJob)>,
        required_to_start: bool,
    ) -> (chart: MinecraftChart)
        ensures
            chart.name == name,
            chart.argocd == argocd,
            chart.rcon_container == rcon_container,
            chart.jobs_after_snapshot == jobs_after_snapshot,
            chart.required_to_start == required_to_start,
            chart.argocd_tear is None,
    {
        MinecraftChart {
            name,
            argocd,
            rcon_container,
            jobs_after_snapshot,
            required_to_start,
            argocd_tear: None,
        }
    }
}


/// What a chart does when it is asked to tear its application down.
#[derive(Debug, PartialEq, Eq)]
pub enum ChartTeardown {
    /// The chart was asked before: this is how it went then.
    Cached(Result<(), MinecraftChartError>),
    /// Tear the application at this position down, then report with
    /// [`MinecraftChart::argocd_torn`].
    Tear(usize),
}

impl MinecraftChart {
    /// Whether the chart holds a guard on its application.
    pub open spec fn holds_guard(self) -> bool {
        self.argocd_tear matches Some(Ok(_))
    }

    /// Exec form of [`MinecraftChart::holds_guard`]. A chart that holds a guard must
    /// release it before it is dropped.
    pub fn check_holds_guard(&self) -> (held: bool)
        ensures
            held == self.holds_guard(),
    {
        match &self.argocd_tear {
            Some(Ok(_)) => true,
            _ => false,
        }
    }

    /// Says what is to be done to have the chart's application torn down.
    ///
    /// A chart remembers how its teardown went. One that holds a guard is done; one whose
    /// teardown failed fails again with the same error; only one that was not torn down
    /// yet asks for the teardown of its application.
    pub fn argocd_teardown(&self) -> (plan: ChartTeardown)
        ensures
            plan == match self.argocd_tear {
                Some(Ok(_)) => ChartTeardown::Cached(Ok(())),
                Some(Err(error)) => ChartTeardown::Cached(
                    Err(MinecraftChartError::ArgocdError(error)),
                ),
                None => ChartTeardown::Tear(self.argocd),
            },
    {
        match &self.argocd_tear {
            Some(Ok(_)) => ChartTeardown::Cached(Ok(())),
            Some(Err(error)) => ChartTeardown::Cached(
                Err(MinecraftChartError::ArgocdError(error.duplicate())),
            ),
            None => ChartTeardown::Tear(self.argocd),
        }
    }

    /// Records how the teardown that the chart asked for went: the guard is kept until the
    /// chart is released, an error is kept for good.
    pub fn argocd_torn(&mut self, torn: Result<TearingArgoCdGuard, ArgoCdError>) -> (result:
        Result<(), MinecraftChartError>)
        requires
            old(self).argocd_tear is None,
        ensures
            final(self)@ == old(self)@,
            final(self).argocd_tear == Some(torn),
            result == match torn {
                Ok(_) => Ok::<(), MinecraftChartError>(()),
                Err(error) => Err(MinecraftChartError::ArgocdError(error)),
            },
    {
        match torn {
            Ok(guard) => {
                self.argocd_tear = Some(Ok(guard));
                Ok(())
            },
            Err(error) => {
                self.argocd_tear = Some(Err(error.duplicate()));
                Err(MinecraftChartError::ArgocdError(error))
            },
        }
    }

    /// Hands out the guard to close if the chart holds one, and the chart forgets it. A
    /// chart that was not torn down, or whose teardown failed, has nothing to close and
    /// stays as it is.
    pub fn release(&mut self) -> (guard: Option<TearingArgoCdGuard>)
        ensures
            final(self)@ == old(self)@,
            !final(self).holds_guard(),
            match old(self).argocd_tear {
                Some(Ok(held)) => guard == Some(held) && final(self).argocd_tear is None,
                _ => guard is None && final(self).argocd_tear == old(self).argocd_tear,
            },
    {
        match self.argocd_tear.take() {
            Some(Ok(held)) => Some(held),
            other => {
                self.argocd_tear = other;
                None
            },
        }
    }
}

} // verus!
