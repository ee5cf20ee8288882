//! The task that suspends the applications of all charts before anything is shut down.

use crate::config::polling::{Duration, NANOS_PER_SEC};
use crate::kubernetes_objects::minecraft_chart::MinecraftChartError;
use crate::routine::daily::error::DailyRoutineError;
use vstd::prelude::*;

verus! {

/// How many game servers are torn down at the same time.
pub const TEARDOWN_FAN_OUT: usize = 10;

/// How far the teardown task has come.
#[derive(Clone, Copy, Debug, PartialEq, Eq, Structural)]
pub enum TeardownStage {
    /// Not started.
    Created,
    /// The proxy's chart is being torn down.
    Proxy,
    /// The charts of the game servers are being torn down.
    Servers,
    /// Sleeping while the suspension settles.
    Soaking,
    /// Over.
    Finished,
}

/// What happened since the last step of the teardown task.
#[derive(Debug, PartialEq, Eq)]
pub enum TeardownEvent {
    /// The task was started.
    Started,
    /// The teardown asked for is over: all of it went through, or this was the first
    /// error.
    TornDown(Result<(), MinecraftChartError>),
    /// The sleep is over.
    Slept,
}

/// What the teardown task asks for next.
#[derive(Debug, PartialEq, Eq)]
pub enum TeardownAction {
    /// Tear the chart of the proxy down.
    TeardownProxy,
    /// Tear the charts of all game servers down, at most `fan_out` at a time, and stop at
    /// the first that fails.
    TeardownServers { fan_out: usize },
    /// Sleep for this long.
    Sleep(Duration),
    /// The task is over, with this result.
    Finished(Result<(), DailyRoutineError>),
}

/// Whether the event is the one that the teardown task waits for at `stage`.
pub open spec fn teardown_expects(stage: TeardownStage, event: TeardownEvent) -> bool {
    match stage {
        TeardownStage::Created => event is Started,
        TeardownStage::Proxy | TeardownStage::Servers => event is TornDown,
        TeardownStage::Soaking => event is Slept,
        TeardownStage::Finished => false,
    }
}

/// Exec form of [`teardown_expects`].
pub fn check_teardown_expects(stage: TeardownStage, event: &TeardownEvent) -> (fits: bool)
    ensures
        fits == teardown_expects(stage, *event),
{
    match stage {
        TeardownStage::Created => match event {
            TeardownEvent::Started => true,
            _ => false,
        },
        TeardownStage::Proxy | TeardownStage::Servers => match event {
            TeardownEvent::TornDown(_) => true,
            _ => false,
        },
        TeardownStage::Soaking => match event {
            TeardownEvent::Slept => true,
            _ => false,
        },
        TeardownStage::Finished => false,
    }
}

/// One step of the teardown task: from the stage it is at and what happened to the stage
/// it comes to and what it asks for.
///
/// The proxy's chart is torn down first, then those of all game servers; a teardown that
/// fails ends the task with its error. After the last teardown the task sleeps 10 seconds
/// and ends with success.
pub fn phase_argocd_teardown(stage: TeardownStage, event: TeardownEvent) -> (next: (
    TeardownStage,
    TeardownAction,
))
    requires
        teardown_expects(stage, event),
    ensures
        next.1 is Finished <==> next.0 == TeardownStage::Finished,
        match stage {
            TeardownStage::Created => next == (TeardownStage::Proxy, TeardownAction::TeardownProxy),
            TeardownStage::Proxy => match event {
                TeardownEvent::TornDown(Err(error)) => next == (
                    TeardownStage::Finished,
                    TeardownAction::Finished(Err(DailyRoutineError::MinecraftChart(error))),
                ),
                _ => next == (
                    TeardownStage::Servers,
                    TeardownAction::TeardownServers { fan_out: TEARDOWN_FAN_OUT },
                ),
            },
            TeardownStage::Servers => match event {
                TeardownEvent::TornDown(Err(error)) => next == (
                    TeardownStage::Finished,
                    TeardownAction::Finished(Err(DailyRoutineError::MinecraftChart(error))),
                ),
                _ => {
                    &&& next.0 == TeardownStage::Soaking
                    &&& next.1 matches TeardownAction::Sleep(span)
                    &&& span@ == 10 * NANOS_PER_SEC as nat
                },
            },
            TeardownStage::Soaking => next == (
                TeardownStage::Finished,
                TeardownAction::Finished(Ok(())),
            ),
            TeardownStage::Finished => false,
        },
{
    match event {
        TeardownEvent::Started => (TeardownStage::Proxy, TeardownAction::TeardownProxy),
        TeardownEvent::TornDown(Err(error)) => (
            TeardownStage::Finished,
            TeardownAction::Finished(Err(DailyRoutineError::MinecraftChart(error))),
        ),
        TeardownEvent::TornDown(Ok(_)) => match stage {
            TeardownStage::Proxy => (
                TeardownStage::Servers,
                TeardownAction::TeardownServers { fan_out: TEARDOWN_FAN_OUT },
            ),
            _ => (TeardownStage::Soaking, TeardownAction::Sleep(Duration::from_secs(10))),
        },
        TeardownEvent::Slept => (TeardownStage::Finished, TeardownAction::Finished(Ok(()))),
    }
}

} // verus!
