//! Scaling a StatefulSet and waiting until it has the replicas asked for.

use crate::config::polling::{PollingConfig, NANOS_PER_SEC};
use crate::kubernetes_objects::polling::{Outcome, PollStep, Polling, WaitStep};
use vstd::prelude::*;

verus! {

/// The part of a StatefulSet's status that the routine reads.
#[derive(Clone, Copy, Debug, PartialEq, Eq)]
pub struct StatefulSetStatus {
    pub current_replicas: Option<i32>,
    pub available_replicas: Option<i32>,
}

/// One reading of a StatefulSet: the replicas its spec asks for (`None` also where it has
/// no spec) and its status.
#[derive(Clone, Copy, Debug, PartialEq, Eq)]
pub struct StatefulSet {
    pub replicas: Option<i32>,
    pub status: Option<StatefulSetStatus>,
}

/// Why a wait for a StatefulSet to scale ended without success.
#[derive(Debug, PartialEq, Eq)]
pub enum WaitStatefulSetScaleError {
    /// Too many readings failed; the last failure's message.
    KubeClient(String),
    /// A reading came back without a status.
    StatefulSetHasNoStatus,
    /// The replicas were not reached in time; the whole seconds waited.
    StatefulSetScaledCheckTimeout(u64),
}

/// Why scaling a StatefulSet failed.
#[derive(Debug, PartialEq, Eq)]
pub enum StatefulSetScaleError {
    /// Reading or patching the StatefulSet failed.
    KubeClient(String),
    /// Running a command in one of its pods failed.
    Exec(String),
    /// The StatefulSet's spec names no replicas.
    StatefulSetHasNoReplicas,
    /// The StatefulSet of this name did not reach the replicas asked for.
    StatefulSetNotScaled(String, WaitStatefulSetScaleError),
}

/// What to do about a StatefulSet's replicas after reading it.
#[derive(Debug, PartialEq, Eq)]
pub enum ScaleStep {
    /// Merge-patch `spec.replicas` to this number, then report how the patch went to
    /// [`scale_statefulset_patched`].
    Patch(i32),
    /// Nothing to send: `Ok(false)` where the replicas are already as asked, or the error.
    Finished(Result<bool, StatefulSetScaleError>),
}

impl StatefulSetStatus {
    /// Whether both the current and the available replicas equal `target_replicas`, an
    /// absent count standing for zero.
    pub open spec fn is_scaled_to(self, target_replicas: i32) -> bool {
        &&& replicas_or_zero(self.current_replicas) == target_replicas
        &&& replicas_or_zero(self.available_replicas) == target_replicas
    }
}

/// The count that a status field reports, zero where it is absent.
pub open spec fn replicas_or_zero(count: Option<i32>) -> i32 {
    match count {
        Some(n) => n,
        None => 0,
    }
}

/// Decides from a reading of the StatefulSet whether its replicas must be patched to
/// `target_replicas`.
///
/// A failed reading is an error, and so is a spec without replicas. Replicas that already
/// equal the target need no patch: the result is `Ok(false)`.
pub fn scale_statefulset_to_zero(
    observed: Result<StatefulSet, String>,
    target_replicas: i32,
) -> (step: ScaleStep)
    ensures
        step == match observed {
            Err(message) => ScaleStep::Finished(Err(StatefulSetScaleError::KubeClient(message))),
            Ok(sts) => match sts.replicas {
                None => ScaleStep::Finished(Err(StatefulSetScaleError::StatefulSetHasNoReplicas)),
                Some(current) => if current == target_replicas {
                    ScaleStep::Finished(Ok(false))
                } else {
                    ScaleStep::Patch(target_replicas)
                },
            },
        },
{
    match observed {
        Err(message) => ScaleStep::Finished(Err(StatefulSetScaleError::KubeClient(message))),
        Ok(sts) => match sts.replicas {
            None => ScaleStep::Finished(Err(StatefulSetScaleError::StatefulSetHasNoReplicas)),
            Some(current) => {
                if current == target_replicas {
                    ScaleStep::Finished(Ok(false))
                } else {
                    ScaleStep::Patch(target_replicas)
                }
            },
        },
    }
}

/// The result of scaling once the patch was sent: `Ok(true)` if it went through, else the
/// client's error.
pub fn scale_statefulset_patched(patched: Result<(), String>) -> (result: Result<
    bool,
    StatefulSetScaleError,
>)
    ensures
        result == match patched {
            Ok(_) => Ok::<bool, StatefulSetScaleError>(true),
            Err(message) => Err(StatefulSetScaleError::KubeClient(message)),
        },
{
    match patched {
        Ok(_) => Ok(true),
        Err(message) => Err(StatefulSetScaleError::KubeClient(message)),
    }
}

/// What a reading of the StatefulSet means to the wait: done with its status when that
/// status shows `target_replicas`, not yet when it shows anything else. A reading without a
/// status has no place in the loop and is `None`.
pub open spec fn scaled_outcome(
    observed: Result<StatefulSet, String>,
    target_replicas: i32,
) -> Option<Outcome<StatefulSetStatus>> {
    match observed {
        Err(message) => Some(Outcome::TransientError(message)),
        Ok(sts) => match sts.status {
            None => None,
            Some(status) => if status.is_scaled_to(target_replicas) {
                Some(Outcome::Done(status))
            } else {
                Some(Outcome::NotYet)
            },
        },
    }
}

/// One round of the wait for a StatefulSet to show `target_replicas`, given the reading
/// that followed the last sleep.
///
/// The wait succeeds with the status that shows the target. A reading without a status
/// ends it at once; a reading that fails counts against the error budget; any other costs
/// one poll interval until `max_wait` is used up.
pub fn wait_until_statefulset_scaled(
    polling: &mut Polling,
    config: &PollingConfig,
    target_replicas: i32,
    observed: Result<StatefulSet, String>,
) -> (step: WaitStep<StatefulSetStatus, WaitStatefulSetScaleError>)
    requires
        old(polling).can_wait(*config),
    ensures
        old(polling).within(*config) ==> final(polling).within(*config),
        match scaled_outcome(observed, target_replicas) {
            None => {
                &&& step == WaitStep::<StatefulSetStatus, WaitStatefulSetScaleError>::Finished(
                    Err(WaitStatefulSetScaleError::StatefulSetHasNoStatus),
                )
                &&& *final(polling) == *old(polling)
            },
            Some(Outcome::Done(status)) => {
                &&& step == WaitStep::<StatefulSetStatus, WaitStatefulSetScaleError>::Finished(
                    Ok(status),
                )
                &&& *final(polling) == *old(polling)
            },
            Some(Outcome::TransientError(message)) => if old(polling).out_of_errors(*config) {
                &&& step == WaitStep::<StatefulSetStatus, WaitStatefulSetScaleError>::Finished(
                    Err(WaitStatefulSetScaleError::KubeClient(message)),
                )
                &&& *final(polling) == *old(polling)
            } else {
                &&& step == WaitStep::<StatefulSetStatus, WaitStatefulSetScaleError>::Sleep(
                    config.error_wait,
                )
                &&& final(polling).elapsed@ == old(polling).elapsed@ + config.error_wait@
                &&& final(polling).errors == old(polling).errors + 1
            },
            Some(_) => if old(polling).out_of_time(*config) {
                &&& step == WaitStep::<StatefulSetStatus, WaitStatefulSetScaleError>::Finished(
                    Err(
                        WaitStatefulSetScaleError::StatefulSetScaledCheckTimeout(
                            (old(polling).elapsed@ / (NANOS_PER_SEC as nat)) as u64,
                        ),
                    ),
                )
                &&& *final(polling) == *old(polling)
            } else {
                &&& step == WaitStep::<StatefulSetStatus, WaitStatefulSetScaleError>::Sleep(
                    config.poll_interval,
                )
                &&& final(polling).elapsed@ == old(polling).elapsed@ + config.poll_interval@
                &&& final(polling).errors == old(polling).errors
            },
        },
{
    let outcome = match observed {
        Err(message) => Outcome::TransientError(message),
        Ok(sts) => match sts.status {
            None => {
                return WaitStep::Finished(Err(WaitStatefulSetScaleError::StatefulSetHasNoStatus));
            },
            Some(status) => {
                let current = match status.current_replicas {
                    Some(n) => n,
                    None => 0,
                };
                let available = match status.available_replicas {
                    Some(n) => n,
                    None => 0,
                };
                if current == target_replicas && available == target_replicas {
                    Outcome::Done(status)
                } else {
                    Outcome::NotYet
                }
            },
        },
    };
    match polling.observe(config, outcome) {
        PollStep::Sleep(span) => WaitStep::Sleep(span),
        PollStep::Done(status) => WaitStep::Finished(Ok(status)),
        PollStep::TimedOut(secs) => WaitStep::Finished(
            Err(WaitStatefulSetScaleError::StatefulSetScaledCheckTimeout(secs)),
        ),
        PollStep::ClientError(message) => WaitStep::Finished(
            Err(WaitStatefulSetScaleError::KubeClient(message)),
        ),
    }
}

} // verus!
