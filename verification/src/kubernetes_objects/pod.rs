//! Waiting for a pod to be gone.

use crate::config::polling::{PollingConfig, NANOS_PER_SEC};
use crate::kubernetes_objects::polling::{Outcome, PollStep, Polling, WaitStep};
use vstd::prelude::*;

verus! {

/// Why a wait for a pod to terminate ended without success.
#[derive(Debug, PartialEq, Eq)]
pub enum WaitPodStoppedError {
    /// Too many lookups failed; the last failure's message.
    KubeClient(String),
    /// The pod was still there when the time was up; the whole seconds waited.
    PodShutdownCheckTimeout(u64),
}

/// What a lookup of the pod means to the wait: done when the pod is missing, not yet while
/// it is found.
pub open spec fn stopped_outcome(probe: Outcome<()>) -> Outcome<()> {
    match probe {
        Outcome::Done(_) => Outcome::NotYet,
        Outcome::NotYet => Outcome::NotYet,
        Outcome::Missing => Outcome::Done(()),
        Outcome::TransientError(message) => Outcome::TransientError(message),
    }
}

/// One round of the wait for a pod to terminate, given the lookup that followed the last
/// sleep: `Done` for a pod that was found, `Missing` for one that was not.
///
/// The wait succeeds as soon as the pod is missing. A pod that is still there costs one
/// poll interval until `max_wait` is used up; a lookup that fails counts against the error
/// budget.
pub fn wait_until_pod_stopped(
    polling: &mut Polling,
    config: &PollingConfig,
    probe: Outcome<()>,
) -> (step: WaitStep<(), WaitPodStoppedError>)
    requires
        old(polling).can_wait(*config),
    ensures
        old(polling).within(*config) ==> final(polling).within(*config),
        match stopped_outcome(probe) {
            Outcome::Done(_) => {
                &&& step == WaitStep::<(), WaitPodStoppedError>::Finished(Ok(()))
                &&& *final(polling) == *old(polling)
            },
            Outcome::TransientError(message) => if old(polling).out_of_errors(*config) {
                &&& step == WaitStep::<(), WaitPodStoppedError>::Finished(
                    Err(WaitPodStoppedError::KubeClient(message)),
                )
                &&& *final(polling) == *old(polling)
            } else {
                &&& step == WaitStep::<(), WaitPodStoppedError>::Sleep(config.error_wait)
                &&& final(polling).elapsed@ == old(polling).elapsed@ + config.error_wait@
                &&& final(polling).errors == old(polling).errors + 1
            },
            _ => if old(polling).out_of_time(*config) {
                &&& step == WaitStep::<(), WaitPodStoppedError>::Finished(
                    Err(
                        WaitPodStoppedError::PodShutdownCheckTimeout(
                            (old(polling).elapsed@ / (NANOS_PER_SEC as nat)) as u64,
                        ),
                    ),
                )
                &&& *final(polling) == *old(polling)
            } else {
                &&& step == WaitStep::<(), WaitPodStoppedError>::Sleep(config.poll_interval)
                &&& final(polling).elapsed@ == old(polling).elapsed@ + config.poll_interval@
                &&& final(polling).errors == old(polling).errors
            },
        },
{
    let outcome = match probe {
        Outcome::Done(_) => Outcome::NotYet,
        Outcome::NotYet => Outcome::NotYet,
        Outcome::Missing => Outcome::Done(()),
        Outcome::TransientError(message) => Outcome::TransientError(message),
    };
    match polling.observe(config, outcome) {
        PollStep::Sleep(span) => WaitStep::Sleep(span),
        PollStep::Done(_) => WaitStep::Finished(Ok(())),
        PollStep::TimedOut(secs) => WaitStep::Finished(
            Err(WaitPodStoppedError::PodShutdownCheckTimeout(secs)),
        ),
        PollStep::ClientError(message) => WaitStep::Finished(
            Err(WaitPodStoppedError::KubeClient(message)),
        ),
    }
}

} // verus!
