//! Waiting for a Job to finish.

use crate::config::polling::{PollingConfig, NANOS_PER_SEC};
use crate::kubernetes_objects::polling::{Outcome, PollStep, Polling, WaitStep};
use vstd::prelude::*;

verus! {

/// The part of a Job's status that the routine reads.
#[derive(Clone, Copy, Debug, PartialEq, Eq)]
pub struct JobStatus {
    /// Pods of the Job that are still running.
    pub active: Option<i32>,
    /// Pods of the Job that failed.
    pub failed: Option<i32>,
}

/// Why a wait for a Job ended without success.
#[derive(Debug, PartialEq, Eq)]
pub enum WaitJobFinishedError {
    /// Too many readings failed; the last failure's message.
    KubeClient(String),
    /// A reading came back without a status.
    JobHasNoStatus,
    /// The Job was still active when the time was up; the whole seconds waited.
    JobCompletionCheckTimeout(u64),
}

impl JobStatus {
    /// Whether no pod of the Job is active, an absent count standing for zero.
    pub open spec fn is_finished(self) -> bool {
        match self.active {
            Some(n) => n == 0,
            None => true,
        }
    }

    /// Whether a pod of the Job failed. An absent count is no failure.
    pub open spec fn has_failure(self) -> bool {
        match self.failed {
            Some(n) => n != 0,
            None => false,
        }
    }

    /// Exec form of [`JobStatus::has_failure`].
    pub fn check_has_failure(&self) -> (failed: bool)
        ensures
            failed == self.has_failure(),
    {
        match self.failed {
            Some(n) => n != 0,
            None => false,
        }
    }
}

/// What a reading of the Job's status means to the wait: done with the status when nothing
/// is active any more, not yet otherwise. A reading without a status has no place in the
/// loop and is `None`.
pub open spec fn finished_outcome(observed: Result<Option<JobStatus>, String>) -> Option<
    Outcome<JobStatus>,
> {
    match observed {
        Err(message) => Some(Outcome::TransientError(message)),
        Ok(None) => None,
        Ok(Some(status)) => if status.is_finished() {
            Some(Outcome::Done(status))
        } else {
            Some(Outcome::NotYet)
        },
    }
}

/// One round of the wait for a Job to finish, given the reading of its status that
/// followed the last sleep.
///
/// The wait succeeds with the first status that shows no active pod. A reading without a
/// status ends it at once; a reading that fails counts against the error budget; an active
/// Job costs one poll interval until `max_wait` is used up.
pub fn wait_until_job_finished(
    polling: &mut Polling,
    config: &PollingConfig,
    observed: Result<Option<JobStatus>, String>,
) -> (step: WaitStep<JobStatus, WaitJobFinishedError>)
    requires
        old(polling).can_wait(*config),
    ensures
        old(polling).within(*config) ==> final(polling).within(*config),
        match finished_outcome(observed) {
            None => {
                &&& step == WaitStep::<JobStatus, WaitJobFinishedError>::Finished(
                    Err(WaitJobFinishedError::JobHasNoStatus),
                )
                &&& *final(polling) == *old(polling)
            },
            Some(Outcome::Done(status)) => {
                &&& step == WaitStep::<JobStatus, WaitJobFinishedError>::Finished(Ok(status))
                &&& *final(polling) == *old(polling)
            },
            Some(Outcome::TransientError(message)) => if old(polling).out_of_errors(*config) {
                &&& step == WaitStep::<JobStatus, WaitJobFinishedError>::Finished(
                    Err(WaitJobFinishedError::KubeClient(message)),
                )
                &&& *final(polling) == *old(polling)
            } else {
                &&& step == WaitStep::<JobStatus, WaitJobFinishedError>::Sleep(config.error_wait)
                &&& final(polling).elapsed@ == old(polling).elapsed@ + config.error_wait@
                &&& final(polling).errors == old(polling).errors + 1
            },
            Some(_) => if old(polling).out_of_time(*config) {
                &&& step == WaitStep::<JobStatus, WaitJobFinishedError>::Finished(
                    Err(
                        WaitJobFinishedError::JobCompletionCheckTimeout(
                            (old(polling).elapsed@ / (NANOS_PER_SEC as nat)) as u64,
                        ),
                    ),
                )
                &&& *final(polling) == *old(polling)
            } else {
                &&& step == WaitStep::<JobStatus, WaitJobFinishedError>::Sleep(
                    config.poll_interval,
                )
                &&& final(polling).elapsed@ == old(polling).elapsed@ + config.poll_interval@
                &&& final(polling).errors == old(polling).errors
            },
        },
{
    let outcome = match observed {
        Err(message) => Outcome::TransientError(message),
        Ok(None) => {
            return WaitStep::Finished(Err(WaitJobFinishedError::JobHasNoStatus));
        },
        Ok(Some(status)) => {
            let active = match status.active {
                Some(n) => n,
                None => 0,
            };
            if active == 0 {
                Outcome::Done(status)
            } else {
                Outcome::NotYet
            }
        },
    };
    match polling.observe(config, outcome) {
        PollStep::Sleep(span) => WaitStep::Sleep(span),
        PollStep::Done(status) => WaitStep::Finished(Ok(status)),
        PollStep::TimedOut(secs) => WaitStep::Finished(
            Err(WaitJobFinishedError::JobCompletionCheckTimeout(secs)),
        ),
        PollStep::ClientError(message) => WaitStep::Finished(
            Err(WaitJobFinishedError::KubeClient(message)),
        ),
    }
}

} // verus!
