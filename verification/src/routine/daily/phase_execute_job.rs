//! The task that runs one job of a game server after its volumes were snapshotted.

use crate::config::polling::{Duration, PollingConfig, NANOS_PER_SEC};
use crate::config::Config;
use crate::kubernetes_objects::job::{
    finished_outcome, wait_until_job_finished, JobStatus, WaitJobFinishedError,
};
use crate::kubernetes_objects::polling::{
    fits, lemma_fitting_loop_can_wait, Outcome, Polling, WaitStep,
};
use crate::routine::daily::error::DailyRoutineError;
use vstd::prelude::*;
use vstd::string::StringExecFns;

verus! {

/// How far a job task has come.
#[derive(Clone, Copy, Debug, PartialEq, Eq, Structural)]
pub enum JobStage {
    /// Not started.
    Created,
    /// The Job was sent to be created.
    Creating,
    /// Sleeping before the Job is looked at again.
    Sleeping,
    /// The Job's status was asked for.
    Probing,
    /// Over.
    Finished,
}

/// What happened since the last step of a job task.
#[derive(Debug, PartialEq, Eq)]
pub enum JobEvent {
    /// The task was started.
    Started,
    /// The Job was created, under this name if the cluster gave it one; or it could not be.
    JobCreated(Result<Option<String>, String>),
    /// The status of the Job was read, if it has one; or the Job could not be read.
    JobRead(Result<Option<JobStatus>, String>),
    /// The sleep is over.
    Slept,
}

/// What a job task asks for next.
#[derive(Debug, PartialEq, Eq)]
pub enum JobAction {
    /// Create the Job from the manifest of this job of this game server.
    Create { server: usize, job: usize },
    /// Read the Job of this name.
    Read { name: String },
    /// Sleep for this long.
    Sleep(Duration),
    /// The task is over, with this result.
    Finished(Result<(), DailyRoutineError>),
}

/// A job task and how far it has come.
#[derive(Debug)]
pub struct JobTask {
    /// The position of the game server in the configuration.
    pub server: usize,
    /// The position of the job among the jobs of the server.
    pub job: usize,
    /// Whether the routine stops when the job does not succeed.
    pub required: bool,
    /// How the task waits for the Job.
    pub config: PollingConfig,
    /// The name under which the Job was created.
    pub created_name: String,
    pub stage: JobStage,
    /// The bookkeeping of the wait.
    pub polling: Polling,
}

/// What a job task ends with: the result itself, but success in place of an error where
/// the job is not required.
pub open spec fn settled(required: bool, result: Result<(), DailyRoutineError>) -> Result<
    (),
    DailyRoutineError,
> {
    if result is Err && !required {
        Ok(())
    } else {
        result
    }
}

/// The name by which a created Job is read: the one the cluster gave it, or `<unknown>`.
pub open spec fn created_name(given: Option<String>) -> Seq<char> {
    match given {
        Some(name) => name@,
        None => "<unknown>"@,
    }
}

/// The task that runs job `job` of game server `server`, not started.
pub fn execute_job(config: &Config, server: usize, job: usize) -> (task: JobTask)
    requires
        server < config.mcservers@.len(),
        job < config.mcservers@[server as int].1.jobs_after_snapshot@.len(),
    ensures
        task.server == server,
        task.job == job,
        task.required == config.mcservers@[server as int].1.jobs_after_snapshot@[job as int].1.required,
        task.config
            == config.mcservers@[server as int].1.jobs_after_snapshot@[job as int].1.completion_polling,
        task.stage == JobStage::Created,
        task.wf(),
{
    let custom = &config.mcservers[server].1.jobs_after_snapshot[job].1;
    let (polling, _) = Polling::start(&custom.completion_polling);
    JobTask {
        server,
        job,
        required: custom.required,
        config: custom.completion_polling,
        created_name: String::new(),
        stage: JobStage::Created,
        polling,
    }
}

impl JobTask {
    /// Whether the event is the one that the task waits for at its stage.
    pub open spec fn expects(self, event: JobEvent) -> bool {
        match self.stage {
            JobStage::Created => event is Started,
            JobStage::Creating => event is JobCreated,
            JobStage::Sleeping => event is Slept,
            JobStage::Probing => event is JobRead,
            JobStage::Finished => false,
        }
    }

    /// The invariant of the task: while it waits, it has waited no longer than its
    /// settings allow.
    pub open spec fn wf(self) -> bool {
        self.stage == JobStage::Sleeping || self.stage == JobStage::Probing
            ==> self.polling.within(self.config)
    }

    /// A task whose settings fit can always take its next step.
    pub proof fn lemma_fitting_task_can_step(self)
        requires
            fits(self.config),
            self.wf(),
        ensures
            self.can_step(),
    {
        if self.stage == JobStage::Probing {
            lemma_fitting_loop_can_wait(self.polling, self.config);
        }
    }

    /// Whether the task can take its next step: a reading can be taken only while one
    /// more wait still fits.
    pub open spec fn can_step(self) -> bool {
        self.stage == JobStage::Probing ==> self.polling.can_wait(self.config)
    }

    /// Exec form of [`JobTask::expects`] and [`JobTask::can_step`] together.
    pub fn check_accepts(&self, event: &JobEvent) -> (fits: bool)
        ensures
            fits == (self.expects(*event) && self.can_step()),
    {
        match self.stage {
            JobStage::Created => match event {
                JobEvent::Started => true,
                _ => false,
            },
            JobStage::Creating => match event {
                JobEvent::JobCreated(_) => true,
                _ => false,
            },
            JobStage::Sleeping => match event {
                JobEvent::Slept => true,
                _ => false,
            },
            JobStage::Probing => match event {
                JobEvent::JobRead(_) => self.polling.check_can_wait(&self.config),
                _ => false,
            },
            JobStage::Finished => false,
        }
    }

    /// Ends the task with `result`, or with success where the job is not required.
    fn finish(&mut self, result: Result<(), DailyRoutineError>) -> (action: JobAction)
        ensures
            final(self).stage == JobStage::Finished,
            final(self).server == old(self).server,
            final(self).job == old(self).job,
            final(self).required == old(self).required,
            final(self).config == old(self).config,
            final(self).created_name == old(self).created_name,
            final(self).polling == old(self).polling,
            action == JobAction::Finished(settled(old(self).required, result)),
    {
        self.stage = JobStage::Finished;
        match result {
            Ok(done) => JobAction::Finished(Ok(done)),
            Err(error) => {
                if self.required {
                    JobAction::Finished(Err(error))
                } else {
                    JobAction::Finished(Ok(()))
                }
            },
        }
    }

    /// Takes what happened and says what the task asks for next.
    ///
    /// - Started, the task asks for the Job to be created.
    /// - A Job that could not be created fails the task. One that was created is waited
    ///   for, by the name it was given or else as `<unknown>`: the wait opens with its
    ///   first sleep.
    /// - After every sleep the Job is read, and [`wait_until_job_finished`] decides on the
    ///   reading. A Job that finished with failed pods fails the task, with the Job's
    ///   name and status; one that finished without fails nothing. A wait that ended
    ///   without success fails the task.
    /// - Whatever fails the task: where the job is not required, the task ends with
    ///   success all the same.
    pub fn step(&mut self, event: JobEvent) -> (action: JobAction)
        requires
            old(self).expects(event),
            old(self).can_step(),
        ensures
            old(self).wf() ==> final(self).wf(),
            final(self).server == old(self).server,
            final(self).job == old(self).job,
            final(self).required == old(self).required,
            final(self).config == old(self).config,
            old(self).stage != JobStage::Creating ==> final(self).created_name == old(
                self,
            ).created_name,
            action is Finished <==> final(self).stage == JobStage::Finished,
            match old(self).stage {
                JobStage::Created => {
                    &&& final(self).stage == JobStage::Creating
                    &&& action == (JobAction::Create { server: old(self).server, job: old(self).job })
                },
                JobStage::Creating => match event {
                    JobEvent::JobCreated(Err(message)) => action == JobAction::Finished(
                        settled(old(self).required, Err(DailyRoutineError::KubeClient(message))),
                    ),
                    JobEvent::JobCreated(Ok(given)) => {
                        &&& final(self).stage == JobStage::Sleeping
                        &&& final(self).created_name@ == created_name(given)
                        &&& final(self).polling.elapsed == old(self).config.initial_wait
                        &&& final(self).polling.errors == 0
                        &&& action == JobAction::Sleep(old(self).config.initial_wait)
                    },
                    _ => false,
                },
                JobStage::Sleeping => {
                    &&& final(self).stage == JobStage::Probing
                    &&& final(self).polling == old(self).polling
                    &&& action == (JobAction::Read { name: old(self).created_name })
                },
                JobStage::Probing => event matches JobEvent::JobRead(observed) && match finished_outcome(
                    observed,
                ) {
                    None => action == JobAction::Finished(
                        settled(
                            old(self).required,
                            Err(
                                DailyRoutineError::WaitJobFinished(
                                    old(self).created_name,
                                    WaitJobFinishedError::JobHasNoStatus,
                                ),
                            ),
                        ),
                    ),
                    Some(Outcome::Done(status)) => action == JobAction::Finished(
                        settled(
                            old(self).required,
                            if status.has_failure() {
                                Err(
                                    DailyRoutineError::CustomJobHasFailure(
                                        old(self).created_name,
                                        status,
                                    ),
                                )
                            } else {
                                Ok(())
                            },
                        ),
                    ),
                    Some(Outcome::TransientError(message)) => if old(self).polling.out_of_errors(
                        old(self).config,
                    ) {
                        action == JobAction::Finished(
                            settled(
                                old(self).required,
                                Err(
                                    DailyRoutineError::WaitJobFinished(
                                        old(self).created_name,
                                        WaitJobFinishedError::KubeClient(message),
                                    ),
                                ),
                            ),
                        )
                    } else {
                        &&& final(self).stage == JobStage::Sleeping
                        &&& action == JobAction::Sleep(old(self).config.error_wait)
                        &&& final(self).polling.errors == old(self).polling.errors + 1
                        &&& final(self).polling.elapsed@ == old(self).polling.elapsed@ + old(
                            self,
                        ).config.error_wait@
                    },
                    Some(_) => if old(self).polling.out_of_time(old(self).config) {
                        action == JobAction::Finished(
                            settled(
                                old(self).required,
                                Err(
                                    DailyRoutineError::WaitJobFinished(
                                        old(self).created_name,
                                        WaitJobFinishedError::JobCompletionCheckTimeout(
                                            (old(self).polling.elapsed@ / (
                                            NANOS_PER_SEC as nat)) as u64,
                                        ),
                                    ),
                                ),
                            ),
                        )
                    } else {
                        &&& final(self).stage == JobStage::Sleeping
                        &&& action == JobAction::Sleep(old(self).config.poll_interval)
                        &&& final(self).polling.errors == old(self).polling.errors
                        &&& final(self).polling.elapsed@ == old(self).polling.elapsed@ + old(
                            self,
                        ).config.poll_interval@
                    },
                },
                JobStage::Finished => false,
            },
    {
        match event {
            JobEvent::Started => {
                self.stage = JobStage::Creating;
                JobAction::Create { server: self.server, job: self.job }
            },
            JobEvent::JobCreated(created) => match created {
                Err(message) => self.finish(Err(DailyRoutineError::KubeClient(message))),
                Ok(given) => {
                    self.created_name = match given {
                        Some(name) => name,
                        None => String::from_str("<unknown>"),
                    };
                    let (polling, first) = Polling::start(&self.config);
                    self.polling = polling;
                    self.stage = JobStage::Sleeping;
                    JobAction::Sleep(first)
                },
            },
            JobEvent::Slept => {
                self.stage = JobStage::Probing;
                JobAction::Read { name: self.created_name.clone() }
            },
            JobEvent::JobRead(observed) => {
                let config = self.config;
                match wait_until_job_finished(&mut self.polling, &config, observed) {
                    WaitStep::Sleep(span) => {
                        self.stage = JobStage::Sleeping;
                        JobAction::Sleep(span)
                    },
                    WaitStep::Finished(Ok(status)) => {
                        if status.check_has_failure() {
                            let name = self.created_name.clone();
                            self.finish(Err(DailyRoutineError::CustomJobHasFailure(name, status)))
                        } else {
                            self.finish(Ok(()))
                        }
                    },
                    WaitStep::Finished(Err(error)) => {
                        let name = self.created_name.clone();
                        self.finish(Err(DailyRoutineError::WaitJobFinished(name, error)))
                    },
                }
            },
        }
    }
}

} // verus!
