//! The tasks that scale one StatefulSet and wait for it: shutting the proxy or a game
//! server down, and starting one again.
//!
//! Such a task reads the StatefulSet and patches its replicas unless they are as asked
//! already; a game server that is shut down is also told to stop from its console; then
//! the task waits until the StatefulSet shows the replicas asked for, and may sleep a
//! while before it ends. The task here is the plan: each step takes what the last call to
//! the cluster came to and says which call is next.

use crate::config::polling::{Duration, PollingConfig, NANOS_PER_SEC};
use crate::kubernetes_objects::polling::{Outcome, Polling, WaitStep};
use crate::kubernetes_objects::statefulset::{
    scale_statefulset_patched, scale_statefulset_to_zero, scaled_outcome,
    wait_until_statefulset_scaled, ScaleStep, StatefulSet, StatefulSetScaleError,
    WaitStatefulSetScaleError,
};
use crate::routine::daily::error::DailyRoutineError;
use crate::text::concat;
use vstd::prelude::*;

verus! {

/// Which of the scaling tasks a task is.
#[derive(Clone, Copy, Debug, PartialEq, Eq, Structural)]
pub enum ScaleKind {
    ShutdownMcproxy,
    ShutdownMcserver,
    RelaunchMcserver,
    RelaunchMcproxy,
}

/// How far a scaling task has come.
#[derive(Clone, Copy, Debug, PartialEq, Eq, Structural)]
pub enum ScaleStage {
    /// Not started.
    Created,
    /// The StatefulSet was asked for, to see whether it must be patched.
    Reading,
    /// The patch was sent.
    Patching,
    /// The console was told to stop the server.
    Stopping,
    /// Sleeping before the StatefulSet is looked at again.
    Sleeping,
    /// The StatefulSet was asked for, to see whether it has the replicas asked for.
    Probing,
    /// Sleeping after the StatefulSet has the replicas asked for.
    Soaking,
    /// Over.
    Finished,
}

/// What happened since the last step of a scaling task.
#[derive(Debug, PartialEq, Eq)]
pub enum ScaleEvent {
    /// The task was started.
    Started,
    /// The StatefulSet asked for was read, or could not be.
    Read(Result<StatefulSet, String>),
    /// The patch was sent, or could not be.
    Patched(Result<(), String>),
    /// The console command was run, or could not be: the task goes on either way.
    Executed,
    /// The sleep is over.
    Slept,
}

/// What a scaling task asks for next.
#[derive(Debug, PartialEq, Eq)]
pub enum ScaleAction {
    /// Read the StatefulSet of this name.
    Read { name: String },
    /// Merge-patch the replicas of the StatefulSet of this name.
    Patch { name: String, replicas: i32 },
    /// Run the console's stop command in this container of this pod.
    Exec { pod: String, container: String },
    /// Sleep for this long.
    Sleep(Duration),
    /// The task is over, with this result.
    Finished(Result<(), DailyRoutineError>),
}

/// A scaling task and how far it has come.
#[derive(Debug)]
pub struct ScaleTask {
    pub kind: ScaleKind,
    /// The name of the StatefulSet.
    pub name: String,
    /// The container in which the server's console runs.
    pub rcon_container: String,
    pub stage: ScaleStage,
    /// The bookkeeping of the wait.
    pub polling: Polling,
}

impl ScaleKind {
    /// The replicas that the task scales to: none to shut down, one to start again.
    pub open spec fn target_replicas(self) -> i32 {
        match self {
            ScaleKind::ShutdownMcproxy | ScaleKind::ShutdownMcserver => 0,
            ScaleKind::RelaunchMcserver | ScaleKind::RelaunchMcproxy => 1,
        }
    }

    /// Whether the task is a shutdown.
    pub open spec fn is_shutdown(self) -> bool {
        self == ScaleKind::ShutdownMcproxy || self == ScaleKind::ShutdownMcserver
    }

    /// How long the task sleeps after the StatefulSet has scaled, in seconds, if it does:
    /// 10 for the proxy, 180 for a game server that was started again.
    pub open spec fn soak_secs(self) -> Option<u64> {
        match self {
            ScaleKind::ShutdownMcproxy => Some(10),
            ScaleKind::ShutdownMcserver => None,
            ScaleKind::RelaunchMcserver => Some(180),
            ScaleKind::RelaunchMcproxy => Some(10),
        }
    }

    /// The seconds of the wait: before the first look, between two looks, and in all. A
    /// shutdown waits 60, 5 and 150; a start waits 10, 10 and 900.
    pub open spec fn wait_secs(self) -> (u64, u64, u64) {
        if self.is_shutdown() {
            (60, 5, 150)
        } else {
            (10, 10, 900)
        }
    }

    /// The failed looks that end the wait: the third for a shutdown, the fifth for a start.
    pub open spec fn wait_errors(self) -> u64 {
        if self.is_shutdown() {
            3
        } else {
            5
        }
    }

    /// Exec form of [`ScaleKind::target_replicas`].
    pub fn replicas(self) -> (replicas: i32)
        ensures
            replicas == self.target_replicas(),
    {
        match self {
            ScaleKind::ShutdownMcproxy | ScaleKind::ShutdownMcserver => 0,
            ScaleKind::RelaunchMcserver | ScaleKind::RelaunchMcproxy => 1,
        }
    }

    /// How the task waits for the StatefulSet. A failed look always costs 10 seconds.
    pub fn wait_config(self) -> (config: PollingConfig)
        ensures
            config.initial_wait@ == self.wait_secs().0 * NANOS_PER_SEC as nat,
            config.poll_interval@ == self.wait_secs().1 * NANOS_PER_SEC as nat,
            config.max_wait@ == self.wait_secs().2 * NANOS_PER_SEC as nat,
            config.error_wait@ == 10 * NANOS_PER_SEC as nat,
            config.max_errors == self.wait_errors(),
    {
        match self {
            ScaleKind::ShutdownMcproxy | ScaleKind::ShutdownMcserver => PollingConfig {
                initial_wait: Duration::from_secs(60),
                poll_interval: Duration::from_secs(5),
                max_wait: Duration::from_secs(150),
                error_wait: Duration::from_secs(10),
                max_errors: 3,
            },
            ScaleKind::RelaunchMcserver | ScaleKind::RelaunchMcproxy => PollingConfig {
                initial_wait: Duration::from_secs(10),
                poll_interval: Duration::from_secs(10),
                max_wait: Duration::from_secs(900),
                error_wait: Duration::from_secs(10),
                max_errors: 5,
            },
        }
    }
}

/// The error of a task of the given kind that could not scale the StatefulSet `name`.
pub open spec fn scale_failure(
    kind: ScaleKind,
    name: String,
    error: StatefulSetScaleError,
) -> DailyRoutineError {
    if kind.is_shutdown() {
        DailyRoutineError::ShutdownMinecraftServer(name, error)
    } else {
        DailyRoutineError::RelaunchMinecraftServer(name, error)
    }
}

/// Whether `error` is the error of a task of the given kind whose wait for the StatefulSet
/// `name` ended with `cause`: the StatefulSet was not scaled. Only the start of the proxy
/// reports it as a failure to start again; every other task reports a failure to shut
/// down.
pub open spec fn wait_failure(
    kind: ScaleKind,
    name: String,
    error: DailyRoutineError,
    cause: WaitStatefulSetScaleError,
) -> bool {
    match error {
        DailyRoutineError::ShutdownMinecraftServer(
            first,
            StatefulSetScaleError::StatefulSetNotScaled(second, inner),
        ) => kind != ScaleKind::RelaunchMcproxy && first@ == name@ && second@ == name@ && inner
            == cause,
        DailyRoutineError::RelaunchMinecraftServer(
            first,
            StatefulSetScaleError::StatefulSetNotScaled(second, inner),
        ) => kind == ScaleKind::RelaunchMcproxy && first@ == name@ && second@ == name@ && inner
            == cause,
        _ => false,
    }
}

impl ScaleTask {
    /// Whether the event is the one that the task waits for at its stage.
    pub open spec fn expects(self, event: ScaleEvent) -> bool {
        match self.stage {
            ScaleStage::Created => event is Started,
            ScaleStage::Reading | ScaleStage::Probing => event is Read,
            ScaleStage::Patching => event is Patched,
            ScaleStage::Stopping => event is Executed,
            ScaleStage::Sleeping | ScaleStage::Soaking => event is Slept,
            ScaleStage::Finished => false,
        }
    }

    /// Whether the task is at the start of its wait: in its first sleep, which counts as
    /// waited, and with no look failed.
    pub open spec fn opens_wait(self) -> bool {
        &&& self.stage == ScaleStage::Sleeping
        &&& self.polling.errors == 0
        &&& self.polling.elapsed@ == self.kind.wait_secs().0 * NANOS_PER_SEC as nat
    }

    /// The invariant of the task: while it waits, it has not waited longer than its
    /// settings allow.
    pub open spec fn wf(self) -> bool {
        self.stage == ScaleStage::Sleeping || self.stage == ScaleStage::Probing ==> {
            &&& self.polling.errors <= 5
            &&& self.polling.elapsed@ <= (1000 + 10 * self.polling.errors) * NANOS_PER_SEC as nat
        }
    }

    /// A task of the given kind for the StatefulSet `name`, not started.
    pub fn new(kind: ScaleKind, name: String, rcon_container: String) -> (task: ScaleTask)
        ensures
            task.kind == kind,
            task.name == name,
            task.rcon_container == rcon_container,
            task.stage == ScaleStage::Created,
            task.wf(),
    {
        let (polling, _) = Polling::start(&kind.wait_config());
        ScaleTask { kind, name, rcon_container, stage: ScaleStage::Created, polling }
    }

    /// Exec form of [`ScaleTask::expects`].
    pub fn check_expects(&self, event: &ScaleEvent) -> (fits: bool)
        ensures
            fits == self.expects(*event),
    {
        match self.stage {
            ScaleStage::Created => match event {
                ScaleEvent::Started => true,
                _ => false,
            },
            ScaleStage::Reading | ScaleStage::Probing => match event {
                ScaleEvent::Read(_) => true,
                _ => false,
            },
            ScaleStage::Patching => match event {
                ScaleEvent::Patched(_) => true,
                _ => false,
            },
            ScaleStage::Stopping => match event {
                ScaleEvent::Executed => true,
                _ => false,
            },
            ScaleStage::Sleeping | ScaleStage::Soaking => match event {
                ScaleEvent::Slept => true,
                _ => false,
            },
            ScaleStage::Finished => false,
        }
    }

    /// Opens the wait: the bookkeeping starts anew, and the first sleep is asked for.
    fn begin_wait(&mut self) -> (action: ScaleAction)
        ensures
            final(self).kind == old(self).kind,
            final(self).name == old(self).name,
            final(self).rcon_container == old(self).rcon_container,
            final(self).stage == ScaleStage::Sleeping,
            final(self).polling.errors == 0,
            final(self).polling.elapsed@ == old(self).kind.wait_secs().0 * NANOS_PER_SEC as nat,
            action matches ScaleAction::Sleep(span) && span@ == old(self).kind.wait_secs().0
                * NANOS_PER_SEC as nat,
            final(self).wf(),
    {
        let config = self.kind.wait_config();
        let (polling, first) = Polling::start(&config);
        self.polling = polling;
        self.stage = ScaleStage::Sleeping;
        ScaleAction::Sleep(first)
    }

    /// Ends the wait with success: the task sleeps once more if its kind says so, else it
    /// is over.
    fn end_wait(&mut self) -> (action: ScaleAction)
        ensures
            final(self).kind == old(self).kind,
            final(self).name == old(self).name,
            final(self).rcon_container == old(self).rcon_container,
            final(self).polling == old(self).polling,
            match old(self).kind.soak_secs() {
                Some(secs) => {
                    &&& final(self).stage == ScaleStage::Soaking
                    &&& action matches ScaleAction::Sleep(span)
                    &&& span@ == secs * NANOS_PER_SEC as nat
                },
                None => {
                    &&& final(self).stage == ScaleStage::Finished
                    &&& action == ScaleAction::Finished(Ok(()))
                },
            },
            final(self).wf(),
    {
        match self.kind {
            ScaleKind::ShutdownMcproxy | ScaleKind::RelaunchMcproxy => {
                self.stage = ScaleStage::Soaking;
                ScaleAction::Sleep(Duration::from_secs(10))
            },
            ScaleKind::RelaunchMcserver => {
                self.stage = ScaleStage::Soaking;
                ScaleAction::Sleep(Duration::from_secs(180))
            },
            ScaleKind::ShutdownMcserver => {
                self.stage = ScaleStage::Finished;
                ScaleAction::Finished(Ok(()))
            },
        }
    }

    /// The error of the task for a StatefulSet that could not be scaled.
    fn scale_error(&self, error: StatefulSetScaleError) -> (wrapped: DailyRoutineError)
        ensures
            wrapped == scale_failure(self.kind, self.name, error),
    {
        match self.kind {
            ScaleKind::ShutdownMcproxy | ScaleKind::ShutdownMcserver => {
                DailyRoutineError::ShutdownMinecraftServer(self.name.clone(), error)
            },
            ScaleKind::RelaunchMcserver | ScaleKind::RelaunchMcproxy => {
                DailyRoutineError::RelaunchMinecraftServer(self.name.clone(), error)
            },
        }
    }

    /// The error of the task for a wait that ended without success.
    fn wait_error(&self, error: WaitStatefulSetScaleError) -> (wrapped: DailyRoutineError)
        ensures
            wait_failure(self.kind, self.name, wrapped, error),
    {
        let inner = StatefulSetScaleError::StatefulSetNotScaled(self.name.clone(), error);
        match self.kind {
            ScaleKind::RelaunchMcproxy => DailyRoutineError::RelaunchMinecraftServer(
                self.name.clone(),
                inner,
            ),
            _ => DailyRoutineError::ShutdownMinecraftServer(self.name.clone(), inner),
        }
    }

    /// Takes what happened and says what the task asks for next.
    ///
    /// - Started, the task reads the StatefulSet.
    /// - From that reading it decides as [`scale_statefulset_to_zero`] says. An error ends
    ///   the task. Replicas that are as asked already end a shutdown with success at
    ///   once, while a start goes on to the wait. Otherwise the patch is asked for.
    /// - A patch that failed ends the task. After one that went through, the shutdown of a
    ///   game server asks for the console's stop command in the pod `{name}-0`; every other
    ///   task goes on to the wait, and so does the shutdown once the command was tried.
    /// - The wait opens with its first sleep. After every sleep the StatefulSet is read,
    ///   and [`wait_until_statefulset_scaled`] decides on the reading.
    /// - After a wait that succeeded the task sleeps once more where its kind says so,
    ///   and ends with success.
    pub fn step(&mut self, event: ScaleEvent) -> (action: ScaleAction)
        requires
            old(self).wf(),
            old(self).expects(event),
        ensures
            final(self).wf(),
            final(self).kind == old(self).kind,
            final(self).name == old(self).name,
            final(self).rcon_container == old(self).rcon_container,
            action is Finished <==> final(self).stage == ScaleStage::Finished,
            match old(self).stage {
                ScaleStage::Created => {
                    &&& final(self).stage == ScaleStage::Reading
                    &&& action == (ScaleAction::Read { name: old(self).name })
                },
                ScaleStage::Reading => match event {
                    ScaleEvent::Read(Err(message)) => action == ScaleAction::Finished(
                        Err(
                            scale_failure(
                                old(self).kind,
                                old(self).name,
                                StatefulSetScaleError::KubeClient(message),
                            ),
                        ),
                    ),
                    ScaleEvent::Read(Ok(sts)) => match sts.replicas {
                        None => action == ScaleAction::Finished(
                            Err(
                                scale_failure(
                                    old(self).kind,
                                    old(self).name,
                                    StatefulSetScaleError::StatefulSetHasNoReplicas,
                                ),
                            ),
                        ),
                        Some(current) => if current != old(self).kind.target_replicas() {
                            &&& final(self).stage == ScaleStage::Patching
                            &&& action == (ScaleAction::Patch {
                                name: old(self).name,
                                replicas: old(self).kind.target_replicas(),
                            })
                        } else if old(self).kind.is_shutdown() {
                            action == ScaleAction::Finished(Ok(()))
                        } else {
                            &&& final(self).opens_wait()
                            &&& action matches ScaleAction::Sleep(span)
                            &&& span@ == old(self).kind.wait_secs().0 * NANOS_PER_SEC as nat
                        },
                    },
                    _ => false,
                },
                ScaleStage::Patching => match event {
                    ScaleEvent::Patched(Err(message)) => action == ScaleAction::Finished(
                        Err(
                            scale_failure(
                                old(self).kind,
                                old(self).name,
                                StatefulSetScaleError::KubeClient(message),
                            ),
                        ),
                    ),
                    ScaleEvent::Patched(Ok(_)) => if old(self).kind == ScaleKind::ShutdownMcserver {
                        &&& final(self).stage == ScaleStage::Stopping
                        &&& action matches ScaleAction::Exec { pod, container }
                        &&& pod@ == old(self).name@ + "-0"@
                        &&& container == old(self).rcon_container
                    } else {
                        &&& final(self).opens_wait()
                        &&& action matches ScaleAction::Sleep(span)
                        &&& span@ == old(self).kind.wait_secs().0 * NANOS_PER_SEC as nat
                    },
                    _ => false,
                },
                ScaleStage::Stopping => {
                    &&& final(self).opens_wait()
                    &&& action matches ScaleAction::Sleep(span)
                    &&& span@ == old(self).kind.wait_secs().0 * NANOS_PER_SEC as nat
                },
                ScaleStage::Sleeping => {
                    &&& final(self).stage == ScaleStage::Probing
                    &&& final(self).polling == old(self).polling
                    &&& action == (ScaleAction::Read { name: old(self).name })
                },
                ScaleStage::Probing => event matches ScaleEvent::Read(observed) && match scaled_outcome(
                    observed,
                    old(self).kind.target_replicas(),
                ) {
                    None => {
                        &&& action matches ScaleAction::Finished(Err(error))
                        &&& wait_failure(
                            old(self).kind,
                            old(self).name,
                            error,
                            WaitStatefulSetScaleError::StatefulSetHasNoStatus,
                        )
                    },
                    Some(Outcome::Done(_)) => match old(self).kind.soak_secs() {
                        Some(secs) => {
                            &&& final(self).stage == ScaleStage::Soaking
                            &&& action matches ScaleAction::Sleep(span)
                            &&& span@ == secs * NANOS_PER_SEC as nat
                        },
                        None => action == ScaleAction::Finished(Ok(())),
                    },
                    Some(Outcome::TransientError(message)) => if old(self).polling.errors + 1 >= old(
                        self,
                    ).kind.wait_errors() {
                        &&& action matches ScaleAction::Finished(Err(error))
                        &&& wait_failure(
                            old(self).kind,
                            old(self).name,
                            error,
                            WaitStatefulSetScaleError::KubeClient(message),
                        )
                    } else {
                        &&& final(self).stage == ScaleStage::Sleeping
                        &&& action matches ScaleAction::Sleep(span)
                        &&& span@ == 10 * NANOS_PER_SEC as nat
                        &&& final(self).polling.errors == old(self).polling.errors + 1
                        &&& final(self).polling.elapsed@ == old(self).polling.elapsed@ + span@
                    },
                    Some(_) => if old(self).polling.elapsed@ >= old(self).kind.wait_secs().2
                        * NANOS_PER_SEC as nat {
                        &&& action matches ScaleAction::Finished(Err(error))
                        &&& wait_failure(
                            old(self).kind,
                            old(self).name,
                            error,
                            WaitStatefulSetScaleError::StatefulSetScaledCheckTimeout(
                                (old(self).polling.elapsed@ / (NANOS_PER_SEC as nat)) as u64,
                            ),
                        )
                    } else {
                        &&& final(self).stage == ScaleStage::Sleeping
                        &&& action matches ScaleAction::Sleep(span)
                        &&& span@ == old(self).kind.wait_secs().1 * NANOS_PER_SEC as nat
                        &&& final(self).polling.errors == old(self).polling.errors
                        &&& final(self).polling.elapsed@ == old(self).polling.elapsed@ + span@
                    },
                },
                ScaleStage::Soaking => action == ScaleAction::Finished(Ok(())),
                ScaleStage::Finished => false,
            },
    {
        match event {
            ScaleEvent::Started => {
                self.stage = ScaleStage::Reading;
                ScaleAction::Read { name: self.name.clone() }
            },
            ScaleEvent::Read(observed) => {
                if self.stage == ScaleStage::Reading {
                    match scale_statefulset_to_zero(observed, self.kind.replicas()) {
                        ScaleStep::Patch(replicas) => {
                            self.stage = ScaleStage::Patching;
                            ScaleAction::Patch { name: self.name.clone(), replicas }
                        },
                        ScaleStep::Finished(Err(error)) => {
                            self.stage = ScaleStage::Finished;
                            ScaleAction::Finished(Err(self.scale_error(error)))
                        },
                        ScaleStep::Finished(Ok(_)) => match self.kind {
                            ScaleKind::ShutdownMcproxy | ScaleKind::ShutdownMcserver => {
                                self.stage = ScaleStage::Finished;
                                ScaleAction::Finished(Ok(()))
                            },
                            _ => self.begin_wait(),
                        },
                    }
                } else {
                    let config = self.kind.wait_config();
                    proof {
                        assert(self.polling.can_wait(config)) by {
                            assert((1000 + 10 * self.polling.errors) * NANOS_PER_SEC as nat + 10
                                * NANOS_PER_SEC as nat <= u64::MAX as nat * NANOS_PER_SEC as nat)
                                by (nonlinear_arith)
                                requires
                                    self.polling.errors <= 5,
                                    NANOS_PER_SEC == 1_000_000_000,
                            ;
                        }
                    }
                    let ghost before = self.polling;
                    match wait_until_statefulset_scaled(
                        &mut self.polling,
                        &config,
                        self.kind.replicas(),
                        observed,
                    ) {
                        WaitStep::Sleep(span) => {
                            self.stage = ScaleStage::Sleeping;
                            proof {
                                assert(self.polling.errors <= 5);
                                assert(self.polling.elapsed@ <= (1000 + 10 * self.polling.errors)
                                    * NANOS_PER_SEC as nat) by (nonlinear_arith)
                                    requires
                                        NANOS_PER_SEC == 1_000_000_000,
                                        before.elapsed@ <= (1000 + 10 * before.errors)
                                            * NANOS_PER_SEC as nat,
                                        ({
                                            &&& self.polling.errors == before.errors + 1
                                            &&& self.polling.elapsed@ == before.elapsed@ + 10
                                                * NANOS_PER_SEC as nat
                                        }) || ({
                                            &&& self.polling.errors == before.errors
                                            &&& before.elapsed@ < 900 * NANOS_PER_SEC as nat
                                            &&& self.polling.elapsed@ <= before.elapsed@ + 10
                                                * NANOS_PER_SEC as nat
                                        }),
                                ;
                            }
                            ScaleAction::Sleep(span)
                        },
                        WaitStep::Finished(Ok(_)) => {
                            self.end_wait()
                        },
                        WaitStep::Finished(Err(error)) => {
                            self.stage = ScaleStage::Finished;
                            ScaleAction::Finished(Err(self.wait_error(error)))
                        },
                    }
                }
            },
            ScaleEvent::Patched(patched) => match scale_statefulset_patched(patched) {
                Err(error) => {
                    self.stage = ScaleStage::Finished;
                    ScaleAction::Finished(Err(self.scale_error(error)))
                },
                Ok(_) => match self.kind {
                    ScaleKind::ShutdownMcserver => {
                        self.stage = ScaleStage::Stopping;
                        ScaleAction::Exec {
                            pod: concat(self.name.as_str(), "-0"),
                            container: self.rcon_container.clone(),
                        }
                    },
                    _ => self.begin_wait(),
                },
            },
            ScaleEvent::Executed => self.begin_wait(),
            ScaleEvent::Slept => {
                if self.stage == ScaleStage::Sleeping {
                    self.stage = ScaleStage::Probing;
                    ScaleAction::Read { name: self.name.clone() }
                } else {
                    self.stage = ScaleStage::Finished;
                    ScaleAction::Finished(Ok(()))
                }
            },
        }
    }
}

} // verus!
