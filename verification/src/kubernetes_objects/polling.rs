//! The bounded observe-and-wait loop that watches a cluster object converge.
//!
//! The loop itself sleeps and probes outside this library. Here is its bookkeeping: the time
//! waited so far, the probes that failed, and the rule that turns one probe's outcome into
//! the next thing to do.

use crate::config::polling::{max_duration_nanos, Duration, PollingConfig, NANOS_PER_SEC};
use vstd::prelude::*;

verus! {

/// What one probe of the watched object found.
#[derive(Debug, PartialEq, Eq)]
pub enum Outcome<T> {
    /// The awaited condition holds.
    Done(T),
    /// The object is there, the condition does not hold yet.
    NotYet,
    /// The object is not there.
    Missing,
    /// The probe itself failed; the message says how.
    TransientError(String),
}

/// What the loop does after a probe.
#[derive(Debug, PartialEq, Eq)]
pub enum PollStep<T> {
    /// Sleep for the given span, then probe again.
    Sleep(Duration),
    /// The condition holds: the loop ends with this value.
    Done(T),
    /// The object did not converge in time; the whole seconds waited are given.
    TimedOut(u64),
    /// Too many probes failed; the last failure's message is given.
    ClientError(String),
}

/// What a wait on one kind of object does after a probe: sleep and probe again, or end.
#[derive(Debug, PartialEq, Eq)]
pub enum WaitStep<T, E> {
    /// Sleep for the given span, then probe again.
    Sleep(Duration),
    /// The wait is over, with its result.
    Finished(Result<T, E>),
}

/// The longest that a loop with these settings can have waited before any probe failed:
/// its first sleep, or all that the settings allow and one poll interval more.
pub open spec fn longest_wait(config: PollingConfig) -> nat {
    if config.initial_wait@ >= config.max_wait@ + config.poll_interval@ {
        config.initial_wait@
    } else {
        config.max_wait@ + config.poll_interval@
    }
}

/// Whether a loop with these settings can never wait longer than a [`Duration`] holds:
/// the longest wait without a failed probe, one `error_wait` for every failed probe that
/// the settings tolerate, and one more wait of either kind still fit.
pub open spec fn fits(config: PollingConfig) -> bool {
    longest_wait(config) + config.max_errors * config.error_wait@ + config.poll_interval@
        + config.error_wait@ <= max_duration_nanos()
}

/// A loop that has waited no longer than its settings allow can wait once more, provided
/// that the settings fit. So a loop that was opened with settings that fit can be run to
/// its end.
pub proof fn lemma_fitting_loop_can_wait(polling: Polling, config: PollingConfig)
    requires
        fits(config),
        polling.within(config),
    ensures
        polling.can_wait(config),
{
    assert(polling.errors * config.error_wait@ <= config.max_errors * config.error_wait@)
        by (nonlinear_arith)
        requires
            polling.errors <= config.max_errors,
    ;
}

/// The bookkeeping of one polling loop.
#[derive(Clone, Copy, Debug, PartialEq, Eq)]
pub struct Polling {
    /// The time slept so far.
    pub elapsed: Duration,
    /// The probes that failed so far.
    pub errors: u64,
}

impl Polling {
    /// Whether one more wait of either kind still fits in a [`Duration`].
    pub open spec fn can_wait(self, config: PollingConfig) -> bool {
        &&& self.elapsed@ + config.poll_interval@ <= max_duration_nanos()
        &&& self.elapsed@ + config.error_wait@ <= max_duration_nanos()
    }

    /// Whether a failed probe now would be one too many.
    pub open spec fn out_of_errors(self, config: PollingConfig) -> bool {
        self.errors + 1 >= config.max_errors
    }

    /// Whether the loop has waited as long as it may.
    pub open spec fn out_of_time(self, config: PollingConfig) -> bool {
        self.elapsed@ >= config.max_wait@
    }

    /// Whether the loop has waited no longer than a loop with these settings can have
    /// after as many failed probes: the first sleep, or all that the settings allow and
    /// one poll interval more, and one `error_wait` for every failed probe.
    pub open spec fn within(self, config: PollingConfig) -> bool {
        &&& self.errors <= config.max_errors
        &&& self.elapsed@ <= longest_wait(config) + self.errors * config.error_wait@
    }

    /// Opens a loop: the caller sleeps for the returned span, `initial_wait`, before the
    /// first probe, and that sleep already counts as waited.
    pub fn start(config: &PollingConfig) -> (opened: (Polling, Duration))
        ensures
            opened.0.elapsed == config.initial_wait,
            opened.0.errors == 0,
            opened.1 == config.initial_wait,
            opened.0.within(*config),
    {
        (Polling { elapsed: config.initial_wait, errors: 0 }, config.initial_wait)
    }

    /// Exec form of [`fits`], for callers that cannot prove it.
    pub fn check_fits(config: &PollingConfig) -> (fitting: bool)
        ensures
            fitting == fits(*config),
    {
        let initial = config.initial_wait.as_nanos();
        let all = config.max_wait.as_nanos() + config.poll_interval.as_nanos();
        let longest = if initial >= all {
            initial
        } else {
            all
        };
        let fixed = longest + config.poll_interval.as_nanos() + config.error_wait.as_nanos();
        let limit = Duration::longest().as_nanos();
        proof {
            assert(config.max_errors * config.error_wait@ >= 0) by (nonlinear_arith);
        }
        match (config.max_errors as u128).checked_mul(config.error_wait.as_nanos()) {
            None => false,
            Some(failed) => failed <= limit && fixed <= limit - failed,
        }
    }

    /// Exec form of [`Polling::can_wait`], for callers that cannot prove it.
    pub fn check_can_wait(&self, config: &PollingConfig) -> (fits: bool)
        ensures
            fits == self.can_wait(*config),
    {
        self.elapsed.checked_add(&config.poll_interval).is_some() && self.elapsed.checked_add(
            &config.error_wait,
        ).is_some()
    }

    /// Takes one probe's outcome and says what the loop does next.
    ///
    /// - `Done` ends the loop with its value.
    /// - `NotYet` and `Missing` end it with a timeout once `max_wait` has been waited, and
    ///   otherwise cost one `poll_interval`.
    /// - `TransientError` counts one failure; the failure that reaches `max_errors` ends the
    ///   loop with that error, any earlier one costs one `error_wait`.
    ///
    /// The bookkeeping changes only when the answer is to sleep.
    pub fn observe<T>(&mut self, config: &PollingConfig, outcome: Outcome<T>) -> (step: PollStep<T>)
        requires
            old(self).can_wait(*config),
        ensures
            old(self).within(*config) ==> final(self).within(*config),
            match outcome {
                Outcome::Done(value) => step == PollStep::Done(value) && *final(self) == *old(self),
                Outcome::NotYet | Outcome::Missing => if old(self).out_of_time(*config) {
                    &&& step == PollStep::<T>::TimedOut(
                        (old(self).elapsed@ / (NANOS_PER_SEC as nat)) as u64,
                    )
                    &&& *final(self) == *old(self)
                } else {
                    &&& step == PollStep::<T>::Sleep(config.poll_interval)
                    &&& final(self).elapsed@ == old(self).elapsed@ + config.poll_interval@
                    &&& final(self).errors == old(self).errors
                },
                Outcome::TransientError(message) => if old(self).out_of_errors(*config) {
                    &&& step == PollStep::<T>::ClientError(message)
                    &&& *final(self) == *old(self)
                } else {
                    &&& step == PollStep::<T>::Sleep(config.error_wait)
                    &&& final(self).elapsed@ == old(self).elapsed@ + config.error_wait@
                    &&& final(self).errors == old(self).errors + 1
                },
            },
    {
        match outcome {
            Outcome::Done(value) => PollStep::Done(value),
            Outcome::NotYet | Outcome::Missing => {
                if self.elapsed.at_least(&config.max_wait) {
                    PollStep::TimedOut(self.elapsed.as_secs())
                } else {
                    match self.elapsed.checked_add(&config.poll_interval) {
                        Some(elapsed) => {
                            self.elapsed = elapsed;
                        },
                        None => {
                            assert(false);
                        },
                    }
                    PollStep::Sleep(config.poll_interval)
                }
            },
            Outcome::TransientError(message) => {
                if config.max_errors == 0 || self.errors >= config.max_errors - 1 {
                    PollStep::ClientError(message)
                } else {
                    match self.elapsed.checked_add(&config.error_wait) {
                        Some(elapsed) => {
                            self.elapsed = elapsed;
                        },
                        None => {
                            assert(false);
                        },
                    }
                    proof {
                        assert((self.errors + 1) * config.error_wait@ == self.errors
                            * config.error_wait@ + config.error_wait@) by (nonlinear_arith);
                    }
                    self.errors = self.errors + 1;
                    PollStep::Sleep(config.error_wait)
                }
            },
        }
    }
}

} // verus!
