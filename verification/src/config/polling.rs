//! Time spans and the settings of a bounded polling loop.

use vstd::prelude::*;

verus! {

/// Nanoseconds in one second.
pub const NANOS_PER_SEC: u32 = 1_000_000_000;

/// The longest span a [`Duration`] can hold, in nanoseconds.
pub open spec fn max_duration_nanos() -> nat {
    (u64::MAX as nat) * (NANOS_PER_SEC as nat) + (NANOS_PER_SEC as nat - 1) as nat
}

/// A span of time: whole seconds and the nanoseconds beyond them.
#[derive(Clone, Copy, Debug, PartialEq, Eq, Structural, Hash)]
pub struct Duration {
    secs: u64,
    nanos: u32,
}

impl View for Duration {
    type V = nat;

    /// The whole span in nanoseconds.
    closed spec fn view(&self) -> nat {
        (self.secs as nat) * (NANOS_PER_SEC as nat) + (self.nanos as nat)
    }
}

impl Duration {
    #[verifier::type_invariant]
    spec fn normalized(self) -> bool {
        self.nanos < NANOS_PER_SEC
    }

    /// A span of `secs` whole seconds.
    pub fn from_secs(secs: u64) -> (span: Duration)
        ensures
            span@ == secs as nat * NANOS_PER_SEC as nat,
    {
        Duration { secs, nanos: 0 }
    }

    /// A span of `mins` whole minutes.
    pub fn from_mins(mins: u64) -> (span: Duration)
        requires
            mins * 60 <= u64::MAX,
        ensures
            span@ == mins as nat * 60 * NANOS_PER_SEC as nat,
    {
        assert(mins as nat * 60 * NANOS_PER_SEC as nat == (mins * 60) as nat * NANOS_PER_SEC as nat)
            by (nonlinear_arith);
        Duration { secs: mins * 60, nanos: 0 }
    }

    /// A span of `secs` seconds and `nanos` nanoseconds, or `None` when `nanos` is a full
    /// second or more.
    pub fn new(secs: u64, nanos: u32) -> (span: Option<Duration>)
        ensures
            span is Some <==> nanos < NANOS_PER_SEC,
            span matches Some(d) ==> d@ == secs as nat * NANOS_PER_SEC as nat + nanos as nat,
    {
        if nanos < NANOS_PER_SEC {
            Some(Duration { secs, nanos })
        } else {
            None
        }
    }

    /// The whole seconds of the span.
    pub fn as_secs(&self) -> (secs: u64)
        ensures
            secs as nat == self@ / (NANOS_PER_SEC as nat),
    {
        proof {
            use_type_invariant(self);
            assert(((self.secs as nat) * (NANOS_PER_SEC as nat) + (self.nanos as nat)) / (
            NANOS_PER_SEC as nat) == self.secs as nat) by (nonlinear_arith)
                requires
                    self.nanos < NANOS_PER_SEC,
                    NANOS_PER_SEC == 1_000_000_000,
            ;
        }
        self.secs
    }

    /// The nanoseconds of the span beyond its whole seconds.
    pub fn subsec_nanos(&self) -> (nanos: u32)
        ensures
            nanos as nat == self@ % (NANOS_PER_SEC as nat),
            nanos < NANOS_PER_SEC,
    {
        proof {
            use_type_invariant(self);
            assert(((self.secs as nat) * (NANOS_PER_SEC as nat) + (self.nanos as nat)) % (
            NANOS_PER_SEC as nat) == self.nanos as nat) by (nonlinear_arith)
                requires
                    self.nanos < NANOS_PER_SEC,
                    NANOS_PER_SEC == 1_000_000_000,
            ;
        }
        self.nanos
    }

    /// The longest span there is.
    pub fn longest() -> (span: Duration)
        ensures
            span@ == max_duration_nanos(),
    {
        Duration { secs: u64::MAX, nanos: NANOS_PER_SEC - 1 }
    }

    /// The whole span in nanoseconds.
    pub fn as_nanos(&self) -> (nanos: u128)
        ensures
            nanos == self@,
            nanos <= max_duration_nanos(),
    {
        proof {
            use_type_invariant(self);
            assert((self.secs as nat) * (NANOS_PER_SEC as nat) <= (u64::MAX as nat) * (
            NANOS_PER_SEC as nat)) by (nonlinear_arith)
                requires
                    self.secs <= u64::MAX,
            ;
            assert((u64::MAX as nat) * (NANOS_PER_SEC as nat) + NANOS_PER_SEC as nat
                <= u128::MAX) by (nonlinear_arith)
                requires
                    NANOS_PER_SEC == 1_000_000_000,
                    u64::MAX == 0xffff_ffff_ffff_ffff,
                    u128::MAX == 0xffff_ffff_ffff_ffff_ffff_ffff_ffff_ffff,
            ;
            assert((self.secs as u128) * (NANOS_PER_SEC as u128) == (self.secs as nat) * (
            NANOS_PER_SEC as nat)) by (nonlinear_arith);
        }
        (self.secs as u128) * (NANOS_PER_SEC as u128) + (self.nanos as u128)
    }

    /// Whether this span is at least as long as `other`.
    pub fn at_least(&self, other: &Duration) -> (longer: bool)
        ensures
            longer == (self@ >= other@),
    {
        proof {
            use_type_invariant(self);
            use_type_invariant(other);
            assert(self.secs > other.secs ==> (self.secs as nat) * (NANOS_PER_SEC as nat) >= (
            other.secs as nat + 1) * (NANOS_PER_SEC as nat)) by (nonlinear_arith);
            assert(self.secs < other.secs ==> (other.secs as nat) * (NANOS_PER_SEC as nat) >= (
            self.secs as nat + 1) * (NANOS_PER_SEC as nat)) by (nonlinear_arith);
            assert((other.secs as nat + 1) * (NANOS_PER_SEC as nat) == (other.secs as nat) * (
            NANOS_PER_SEC as nat) + NANOS_PER_SEC as nat) by (nonlinear_arith);
            assert((self.secs as nat + 1) * (NANOS_PER_SEC as nat) == (self.secs as nat) * (
            NANOS_PER_SEC as nat) + NANOS_PER_SEC as nat) by (nonlinear_arith);
        }
        self.secs > other.secs || (self.secs == other.secs && self.nanos >= other.nanos)
    }

    /// The sum of the two spans, or `None` when it is longer than a span can be.
    pub fn checked_add(&self, other: &Duration) -> (sum: Option<Duration>)
        ensures
            sum is Some <==> self@ + other@ <= max_duration_nanos(),
            sum matches Some(d) ==> d@ == self@ + other@,
    {
        proof {
            use_type_invariant(self);
            use_type_invariant(other);
        }
        let mut nanos: u32 = self.nanos + other.nanos;
        let mut carry: u64 = 0;
        if nanos >= NANOS_PER_SEC {
            nanos = nanos - NANOS_PER_SEC;
            carry = 1;
        }
        let ghost total = self@ + other@;
        assert(total == (self.secs as nat + other.secs as nat + carry as nat) * (
        NANOS_PER_SEC as nat) + nanos as nat) by (nonlinear_arith)
            requires
                total == (self.secs as nat) * (NANOS_PER_SEC as nat) + (self.nanos as nat) + (
                other.secs as nat) * (NANOS_PER_SEC as nat) + (other.nanos as nat),
                self.nanos + other.nanos == carry * NANOS_PER_SEC + nanos,
        ;
        let ghost whole = self.secs as nat + other.secs as nat + carry as nat;
        assert(whole <= u64::MAX <==> total <= max_duration_nanos()) by (nonlinear_arith)
            requires
                total == whole * (NANOS_PER_SEC as nat) + nanos as nat,
                nanos < NANOS_PER_SEC,
                NANOS_PER_SEC == 1_000_000_000,
                max_duration_nanos() == (u64::MAX as nat) * (NANOS_PER_SEC as nat) + (
                NANOS_PER_SEC as nat - 1) as nat,
        ;
        match self.secs.checked_add(other.secs) {
            None => None,
            Some(secs) => match secs.checked_add(carry) {
                None => None,
                Some(secs) => Some(Duration { secs, nanos }),
            },
        }
    }
}

/// How a polling loop waits: before its first probe, between probes, for how long in all,
/// after a failed probe, and how many failed probes it tolerates.
#[derive(Clone, Copy, Debug, PartialEq, Eq)]
pub struct PollingConfig {
    pub initial_wait: Duration,
    pub poll_interval: Duration,
    pub max_wait: Duration,
    pub error_wait: Duration,
    pub max_errors: u64,
}

impl Default for PollingConfig {
    fn default() -> (config: PollingConfig)
        ensures
            config.initial_wait@ == 10 * NANOS_PER_SEC as nat,
            config.poll_interval@ == 5 * NANOS_PER_SEC as nat,
            config.max_wait@ == 600 * NANOS_PER_SEC as nat,
            config.error_wait@ == 10 * NANOS_PER_SEC as nat,
            config.max_errors == 5,
    {
        PollingConfig {
            initial_wait: default_initial_wait(),
            poll_interval: default_poll_interval(),
            max_wait: default_max_wait(),
            error_wait: default_error_wait(),
            max_errors: default_max_errors(),
        }
    }
}

/// The wait before the first probe where none is configured: 10 seconds.
pub fn default_initial_wait() -> (span: Duration)
    ensures
        span@ == 10 * NANOS_PER_SEC as nat,
{
    Duration::from_secs(10)
}

/// The wait between two probes where none is configured: 5 seconds.
pub fn default_poll_interval() -> (span: Duration)
    ensures
        span@ == 5 * NANOS_PER_SEC as nat,
{
    Duration::from_secs(5)
}

/// The longest total wait where none is configured: 600 seconds.
pub fn default_max_wait() -> (span: Duration)
    ensures
        span@ == 600 * NANOS_PER_SEC as nat,
{
    Duration::from_secs(600)
}

/// The wait after a failed probe where none is configured: 10 seconds.
pub fn default_error_wait() -> (span: Duration)
    ensures
        span@ == 10 * NANOS_PER_SEC as nat,
{
    Duration::from_secs(10)
}

/// The number of failed probes that ends a loop where none is configured: 5.
pub fn default_max_errors() -> (count: u64)
    ensures
        count == 5,
{
    5
}


/// What the text of a duration stands for: the span in nanoseconds, or the message that
/// says why the text is no duration. It is what `duration_str::parse` makes of the text.
pub uninterp spec fn parsed_duration(text: Seq<char>) -> Result<nat, Seq<char>>;

/// A parsed duration as specifications see it.
pub open spec fn parsed_view(parsed: Result<Duration, String>) -> Result<nat, Seq<char>> {
    match parsed {
        Ok(span) => Ok(span@),
        Err(message) => Err(message@),
    }
}

/// Reads a duration as people write it, such as `15s` or `15m`, with
/// `duration_str::parse`.
///
/// Nothing is claimed of the grammar: the result is only given its name, so that two
/// readings of the same text are known to agree. The span comes back as the seconds and
/// nanoseconds that the parser's `std::time::Duration` holds; its nanoseconds beyond the
/// seconds are less than a second, as `subsec_nanos` documents.
#[verifier::external_body]
fn parse_duration(text: &str) -> (parsed: Result<Duration, String>)
    ensures
        parsed_view(parsed) == parsed_duration(text@),
{
    match duration_str::parse(text) {
        Ok(span) => Ok(Duration { secs: span.as_secs(), nanos: span.subsec_nanos() }),
        Err(message) => Err(message),
    }
}

/// The settings of a polling loop as they are read: durations as text, and every field
/// optional.
#[derive(Debug, PartialEq, Eq, Default)]
pub struct RawPollingConfig {
    pub initial_wait: Option<String>,
    pub poll_interval: Option<String>,
    pub max_wait: Option<String>,
    pub error_wait: Option<String>,
    pub max_errors: Option<u64>,
}

/// What the text of one duration field stands for: nothing where the field is absent.
pub open spec fn parsed_field(text: Option<String>) -> Option<Result<nat, Seq<char>>> {
    match text {
        Some(text) => Some(parsed_duration(text@)),
        None => None,
    }
}

/// The nanoseconds of a duration field: what was read, or else `default_secs` seconds.
pub open spec fn field_or_default(read: Option<nat>, default_secs: nat) -> nat {
    match read {
        Some(nanos) => nanos,
        None => default_secs * NANOS_PER_SEC as nat,
    }
}

/// The nanoseconds that were read for a field, where it is there and was read well.
pub open spec fn read_well(field: Option<Result<nat, Seq<char>>>) -> Option<nat> {
    match field {
        Some(Ok(nanos)) => Some(nanos),
        _ => None,
    }
}

/// The message with which a field was refused, if it was.
pub open spec fn failure_of(field: Option<Result<nat, Seq<char>>>) -> Option<Seq<char>> {
    match field {
        Some(Err(message)) => Some(message),
        _ => None,
    }
}

/// The message of the first of the four fields that was refused, if one was.
pub open spec fn first_failure(
    initial_wait: Option<Result<nat, Seq<char>>>,
    poll_interval: Option<Result<nat, Seq<char>>>,
    max_wait: Option<Result<nat, Seq<char>>>,
    error_wait: Option<Result<nat, Seq<char>>>,
) -> Option<Seq<char>> {
    if failure_of(initial_wait) is Some {
        failure_of(initial_wait)
    } else if failure_of(poll_interval) is Some {
        failure_of(poll_interval)
    } else if failure_of(max_wait) is Some {
        failure_of(max_wait)
    } else {
        failure_of(error_wait)
    }
}

/// The view of an optional duration.
pub open spec fn span_view(span: Option<Duration>) -> Option<nat> {
    match span {
        Some(span) => Some(span@),
        None => None,
    }
}

impl PollingConfig {
    /// The settings with every field that is absent set to its default: 10 seconds before
    /// the first probe, 5 between probes, 600 in all, 10 after a failed probe, and 5 failed
    /// probes.
    pub fn with_defaults(
        initial_wait: Option<Duration>,
        poll_interval: Option<Duration>,
        max_wait: Option<Duration>,
        error_wait: Option<Duration>,
        max_errors: Option<u64>,
    ) -> (config: PollingConfig)
        ensures
            config.initial_wait@ == field_or_default(span_view(initial_wait), 10),
            config.poll_interval@ == field_or_default(span_view(poll_interval), 5),
            config.max_wait@ == field_or_default(span_view(max_wait), 600),
            config.error_wait@ == field_or_default(span_view(error_wait), 10),
            config.max_errors == match max_errors {
                Some(count) => count,
                None => 5,
            },
    {
        PollingConfig {
            initial_wait: match initial_wait {
                Some(span) => span,
                None => default_initial_wait(),
            },
            poll_interval: match poll_interval {
                Some(span) => span,
                None => default_poll_interval(),
            },
            max_wait: match max_wait {
                Some(span) => span,
                None => default_max_wait(),
            },
            error_wait: match error_wait {
                Some(span) => span,
                None => default_error_wait(),
            },
            max_errors: match max_errors {
                Some(count) => count,
                None => default_max_errors(),
            },
        }
    }

    /// Reads the settings of a polling loop. Every duration that is there is read as
    /// [`parsed_duration`] says, and every field that is absent gets its default.
    ///
    /// The first duration, in the order of the fields, that is no duration fails the
    /// reading with its message.
    pub fn from_raw(raw: &RawPollingConfig) -> (read: Result<PollingConfig, String>)
        ensures
            ({
                let initial_wait = parsed_field(raw.initial_wait);
                let poll_interval = parsed_field(raw.poll_interval);
                let max_wait = parsed_field(raw.max_wait);
                let error_wait = parsed_field(raw.error_wait);
                let failure = first_failure(initial_wait, poll_interval, max_wait, error_wait);
                match read {
                    Ok(config) => {
                        &&& failure is None
                        &&& config.initial_wait@ == field_or_default(read_well(initial_wait), 10)
                        &&& config.poll_interval@ == field_or_default(read_well(poll_interval), 5)
                        &&& config.max_wait@ == field_or_default(read_well(max_wait), 600)
                        &&& config.error_wait@ == field_or_default(read_well(error_wait), 10)
                        &&& config.max_errors == match raw.max_errors {
                            Some(count) => count,
                            None => 5,
                        }
                    },
                    Err(message) => failure == Some(message@),
                }
            }),
    {
        let initial_wait = match &raw.initial_wait {
            Some(text) => match parse_duration(text.as_str()) {
                Ok(span) => Some(span),
                Err(message) => {
                    return Err(message);
                },
            },
            None => None,
        };
        let poll_interval = match &raw.poll_interval {
            Some(text) => match parse_duration(text.as_str()) {
                Ok(span) => Some(span),
                Err(message) => {
                    return Err(message);
                },
            },
            None => None,
        };
        let max_wait = match &raw.max_wait {
            Some(text) => match parse_duration(text.as_str()) {
                Ok(span) => Some(span),
                Err(message) => {
                    return Err(message);
                },
            },
            None => None,
        };
        let error_wait = match &raw.error_wait {
            Some(text) => match parse_duration(text.as_str()) {
                Ok(span) => Some(span),
                Err(message) => {
                    return Err(message);
                },
            },
            None => None,
        };
        Ok(
            PollingConfig::with_defaults(
                initial_wait,
                poll_interval,
                max_wait,
                error_wait,
                raw.max_errors,
            ),
        )
    }
}

} // verus!
