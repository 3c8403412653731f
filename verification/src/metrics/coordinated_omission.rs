//! Coordinated Omission events and the cadence calculators that detect them.

use vstd::prelude::*;

verus! {

/// Severity levels for Coordinated Omission events.
#[derive(Clone, Copy, Debug, PartialEq, Eq, Hash, Structural)]
pub enum CoSeverity {
    /// Minor: actual duration is less than 5x expected cadence
    Minor,
    /// Moderate: actual duration is 5-10x expected cadence
    Moderate,
    /// Severe: actual duration is 10-20x expected cadence
    Severe,
    /// Critical: actual duration is >20x expected cadence
    Critical,
}

/// Represents a single Coordinated Omission event.
#[derive(Debug)]
pub struct CoEvent {
    /// When the CO event was detected (seconds since UNIX epoch).
    pub timestamp_secs: u64,
    /// The expected cadence at the time of detection, in milliseconds.
    pub expected_cadence_ms: u128,
    /// The actual duration that triggered CO detection, in milliseconds.
    pub actual_duration_ms: u128,
    /// Number of synthetic requests injected for this event.
    pub synthetic_injected: u32,
    /// The user/thread that experienced the CO event.
    pub user_id: usize,
    /// The scenario that was running when CO occurred.
    pub scenario_name: String,
    /// Severity level of this CO event.
    pub severity: CoSeverity,
}

/// The severity of a CO event, from the ratio of the actual duration to the
/// expected cadence, both in milliseconds. An expected cadence of zero makes the
/// ratio unbounded, which is critical.
pub open spec fn severity_of(expected_ms: nat, actual_ms: nat) -> CoSeverity {
    if expected_ms > 0 && actual_ms < 5 * expected_ms {
        CoSeverity::Minor
    } else if expected_ms > 0 && actual_ms < 10 * expected_ms {
        CoSeverity::Moderate
    } else if expected_ms > 0 && actual_ms < 20 * expected_ms {
        CoSeverity::Severe
    } else {
        CoSeverity::Critical
    }
}

/// Calculate the severity of a CO event based on the duration ratio.
pub fn calculate_severity(expected_ms: u128, actual_ms: u128) -> (s: CoSeverity)
    ensures
        s == severity_of(expected_ms as nat, actual_ms as nat),
        expected_ms > 0 && actual_ms < 5 * expected_ms ==> s == CoSeverity::Minor,
        expected_ms > 0 && 5 * expected_ms <= actual_ms < 10 * expected_ms ==> s == CoSeverity::Moderate,
        expected_ms > 0 && 10 * expected_ms <= actual_ms < 20 * expected_ms ==> s == CoSeverity::Severe,
        expected_ms == 0 || actual_ms >= 20 * expected_ms ==> s == CoSeverity::Critical,
{
    if expected_ms == 0 {
        CoSeverity::Critical
    } else if actual_ms / 5 < expected_ms {
        CoSeverity::Minor
    } else if actual_ms / 10 < expected_ms {
        CoSeverity::Moderate
    } else if actual_ms / 20 < expected_ms {
        CoSeverity::Severe
    } else {
        CoSeverity::Critical
    }
}

/// Law: the severity goes by how many times longer than its cadence a request
/// took. Under five times is minor, from five up to ten times moderate, from ten up
/// to twenty times severe, and twenty times or more critical; with no cadence at
/// all the ratio is unbounded, which is critical.
pub proof fn lemma_severity_by_ratio(expected_ms: nat, actual_ms: nat)
    ensures
        expected_ms > 0 && actual_ms < 5 * expected_ms ==> severity_of(expected_ms, actual_ms) == CoSeverity::Minor,
        expected_ms > 0 && 5 * expected_ms <= actual_ms < 10 * expected_ms ==> severity_of(expected_ms, actual_ms)
            == CoSeverity::Moderate,
        expected_ms > 0 && 10 * expected_ms <= actual_ms < 20 * expected_ms ==> severity_of(expected_ms, actual_ms)
            == CoSeverity::Severe,
        expected_ms > 0 && actual_ms >= 20 * expected_ms ==> severity_of(expected_ms, actual_ms) == CoSeverity::Critical,
        expected_ms == 0 ==> severity_of(expected_ms, actual_ms) == CoSeverity::Critical,
        expected_ms > 0 ==> severity_of(expected_ms, actual_ms) == severity_of(1, actual_ms / expected_ms),
{
    if expected_ms > 0 {
        let q = actual_ms / expected_ms;
        assert(actual_ms < 5 * expected_ms <==> q < 5) by (nonlinear_arith)
            requires
                q == actual_ms / expected_ms,
                expected_ms > 0,
        ;
        assert(actual_ms < 10 * expected_ms <==> q < 10) by (nonlinear_arith)
            requires
                q == actual_ms / expected_ms,
                expected_ms > 0,
        ;
        assert(actual_ms < 20 * expected_ms <==> q < 20) by (nonlinear_arith)
            requires
                q == actual_ms / expected_ms,
                expected_ms > 0,
        ;
    }
}

/// Law: scaling the cadence and the duration by the same factor, such as reading
/// both in other units, leaves the severity unchanged.
pub proof fn lemma_severity_scale_invariant(expected_ms: nat, actual_ms: nat, factor: nat)
    requires
        factor > 0,
    ensures
        severity_of(factor * expected_ms, factor * actual_ms) == severity_of(expected_ms, actual_ms),
{
    assert(factor * expected_ms > 0 <==> expected_ms > 0) by (nonlinear_arith)
        requires
            factor > 0,
    ;
    assert(factor * actual_ms < 5 * (factor * expected_ms) <==> actual_ms < 5 * expected_ms) by (nonlinear_arith)
        requires
            factor > 0,
    ;
    assert(factor * actual_ms < 10 * (factor * expected_ms) <==> actual_ms < 10 * expected_ms) by (nonlinear_arith)
        requires
            factor > 0,
    ;
    assert(factor * actual_ms < 20 * (factor * expected_ms) <==> actual_ms < 20 * expected_ms) by (nonlinear_arith)
        requires
            factor > 0,
    ;
}

/// One hour, in nanoseconds: the baseline returned during warm-up.
pub const WARMUP_BASELINE_NANOS: u128 = 3_600_000_000_000u128;

/// One second, in nanoseconds: the baseline when there are no measurements.
pub const DEFAULT_BASELINE_NANOS: u128 = 1_000_000_000u128;

/// The longest duration, in nanoseconds.
pub const MAX_DURATION_NANOS: u128 = 18_446_744_073_709_551_615_999_999_999u128;

/// The smallest of a non-empty list of durations.
pub open spec fn min_of(s: Seq<u128>) -> u128
    decreases s.len(),
{
    if s.len() <= 1 {
        s[0]
    } else {
        let m = min_of(s.drop_last());
        if s.last() < m {
            s.last()
        } else {
            m
        }
    }
}

/// The largest of a non-empty list of durations.
pub open spec fn max_of(s: Seq<u128>) -> u128
    decreases s.len(),
{
    if s.len() <= 1 {
        s[0]
    } else {
        let m = max_of(s.drop_last());
        if s.last() > m {
            s.last()
        } else {
            m
        }
    }
}

/// Strategies for calculating the cadence that Coordinated Omission is measured
/// against. Durations are in nanoseconds.
pub trait CadenceCalculator {
    /// `count` more measurements can be counted without overflow.
    spec fn accepts_measurements(&self, count: nat) -> bool;

    /// The comparison against `baseline` stays within the range of durations.
    spec fn accepts_baseline(&self, baseline: u128) -> bool;

    /// Get the name of this calculator strategy.
    fn name(&self) -> &'static str;

    /// Calculate the baseline cadence from measurements.
    fn calculate_baseline(&mut self, measurements: &[u128]) -> u128
        requires
            old(self).accepts_measurements(measurements@.len()),
    ;

    /// Determine if synthetic data should be injected based on elapsed time.
    fn should_inject_synthetic(&self, elapsed: u128, baseline: u128) -> bool
        requires
            self.accepts_baseline(baseline),
    ;

    /// Describe the approach used by this calculator.
    fn describe_approach(&self) -> &'static str;
}

/// Minimum cadence calculator (most sensitive to CO).
pub struct MinimumCadence {
    warmup_iterations: u32,
    measurements_seen: u32,
}

impl MinimumCadence {
    /// A calculator that has seen no measurements yet.
    pub fn new(warmup_iterations: u32) -> (c: Self)
        ensures
            c.warmup() == warmup_iterations,
            c.seen() == 0,
    {
        MinimumCadence { warmup_iterations, measurements_seen: 0 }
    }

    /// How many measurements make up the warm-up.
    pub closed spec fn warmup(&self) -> u32 {
        self.warmup_iterations
    }

    /// How many measurements were seen.
    pub closed spec fn seen(&self) -> u32 {
        self.measurements_seen
    }
}

/// The baseline that a calculator returns: during warm-up an hour, without
/// measurements a second, otherwise the value the strategy picks.
pub open spec fn baseline_after(seen: nat, warmup: nat, measurements: Seq<u128>, picked: u128) -> u128 {
    if seen < warmup {
        WARMUP_BASELINE_NANOS
    } else if measurements.len() == 0 {
        DEFAULT_BASELINE_NANOS
    } else {
        picked
    }
}

fn pick_min(measurements: &[u128]) -> (m: u128)
    requires
        measurements@.len() > 0,
    ensures
        m == min_of(measurements@),
{
    let mut m = measurements[0];
    let mut i: usize = 1;
    while i < measurements.len()
        invariant
            1 <= i <= measurements@.len(),
            m == min_of(measurements@.take(i as int)),
        decreases measurements@.len() - i,
    {
        assert(measurements@.take(i + 1).drop_last() =~= measurements@.take(i as int));
        if measurements[i] < m {
            m = measurements[i];
        }
        i = i + 1;
    }
    assert(measurements@.take(measurements@.len() as int) =~= measurements@);
    m
}

fn pick_max(measurements: &[u128]) -> (m: u128)
    requires
        measurements@.len() > 0,
    ensures
        m == max_of(measurements@),
{
    let mut m = measurements[0];
    let mut i: usize = 1;
    while i < measurements.len()
        invariant
            1 <= i <= measurements@.len(),
            m == max_of(measurements@.take(i as int)),
        decreases measurements@.len() - i,
    {
        assert(measurements@.take(i + 1).drop_last() =~= measurements@.take(i as int));
        if measurements[i] > m {
            m = measurements[i];
        }
        i = i + 1;
    }
    assert(measurements@.take(measurements@.len() as int) =~= measurements@);
    m
}

impl CadenceCalculator for MinimumCadence {
    open spec fn accepts_measurements(&self, count: nat) -> bool {
        self.seen() + count <= u32::MAX
    }

    open spec fn accepts_baseline(&self, baseline: u128) -> bool {
        baseline * 2 <= MAX_DURATION_NANOS
    }

    fn name(&self) -> (n: &'static str)
        ensures
            n@ == "minimum"@,
    {
        "minimum"
    }

    /// Uses the minimum of the measurements as baseline, after the warm-up.
    fn calculate_baseline(&mut self, measurements: &[u128]) -> (b: u128)
        ensures
            final(self).warmup() == old(self).warmup(),
            final(self).seen() == old(self).seen() + measurements@.len(),
            b == baseline_after(
                final(self).seen() as nat,
                final(self).warmup() as nat,
                measurements@,
                if measurements@.len() > 0 { min_of(measurements@) } else { 0 },
            ),
    {
        self.measurements_seen = self.measurements_seen + measurements.len() as u32;
        if self.measurements_seen < self.warmup_iterations {
            WARMUP_BASELINE_NANOS
        } else if measurements.len() == 0 {
            DEFAULT_BASELINE_NANOS
        } else {
            pick_min(measurements)
        }
    }

    /// Inject when the elapsed time is more than twice the baseline.
    fn should_inject_synthetic(&self, elapsed: u128, baseline: u128) -> (b: bool)
        ensures
            b == (elapsed > baseline * 2),
    {
        elapsed > baseline * 2
    }

    fn describe_approach(&self) -> (d: &'static str)
        ensures
            d@ == "Uses minimum response time as baseline. Most sensitive to CO events."@,
    {
        "Uses minimum response time as baseline. Most sensitive to CO events."
    }
}

/// Maximum cadence calculator (least sensitive to CO).
pub struct MaximumCadence {
    warmup_iterations: u32,
    measurements_seen: u32,
}

impl MaximumCadence {
    /// A calculator that has seen no measurements yet.
    pub fn new(warmup_iterations: u32) -> (c: Self)
        ensures
            c.warmup() == warmup_iterations,
            c.seen() == 0,
    {
        MaximumCadence { warmup_iterations, measurements_seen: 0 }
    }

    /// How many measurements make up the warm-up.
    pub closed spec fn warmup(&self) -> u32 {
        self.warmup_iterations
    }

    /// How many measurements were seen.
    pub closed spec fn seen(&self) -> u32 {
        self.measurements_seen
    }
}

impl CadenceCalculator for MaximumCadence {
    open spec fn accepts_measurements(&self, count: nat) -> bool {
        self.seen() + count <= u32::MAX
    }

    open spec fn accepts_baseline(&self, baseline: u128) -> bool {
        baseline * 2 <= MAX_DURATION_NANOS
    }

    fn name(&self) -> (n: &'static str)
        ensures
            n@ == "maximum"@,
    {
        "maximum"
    }

    /// Uses the maximum of the measurements as baseline, after the warm-up.
    fn calculate_baseline(&mut self, measurements: &[u128]) -> (b: u128)
        ensures
            final(self).warmup() == old(self).warmup(),
            final(self).seen() == old(self).seen() + measurements@.len(),
            b == baseline_after(
                final(self).seen() as nat,
                final(self).warmup() as nat,
                measurements@,
                if measurements@.len() > 0 { max_of(measurements@) } else { 0 },
            ),
    {
        self.measurements_seen = self.measurements_seen + measurements.len() as u32;
        if self.measurements_seen < self.warmup_iterations {
            WARMUP_BASELINE_NANOS
        } else if measurements.len() == 0 {
            DEFAULT_BASELINE_NANOS
        } else {
            pick_max(measurements)
        }
    }

    /// Inject when the elapsed time is more than twice the baseline.
    fn should_inject_synthetic(&self, elapsed: u128, baseline: u128) -> (b: bool)
        ensures
            b == (elapsed > baseline * 2),
    {
        elapsed > baseline * 2
    }

    fn describe_approach(&self) -> (d: &'static str)
        ensures
            d@ == "Uses maximum response time as baseline. Least sensitive to CO events."@,
    {
        "Uses maximum response time as baseline. Least sensitive to CO events."
    }
}

/// Disabled cadence calculator (never triggers CO mitigation).
pub struct DisabledCadence;

impl CadenceCalculator for DisabledCadence {
    open spec fn accepts_measurements(&self, count: nat) -> bool {
        true
    }

    open spec fn accepts_baseline(&self, baseline: u128) -> bool {
        true
    }

    fn name(&self) -> (n: &'static str)
        ensures
            n@ == "disabled"@,
    {
        "disabled"
    }

    /// The longest duration: nothing is ever late against it.
    fn calculate_baseline(&mut self, measurements: &[u128]) -> (b: u128)
        ensures
            b == 18_446_744_073_709_551_615_000_000_000u128,
    {
        18_446_744_073_709_551_615_000_000_000u128
    }

    fn should_inject_synthetic(&self, elapsed: u128, baseline: u128) -> (b: bool)
        ensures
            !b,
    {
        false
    }

    fn describe_approach(&self) -> (d: &'static str)
        ensures
            d@ == "Coordinated Omission mitigation is disabled."@,
    {
        "Coordinated Omission mitigation is disabled."
    }
}


/// How many Coordinated Omission events of each severity were recorded.
#[derive(Clone, Copy, Debug, PartialEq, Eq, Structural)]
pub struct SeverityCounts {
    pub minor: usize,
    pub moderate: usize,
    pub severe: usize,
    pub critical: usize,
}

/// The count of `s` in `c`.
pub open spec fn severity_count(c: SeverityCounts, s: CoSeverity) -> usize {
    match s {
        CoSeverity::Minor => c.minor,
        CoSeverity::Moderate => c.moderate,
        CoSeverity::Severe => c.severe,
        CoSeverity::Critical => c.critical,
    }
}

/// How many of `events` have severity `s`.
pub open spec fn events_of_severity(events: Seq<CoEvent>, s: CoSeverity) -> nat
    decreases events.len(),
{
    if events.len() == 0 {
        0
    } else {
        events_of_severity(events.drop_last(), s) + if events.last().severity == s {
            1nat
        } else {
            0nat
        }
    }
}

/// The Coordinated Omission events of a load test, with the requests actually made
/// and those generated to mitigate them. The share of generated requests is a
/// fraction, which the caller computes from the two counts.
#[derive(Debug)]
pub struct CoEventLog {
    /// Total number of actual requests made.
    pub actual_requests: u64,
    /// Total number of synthetic requests generated due to CO mitigation.
    pub synthetic_requests: u64,
    /// The CO events detected during the test, in the order detected.
    pub co_events: Vec<CoEvent>,
    /// How many events of each severity were detected.
    pub severity_histogram: SeverityCounts,
}

impl CoEventLog {
    /// Every severity is counted as often as events of it were recorded.
    pub open spec fn wf(&self) -> bool {
        forall|s: CoSeverity| #[trigger] severity_count(self.severity_histogram, s) == events_of_severity(self.co_events@, s)
    }

    /// A log with nothing recorded.
    pub fn new() -> (log: Self)
        ensures
            log.wf(),
            log.actual_requests == 0,
            log.synthetic_requests == 0,
            log.co_events@.len() == 0,
    {
        CoEventLog {
            actual_requests: 0,
            synthetic_requests: 0,
            co_events: Vec::new(),
            severity_histogram: SeverityCounts { minor: 0, moderate: 0, severe: 0, critical: 0 },
        }
    }

    /// Whether Coordinated Omission Mitigation has recorded anything.
    pub fn has_events(&self) -> (b: bool)
        ensures
            b == (self.co_events@.len() > 0 || self.synthetic_requests > 0),
    {
        self.co_events.len() > 0 || self.synthetic_requests > 0
    }

    /// Record an actual request.
    pub fn record_actual_request(&mut self)
        requires
            old(self).actual_requests < u64::MAX,
        ensures
            final(self).actual_requests == old(self).actual_requests + 1,
            final(self).synthetic_requests == old(self).synthetic_requests,
            final(self).co_events@ == old(self).co_events@,
            final(self).severity_histogram == old(self).severity_histogram,
    {
        self.actual_requests = self.actual_requests + 1;
    }

    /// Record synthetic requests generated for CO mitigation.
    pub fn record_synthetic_requests(&mut self, count: u32)
        requires
            old(self).synthetic_requests + count <= u64::MAX,
        ensures
            final(self).synthetic_requests == old(self).synthetic_requests + count,
            final(self).actual_requests == old(self).actual_requests,
            final(self).co_events@ == old(self).co_events@,
            final(self).severity_histogram == old(self).severity_histogram,
    {
        self.synthetic_requests = self.synthetic_requests + count as u64;
    }

    /// Record a new CO event detected at `timestamp_secs`: its severity comes from
    /// the ratio of the actual duration to the expected cadence, it is counted
    /// under that severity and kept, and the synthetic requests it injected are
    /// recorded.
    pub fn record_co_event(
        &mut self,
        expected_cadence_ms: u128,
        actual_duration_ms: u128,
        synthetic_injected: u32,
        user_id: usize,
        scenario_name: String,
        timestamp_secs: u64,
    )
        requires
            old(self).wf(),
            old(self).synthetic_requests + synthetic_injected <= u64::MAX,
            severity_count(old(self).severity_histogram, severity_of(expected_cadence_ms as nat, actual_duration_ms as nat)) < usize::MAX,
        ensures
            final(self).wf(),
            final(self).co_events@ == old(self).co_events@.push(
                CoEvent {
                    timestamp_secs,
                    expected_cadence_ms,
                    actual_duration_ms,
                    synthetic_injected,
                    user_id,
                    scenario_name,
                    severity: severity_of(expected_cadence_ms as nat, actual_duration_ms as nat),
                },
            ),
            final(self).synthetic_requests == old(self).synthetic_requests + synthetic_injected,
            final(self).actual_requests == old(self).actual_requests,
    {
        let severity = calculate_severity(expected_cadence_ms, actual_duration_ms);
        let ghost before = self.co_events@;
        match severity {
            CoSeverity::Minor => {
                self.severity_histogram.minor = self.severity_histogram.minor + 1;
            },
            CoSeverity::Moderate => {
                self.severity_histogram.moderate = self.severity_histogram.moderate + 1;
            },
            CoSeverity::Severe => {
                self.severity_histogram.severe = self.severity_histogram.severe + 1;
            },
            CoSeverity::Critical => {
                self.severity_histogram.critical = self.severity_histogram.critical + 1;
            },
        }
        self.co_events.push(
            CoEvent {
                timestamp_secs,
                expected_cadence_ms,
                actual_duration_ms,
                synthetic_injected,
                user_id,
                scenario_name,
                severity,
            },
        );
        self.synthetic_requests = self.synthetic_requests + synthetic_injected as u64;
        proof {
            assert(self.co_events@.drop_last() =~= before);
            assert forall|s: CoSeverity| #[trigger] severity_count(self.severity_histogram, s) == events_of_severity(
                self.co_events@,
                s,
            ) by {
                assert(severity_count(old(self).severity_histogram, s) == events_of_severity(before, s));
            }
        }
    }
}

/// Law: a log counts each of its events once: the counts of all severities add up
/// to the number of events.
pub proof fn lemma_severity_counts_add_up(log: CoEventLog)
    requires
        log.wf(),
    ensures
        log.severity_histogram.minor + log.severity_histogram.moderate + log.severity_histogram.severe
            + log.severity_histogram.critical == log.co_events@.len(),
{
    lemma_events_of_severity_sum(log.co_events@);
    assert(severity_count(log.severity_histogram, CoSeverity::Minor) == events_of_severity(log.co_events@, CoSeverity::Minor));
    assert(severity_count(log.severity_histogram, CoSeverity::Moderate) == events_of_severity(log.co_events@, CoSeverity::Moderate));
    assert(severity_count(log.severity_histogram, CoSeverity::Severe) == events_of_severity(log.co_events@, CoSeverity::Severe));
    assert(severity_count(log.severity_histogram, CoSeverity::Critical) == events_of_severity(log.co_events@, CoSeverity::Critical));
}

proof fn lemma_events_of_severity_sum(events: Seq<CoEvent>)
    ensures
        events_of_severity(events, CoSeverity::Minor) + events_of_severity(events, CoSeverity::Moderate)
            + events_of_severity(events, CoSeverity::Severe) + events_of_severity(events, CoSeverity::Critical)
            == events.len(),
    decreases events.len(),
{
    if events.len() > 0 {
        lemma_events_of_severity_sum(events.drop_last());
    }
}

} // verus!
