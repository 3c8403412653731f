//! Aggregation of the metrics that users report: request times, status codes,
//! transaction times and errors.

pub mod co_mitigation;
pub mod coordinated_omission;
pub mod correlate;
pub mod dashboard;
pub mod delta;
pub mod goose_metrics;

use std::collections::{BTreeMap, HashMap};
use vstd::prelude::*;

use crate::goose::GooseMethod;
use crate::histogram::{count_of, integer_keys_ordered, lemma_usize_keys_ordered};

verus! {

broadcast use {vstd::std_specs::btree::group_btree_axioms, vstd::std_specs::hash::group_hash_axioms};

/// A response time rounded so that similar times are counted together: times
/// below 100ms are kept, times below 500ms are rounded to the nearest 10ms, times
/// below 1000ms to the nearest 100ms, and larger times to the nearest 1000ms
/// (halves round up).
pub open spec fn rounded_time(t: nat) -> nat {
    if t < 100 {
        t
    } else if t < 500 {
        (t + 5) / 10 * 10
    } else if t < 1000 {
        (t + 50) / 100 * 100
    } else {
        (t + 500) / 1000 * 1000
    }
}

/// The key under which a response time is counted: its rounded time, or the
/// largest `usize` when the rounded time does not fit in one.
pub open spec fn rounded_key(t: nat) -> usize {
    if rounded_time(t) <= usize::MAX {
        rounded_time(t) as usize
    } else {
        usize::MAX
    }
}

/// Collects per-request timing metrics.
#[derive(Debug)]
pub struct GooseRequestMetricTimingData {
    /// Per-response-time counters, tracking how often pages are returned with this
    /// response time, after rounding (see `rounded_time`).
    pub times: BTreeMap<usize, usize>,
    /// The shortest response time seen so far, not rounded; zero while none was above zero.
    pub minimum_time: usize,
    /// The longest response time seen so far, not rounded.
    pub maximum_time: usize,
    /// Total combined response times seen so far.
    pub total_time: usize,
    /// Total number of response times seen so far.
    pub counter: usize,
}

/// The value of timing data: the histogram, then the minimum, maximum, total and counter.
pub type TimingView = (Map<usize, usize>, nat, nat, nat, nat);

impl View for GooseRequestMetricTimingData {
    type V = TimingView;

    open spec fn view(&self) -> TimingView {
        (
            self.times@,
            self.minimum_time as nat,
            self.maximum_time as nat,
            self.total_time as nat,
            self.counter as nat,
        )
    }
}

/// Timing data after recording one more response time `t`.
pub open spec fn recorded(d: TimingView, t: nat) -> TimingView {
    let r = rounded_key(t);
    (
        d.0.insert(r, (count_of(d.0, r) + 1) as usize),
        if t > 0 && (d.1 == 0 || t < d.1) {
            t
        } else {
            d.1
        },
        if t > d.2 {
            t
        } else {
            d.2
        },
        d.3 + t,
        d.4 + 1,
    )
}

/// Timing data after recording each of `ts` in turn.
pub open spec fn recorded_all(d: TimingView, ts: Seq<nat>) -> TimingView
    decreases ts.len(),
{
    if ts.len() == 0 {
        d
    } else {
        recorded(recorded_all(d, ts.drop_last()), ts.last())
    }
}

/// The timing data of no responses at all.
pub open spec fn no_timing() -> TimingView {
    (Map::empty(), 0, 0, 0, 0)
}

/// The sum of the times `ts`.
pub open spec fn times_sum(ts: Seq<nat>) -> nat
    decreases ts.len(),
{
    if ts.len() == 0 {
        0
    } else {
        times_sum(ts.drop_last()) + ts.last()
    }
}

/// The longest of the times `ts`, zero when there are none.
pub open spec fn times_max(ts: Seq<nat>) -> nat
    decreases ts.len(),
{
    if ts.len() == 0 {
        0
    } else if ts.last() > times_max(ts.drop_last()) {
        ts.last()
    } else {
        times_max(ts.drop_last())
    }
}

/// The shortest of the times `ts` above zero, zero when there is none.
pub open spec fn times_min_above_zero(ts: Seq<nat>) -> nat
    decreases ts.len(),
{
    if ts.len() == 0 {
        0
    } else {
        let before = times_min_above_zero(ts.drop_last());
        if ts.last() > 0 && (before == 0 || ts.last() < before) {
            ts.last()
        } else {
            before
        }
    }
}

/// How many of the times `ts` are counted under the key `k`.
pub open spec fn rounded_count(ts: Seq<nat>, k: usize) -> nat
    decreases ts.len(),
{
    if ts.len() == 0 {
        0
    } else {
        rounded_count(ts.drop_last(), k) + if rounded_key(ts.last()) == k {
            1nat
        } else {
            0nat
        }
    }
}

proof fn lemma_rounded_count_bounded(ts: Seq<nat>, k: usize)
    ensures
        rounded_count(ts, k) <= ts.len(),
    decreases ts.len(),
{
    if ts.len() > 0 {
        lemma_rounded_count_bounded(ts.drop_last(), k);
    }
}

/// Law: timing data that recorded the times `ts`, one call after the other, from
/// none at all, counts `ts.len()` responses, totals their times, keeps the longest
/// time and the shortest time above zero, unrounded, and counts each time under
/// its rounded time (the largest `usize` where that does not fit).
pub proof fn lemma_recorded_all(ts: Seq<nat>)
    requires
        ts.len() <= usize::MAX,
    ensures
        recorded_all(no_timing(), ts).4 == ts.len(),
        recorded_all(no_timing(), ts).3 == times_sum(ts),
        recorded_all(no_timing(), ts).2 == times_max(ts),
        recorded_all(no_timing(), ts).1 == times_min_above_zero(ts),
        forall|k: usize| #[trigger] count_of(recorded_all(no_timing(), ts).0, k) == rounded_count(ts, k),
    decreases ts.len(),
{
    if ts.len() > 0 {
        let rest = ts.drop_last();
        lemma_recorded_all(rest);
        let prev = recorded_all(no_timing(), rest);
        assert forall|k: usize| #[trigger] count_of(recorded_all(no_timing(), ts).0, k) == rounded_count(ts, k) by {
            lemma_rounded_count_bounded(rest, k);
            assert(count_of(prev.0, k) == rounded_count(rest, k));
        }
    }
}

/// Recording `t` into `d` stays within the bounds of a `usize`.
pub open spec fn can_record(d: TimingView, t: nat) -> bool {
    &&& d.3 + t <= usize::MAX
    &&& d.4 + 1 <= usize::MAX
    &&& count_of(d.0, rounded_key(t)) + 1 <= usize::MAX
}

/// The rounded quotient of `t` by `unit`: `(t + unit / 2) / unit`, computed
/// without going past `t`.
fn rounded_quotient(t: usize, unit: usize) -> (q: usize)
    requires
        unit == 10 || unit == 100 || unit == 1000,
    ensures
        q == (t + unit / 2) / unit as int,
        q <= t,
{
    let q = t / unit;
    let r = t % unit;
    proof {
        vstd::arithmetic::div_mod::lemma_fundamental_div_mod(t as int, unit as int);
        assert((t + unit / 2) / unit as int == q + if r >= unit / 2 { 1int } else { 0 }) by (nonlinear_arith)
            requires
                t == unit * q + r,
                0 <= r < unit,
                unit == 10 || unit == 100 || unit == 1000,
        ;
        assert(q < t || (t < unit && q == 0)) by (nonlinear_arith)
            requires
                t == unit * q + r,
                0 <= r < unit,
                unit >= 10,
                q >= 0,
        ;
    }
    if r >= unit / 2 {
        q + 1
    } else {
        q
    }
}

/// Round a response time as `rounded_key` says: the largest `usize` stands for a
/// rounded time that does not fit in one.
pub fn round_time(t: usize) -> (r: usize)
    ensures
        r == rounded_key(t as nat),
{
    if t < 100 {
        t
    } else if t < 500 {
        rounded_quotient(t, 10) * 10
    } else if t < 1000 {
        rounded_quotient(t, 100) * 100
    } else {
        let q = rounded_quotient(t, 1000);
        match q.checked_mul(1000) {
            Some(v) => v,
            None => usize::MAX,
        }
    }
}

/// Add one to the count of `key` in a histogram.
fn increment_count(times: &mut BTreeMap<usize, usize>, key: usize)
    requires
        count_of(old(times)@, key) + 1 <= usize::MAX,
    ensures
        final(times)@ == old(times)@.insert(key, (count_of(old(times)@, key) + 1) as usize),
{
    proof {
        lemma_usize_keys_ordered();
    }
    let counter = match times.get(&key) {
        Some(c) => *c + 1,
        None => 1,
    };
    times.insert(key, counter);
}

impl GooseRequestMetricTimingData {
    /// Create new timing data: a copy of `metric_data` when given, otherwise empty.
    pub fn new(metric_data: Option<&GooseRequestMetricTimingData>) -> (d: Self)
        ensures
            d@ == match metric_data {
                Some(data) => data@,
                None => (Map::empty(), 0, 0, 0, 0),
            },
    {
        match metric_data {
            Some(data) => data.copy(),
            None => GooseRequestMetricTimingData {
                times: BTreeMap::new(),
                minimum_time: 0,
                maximum_time: 0,
                total_time: 0,
                counter: 0,
            },
        }
    }

    /// A copy of this timing data.
    pub fn copy(&self) -> (d: Self)
        ensures
            d@ == self@,
    {
        GooseRequestMetricTimingData {
            times: self.times.clone(),
            minimum_time: self.minimum_time,
            maximum_time: self.maximum_time,
            total_time: self.total_time,
            counter: self.counter,
        }
    }

    /// Record a new time.
    pub fn record_time(&mut self, time_elapsed: u64)
        requires
            time_elapsed <= usize::MAX,
            can_record(old(self)@, time_elapsed as nat),
        ensures
            final(self)@ == recorded(old(self)@, time_elapsed as nat),
    {
        let time = time_elapsed as usize;
        if time > 0 && (self.minimum_time == 0 || time < self.minimum_time) {
            self.minimum_time = time;
        }
        if time > self.maximum_time {
            self.maximum_time = time;
        }
        self.total_time = self.total_time + time;
        self.counter = self.counter + 1;
        let rounded = round_time(time);
        increment_count(&mut self.times, rounded);
    }
}

/// The raw request that a user makes, included in the metrics of the request.
#[derive(Debug)]
pub struct GooseRawRequest {
    /// The method being used (ie, Get, Post, etc).
    pub method: GooseMethod,
    /// The full URL that was requested.
    pub url: String,
    /// Any headers set by the client when making the request.
    pub headers: Vec<String>,
    /// The body of the request made, if `--request-body` is enabled.
    pub body: String,
}

impl GooseRawRequest {
    /// A raw request made with `method` to `url`.
    pub fn new(method: GooseMethod, url: &str, headers: Vec<String>, body: &str) -> (r: GooseRawRequest)
        ensures
            r.method == method,
            r.url@ == url@,
            r.headers == headers,
            r.body@ == body@,
    {
        GooseRawRequest { method, url: url.to_string(), headers, body: body.to_string() }
    }
}

/// The metrics of one request, which a user sends to be aggregated.
#[derive(Debug)]
pub struct GooseRequestMetric {
    /// How many milliseconds the load test has been running.
    pub elapsed: u64,
    /// The raw request that the user made.
    pub raw: GooseRawRequest,
    /// The optional name of the request.
    pub name: String,
    /// The final full URL that was requested, after redirects.
    pub final_url: String,
    /// Whether the request was redirected.
    pub redirected: bool,
    /// How many milliseconds the request took.
    pub response_time: u64,
    /// The HTTP response code, zero when there is none.
    pub status_code: u16,
    /// Whether or not the request was successful.
    pub success: bool,
    /// Whether or not this updates a previous request, which changes how it is recorded.
    pub update: bool,
    /// Which user made the request.
    pub user: usize,
    /// The optional error caused by this request.
    pub error: String,
    /// If non-zero, how long Coordinated Omission Mitigation found the upstream
    /// server to block requests.
    pub coordinated_omission_elapsed: u64,
    /// If non-zero, how long the user took to run all its transactions once.
    pub user_cadence: u64,
}

/// `b` is `a` but for the final URL, whether the request was redirected, the
/// response time and the status code.
pub open spec fn same_request(a: GooseRequestMetric, b: GooseRequestMetric) -> bool {
    &&& b.elapsed == a.elapsed
    &&& b.raw == a.raw
    &&& b.name == a.name
    &&& b.success == a.success
    &&& b.update == a.update
    &&& b.user == a.user
    &&& b.error == a.error
    &&& b.coordinated_omission_elapsed == a.coordinated_omission_elapsed
    &&& b.user_cadence == a.user_cadence
}

impl GooseRequestMetric {
    /// The metrics of a request made by `user` after `elapsed` milliseconds, with no
    /// response yet: successful, not an update, and no error.
    pub fn new(raw: GooseRawRequest, name: &str, elapsed: u128, user: usize) -> (m: Self)
        ensures
            m.elapsed == elapsed as u64,
            m.raw == raw,
            m.name@ == name@,
            m.final_url@ == ""@,
            !m.redirected,
            m.response_time == 0,
            m.status_code == 0,
            m.success,
            !m.update,
            m.user == user,
            m.error@ == ""@,
            m.coordinated_omission_elapsed == 0,
            m.user_cadence == 0,
    {
        proof {
            reveal_strlit("");
        }
        GooseRequestMetric {
            elapsed: elapsed as u64,
            raw,
            name: name.to_string(),
            final_url: "".to_string(),
            redirected: false,
            response_time: 0,
            status_code: 0,
            success: true,
            update: false,
            user,
            error: "".to_string(),
            coordinated_omission_elapsed: 0,
            user_cadence: 0,
        }
    }

    /// Record the final URL returned: a URL other than the one requested marks the
    /// request as redirected.
    pub fn set_final_url(&mut self, final_url: &str)
        ensures
            final(self).final_url@ == final_url@,
            final(self).redirected == (old(self).redirected || final_url@ != old(self).raw.url@),
            final(self).response_time == old(self).response_time,
            final(self).status_code == old(self).status_code,
            same_request(*old(self), *final(self)),
    {
        self.final_url = final_url.to_string();
        if self.final_url != self.raw.url {
            self.redirected = true;
        }
    }

    /// Record how long the request took, in milliseconds.
    pub fn set_response_time(&mut self, response_time: u128)
        ensures
            final(self).response_time == response_time as u64,
            final(self).final_url == old(self).final_url,
            final(self).redirected == old(self).redirected,
            final(self).status_code == old(self).status_code,
            same_request(*old(self), *final(self)),
    {
        self.response_time = response_time as u64;
    }

    /// Record the returned status code, zero when there is none.
    pub fn set_status_code(&mut self, status_code: Option<u16>)
        ensures
            status_code is None ==> final(self).status_code == 0,
            status_code is Some ==> final(self).status_code == status_code.unwrap(),
            final(self).final_url == old(self).final_url,
            final(self).redirected == old(self).redirected,
            final(self).response_time == old(self).response_time,
            same_request(*old(self), *final(self)),
    {
        self.status_code = match status_code {
            Some(status_code) => status_code,
            None => 0,
        };
    }
}

/// Metrics collected about a method-path pair, (for example `GET /index`).
#[derive(Debug)]
pub struct GooseRequestMetricAggregate {
    /// The request path for which metrics are being collected.
    pub path: String,
    /// The method for which metrics are being collected.
    pub method: GooseMethod,
    /// The raw data seen from actual requests.
    pub raw_data: GooseRequestMetricTimingData,
    /// Combines the raw data with statistically generated Coordinated Omission Metrics.
    pub coordinated_omission_data: Option<GooseRequestMetricTimingData>,
    /// Per-status-code counters, tracking how often each response code was returned.
    pub status_code_counts: HashMap<u16, usize>,
    /// Total number of times this request resulted in a successful (2xx) status code.
    pub success_count: usize,
    /// Total number of times this request resulted in a non-successful status code.
    pub fail_count: usize,
    /// Load test hash.
    pub load_test_hash: u64,
}

/// How often `code` was counted according to `m`: zero when it is not a key.
pub open spec fn code_count(m: Map<u16, usize>, code: u16) -> nat {
    if m.contains_key(code) {
        m[code] as nat
    } else {
        0
    }
}

/// The view of optional timing data.
pub open spec fn opt_view(d: Option<GooseRequestMetricTimingData>) -> Option<TimingView> {
    match d {
        Some(data) => Some(data@),
        None => None,
    }
}

/// The Coordinated Omission data after recording `t`: when present it records `t`;
/// when absent, a time generated by mitigation starts it from the raw data.
pub open spec fn co_recorded(co: Option<TimingView>, raw: TimingView, t: nat, mitigation: bool) -> Option<TimingView> {
    match co {
        Some(d) => Some(recorded(d, t)),
        None => if mitigation {
            Some(recorded(raw, t))
        } else {
            None
        },
    }
}

impl GooseRequestMetricAggregate {
    /// Create a new, empty aggregate.
    pub fn new(path: &str, method: GooseMethod, load_test_hash: u64) -> (a: Self)
        ensures
            a.path@ == path@,
            a.method == method,
            a.raw_data@ == (Map::<usize, usize>::empty(), 0nat, 0nat, 0nat, 0nat),
            a.coordinated_omission_data is None,
            a.status_code_counts@ == Map::<u16, usize>::empty(),
            a.success_count == 0,
            a.fail_count == 0,
            a.load_test_hash == load_test_hash,
    {
        GooseRequestMetricAggregate {
            path: path.to_string(),
            method,
            raw_data: GooseRequestMetricTimingData::new(None),
            coordinated_omission_data: None,
            status_code_counts: HashMap::new(),
            success_count: 0,
            fail_count: 0,
            load_test_hash,
        }
    }

    /// Record a response time.
    ///
    /// Times generated by Coordinated Omission Mitigation are not added to the raw
    /// data. The Coordinated Omission data records every time once it exists; the
    /// first generated time creates it from the raw data.
    pub fn record_time(&mut self, time_elapsed: u64, coordinated_omission_mitigation: bool)
        requires
            time_elapsed <= usize::MAX,
            !coordinated_omission_mitigation ==> can_record(old(self).raw_data@, time_elapsed as nat),
            match old(self).coordinated_omission_data {
                Some(d) => can_record(d@, time_elapsed as nat),
                None => coordinated_omission_mitigation ==> can_record(old(self).raw_data@, time_elapsed as nat),
            },
        ensures
            final(self).raw_data@ == if coordinated_omission_mitigation {
                old(self).raw_data@
            } else {
                recorded(old(self).raw_data@, time_elapsed as nat)
            },
            opt_view(final(self).coordinated_omission_data) == co_recorded(
                opt_view(old(self).coordinated_omission_data),
                old(self).raw_data@,
                time_elapsed as nat,
                coordinated_omission_mitigation,
            ),
            final(self).path == old(self).path,
            final(self).method == old(self).method,
            final(self).status_code_counts@ == old(self).status_code_counts@,
            final(self).success_count == old(self).success_count,
            final(self).fail_count == old(self).fail_count,
            final(self).load_test_hash == old(self).load_test_hash,
    {
        if !coordinated_omission_mitigation {
            self.raw_data.record_time(time_elapsed);
        }
        match self.coordinated_omission_data.take() {
            Some(mut coordinated_omission_data) => {
                coordinated_omission_data.record_time(time_elapsed);
                self.coordinated_omission_data = Some(coordinated_omission_data);
            },
            None => {
                if coordinated_omission_mitigation {
                    let mut coordinated_omission_data = self.raw_data.copy();
                    coordinated_omission_data.record_time(time_elapsed);
                    self.coordinated_omission_data = Some(coordinated_omission_data);
                }
            },
        }
    }

    /// Increment the counter for a status code, starting it at one the first time
    /// the code is seen.
    pub fn set_status_code(&mut self, status_code: u16)
        requires
            code_count(old(self).status_code_counts@, status_code) + 1 <= usize::MAX,
        ensures
            final(self).status_code_counts@ == old(self).status_code_counts@.insert(
                status_code,
                (code_count(old(self).status_code_counts@, status_code) + 1) as usize,
            ),
            final(self).raw_data@ == old(self).raw_data@,
            opt_view(final(self).coordinated_omission_data) == opt_view(old(self).coordinated_omission_data),
            final(self).path == old(self).path,
            final(self).method == old(self).method,
            final(self).success_count == old(self).success_count,
            final(self).fail_count == old(self).fail_count,
            final(self).load_test_hash == old(self).load_test_hash,
    {
        let counter = match self.status_code_counts.get(&status_code) {
            Some(c) => *c + 1,
            None => 1,
        };
        self.status_code_counts.insert(status_code, counter);
    }
}

/// A transaction time rounded so that similar times are counted together: times up
/// to 100ms are kept; times up to 500ms are rounded to the nearest 10ms; larger
/// times are divided by 100 (up to 1000ms) or by 1000, rounded, and counted in
/// tens, as the load tester stores them.
pub open spec fn rounded_transaction_time(t: nat) -> nat {
    if t <= 100 {
        t
    } else if t <= 500 {
        (t + 5) / 10 * 10
    } else if t <= 1000 {
        (t + 50) / 100 * 10
    } else {
        (t + 500) / 1000 * 10
    }
}

/// Aggregated per-transaction metrics updated each time a transaction is invoked.
#[derive(Debug)]
pub struct TransactionMetricAggregate {
    /// Which scenario this is.
    pub scenario_index: usize,
    /// The scenario name.
    pub scenario_name: String,
    /// Which transaction this is.
    pub transaction_index: usize,
    /// An optional name for the transaction.
    pub transaction_name: String,
    /// Per-run-time counters, after rounding (see `rounded_transaction_time`).
    pub times: BTreeMap<usize, usize>,
    /// The shortest run-time for this transaction.
    pub min_time: usize,
    /// The longest run-time for this transaction.
    pub max_time: usize,
    /// Total combined run-times for this transaction.
    pub total_time: usize,
    /// Total number of times transaction has run.
    pub counter: usize,
    /// Total number of times transaction has run successfully.
    pub success_count: usize,
    /// Total number of times transaction has failed.
    pub fail_count: usize,
}

/// What the metrics of a transaction hold, as plain values.
pub struct TransactionMetricView {
    pub scenario_index: usize,
    pub scenario_name: Seq<char>,
    pub transaction_index: usize,
    pub transaction_name: Seq<char>,
    pub times: Map<usize, usize>,
    pub min_time: usize,
    pub max_time: usize,
    pub total_time: usize,
    pub counter: usize,
    pub success_count: usize,
    pub fail_count: usize,
}

impl View for TransactionMetricAggregate {
    type V = TransactionMetricView;

    open spec fn view(&self) -> TransactionMetricView {
        TransactionMetricView {
            scenario_index: self.scenario_index,
            scenario_name: self.scenario_name@,
            transaction_index: self.transaction_index,
            transaction_name: self.transaction_name@,
            times: self.times@,
            min_time: self.min_time,
            max_time: self.max_time,
            total_time: self.total_time,
            counter: self.counter,
            success_count: self.success_count,
            fail_count: self.fail_count,
        }
    }
}

impl TransactionMetricAggregate {
    /// Create a new, empty TransactionMetricAggregate.
    pub fn new(
        scenario_index: usize,
        scenario_name: &str,
        transaction_index: usize,
        transaction_name: &str,
    ) -> (a: Self)
        ensures
            a.scenario_index == scenario_index,
            a.scenario_name@ == scenario_name@,
            a.transaction_index == transaction_index,
            a.transaction_name@ == transaction_name@,
            a.times@ == Map::<usize, usize>::empty(),
            a.min_time == 0,
            a.max_time == 0,
            a.total_time == 0,
            a.counter == 0,
            a.success_count == 0,
            a.fail_count == 0,
    {
        TransactionMetricAggregate {
            scenario_index,
            scenario_name: scenario_name.to_string(),
            transaction_index,
            transaction_name: transaction_name.to_string(),
            times: BTreeMap::new(),
            min_time: 0,
            max_time: 0,
            total_time: 0,
            counter: 0,
            success_count: 0,
            fail_count: 0,
        }
    }

    /// Track transaction function elapsed time in milliseconds.
    pub fn set_time(&mut self, time: u64, success: bool)
        requires
            old(self).total_time + time <= usize::MAX,
            old(self).counter + 1 <= usize::MAX,
            old(self).success_count + 1 <= usize::MAX,
            old(self).fail_count + 1 <= usize::MAX,
            count_of(old(self).times@, rounded_transaction_time(time as nat) as usize) + 1 <= usize::MAX,
        ensures
            final(self).min_time == if old(self).min_time == 0 || time < old(self).min_time {
                time as usize
            } else {
                old(self).min_time
            },
            final(self).max_time == if time > old(self).max_time {
                time as usize
            } else {
                old(self).max_time
            },
            final(self).total_time == old(self).total_time + time,
            final(self).counter == old(self).counter + 1,
            final(self).success_count == old(self).success_count + if success { 1int } else { 0 },
            final(self).fail_count == old(self).fail_count + if success { 0int } else { 1 },
            final(self).times@ == old(self).times@.insert(
                rounded_transaction_time(time as nat) as usize,
                (count_of(old(self).times@, rounded_transaction_time(time as nat) as usize) + 1) as usize,
            ),
            final(self).scenario_index == old(self).scenario_index,
            final(self).scenario_name == old(self).scenario_name,
            final(self).transaction_index == old(self).transaction_index,
            final(self).transaction_name == old(self).transaction_name,
    {
        let time_usize = time as usize;
        if self.min_time == 0 || time_usize < self.min_time {
            self.min_time = time_usize;
        }
        if time_usize > self.max_time {
            self.max_time = time_usize;
        }
        self.total_time = self.total_time + time_usize;
        self.counter = self.counter + 1;
        if success {
            self.success_count = self.success_count + 1;
        } else {
            self.fail_count = self.fail_count + 1;
        }
        let rounded_time = if time <= 100 {
            time_usize
        } else if time <= 500 {
            (time_usize + 5) / 10 * 10
        } else if time <= 1000 {
            rounded_quotient(time_usize, 100) * 10
        } else {
            rounded_quotient(time_usize, 1000) * 10
        };
        increment_count(&mut self.times, rounded_time);
    }
}

/// Aggregated errors: how often an error occurred for a method and request name.
#[derive(Debug)]
pub struct GooseErrorMetricAggregate {
    /// The method that resulted in an error.
    pub method: GooseMethod,
    /// The optional name of the request.
    pub name: String,
    /// The error string.
    pub error: String,
    /// A counter reflecting how many times this error occurred.
    pub occurrences: usize,
}

impl GooseErrorMetricAggregate {
    /// A new aggregate for an error that has not occurred yet.
    pub fn new(method: GooseMethod, name: String, error: String) -> (a: Self)
        ensures
            a.method == method,
            a.name == name,
            a.error == error,
            a.occurrences == 0,
    {
        GooseErrorMetricAggregate { method, name, error, occurrences: 0 }
    }
}

/// The minimum after seeing a local minimum `min`: zero stands for "none yet", so a
/// global zero is replaced and a local zero is ignored.
pub open spec fn updated_min(global_min: usize, min: usize) -> usize {
    if global_min == 0 || (min > 0 && min < global_min) {
        min
    } else {
        global_min
    }
}

/// The larger of the two maxima.
pub open spec fn updated_max(global_max: usize, max: usize) -> usize {
    if global_max < max {
        max
    } else {
        global_max
    }
}

/// A helper function to update the global minimum time based on local time.
pub fn update_min_time(global_min: usize, min: usize) -> (m: usize)
    ensures
        m == updated_min(global_min, min),
{
    let mut global_min = global_min;
    if global_min == 0 || (min > 0 && min < global_min) {
        global_min = min;
    }
    global_min
}

/// A helper function to update the global maximum time based on local time.
pub fn update_max_time(global_max: usize, max: usize) -> (m: usize)
    ensures
        m == updated_max(global_max, max),
{
    let mut global_max = global_max;
    if global_max < max {
        global_max = max;
    }
    global_max
}

} // verus!
