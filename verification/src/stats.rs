//! Statistics collected during a load test, and the tables made from them.

use std::collections::{BTreeMap, HashMap};
use vstd::prelude::*;

use crate::histogram::{
    half_of, lemma_running_totals_fit_below, median_of, merge_times, merged, mergeable, percentile_rank,
    rank_of, running_totals_fit, sorted_keys,
    time_at_percentile_rank, time_at_rank,
};
use crate::metrics::{update_max_time, update_min_time, updated_max, updated_min};
use crate::named::{insert_named, names_ordered, value_named};
use crate::text::{
    decimal, format_number, grouped_decimal, left_padded, padded, push_left_padded, push_padded,
    unsigned_text,
};
use crate::status_codes::{
    codes_mergeable, codes_text, lists_codes, merge_status_codes, merged_codes, prepare_status_codes,
};
use crate::util::{median, truncate_string, truncated};

verus! {

/// Statistics about one request name.
#[derive(Debug)]
pub struct GooseRequest {
    /// How many requests succeeded.
    pub success_count: usize,
    /// How many requests failed.
    pub fail_count: usize,
    /// Per-response-time counters.
    pub response_times: BTreeMap<usize, usize>,
    /// Total combined response times.
    pub total_response_time: usize,
    /// How many response times were counted.
    pub response_time_counter: usize,
    /// The shortest response time; zero while none was seen.
    pub min_response_time: usize,
    /// The longest response time.
    pub max_response_time: usize,
    /// Per-status-code counters.
    pub status_code_counts: HashMap<u16, usize>,
}

/// A helper function that merges together response times.
///
/// The counts of response times seen in both are added.
pub fn merge_response_times(
    global_response_times: BTreeMap<usize, usize>,
    local_response_times: BTreeMap<usize, usize>,
) -> (m: BTreeMap<usize, usize>)
    requires
        mergeable(global_response_times@, local_response_times@),
    ensures
        m@ == merged(global_response_times@, local_response_times@),
{
    merge_times(global_response_times, local_response_times)
}

/// Update global minimum response time based on local response time; zero stands
/// for "none yet".
pub fn update_min_response_time(global_min: usize, min: usize) -> (m: usize)
    ensures
        m == updated_min(global_min, min),
{
    update_min_time(global_min, min)
}

/// Update global maximum response time based on local response time.
pub fn update_max_response_time(global_max: usize, max: usize) -> (m: usize)
    ensures
        m == updated_max(global_max, max),
{
    update_max_time(global_max, max)
}

/// Get the response time that a certain share of the requests finished within: the
/// share is `per_myriad` ten-thousandths of `total_requests`, rounded to the nearest
/// request, and the time is kept within `min` and `max`; zero when the histogram
/// never reaches that many requests.
pub fn calculate_response_time_percentile(
    response_times: &BTreeMap<usize, usize>,
    total_requests: usize,
    min: usize,
    max: usize,
    per_myriad: u32,
) -> (t: usize)
    requires
        per_myriad <= 10000,
        running_totals_fit(
            response_times@,
            sorted_keys(response_times@.dom()),
            percentile_rank(total_requests as nat, per_myriad as nat),
            0,
        ),
    ensures
        t == time_at_rank(
            response_times@,
            percentile_rank(total_requests as nat, per_myriad as nat),
            min,
            max,
        ),
{
    let rank = rank_of(total_requests, per_myriad);
    time_at_percentile_rank(response_times, rank, min, max)
}

/// Statistics collected during a load test.
#[derive(Debug)]
pub struct GooseStats {
    /// A hash of the load test, useful to verify if different statistics are from
    /// the same load test.
    pub hash: u64,
    /// How many seconds the load test ran.
    pub duration: usize,
    /// Total number of users simulated during this load test.
    pub users: usize,
    /// Request statistics by request name, in the order of the names. The tables
    /// list requests in that order, so they are kept in it: a list of entries
    /// ordered by name, in which each name occurs once, says in its contracts what
    /// a table shows row by row.
    pub requests: Vec<(String, GooseRequest)>,
    /// Whether to display percentiles.
    pub display_percentile: bool,
    /// Whether to display status codes.
    pub display_status_codes: bool,
}

impl GooseStats {
    /// The statistics are well formed: their names are in increasing order.
    pub open spec fn wf(self) -> bool {
        names_ordered(self.requests@)
    }

    /// Statistics of a load test that has made no requests yet.
    pub fn new(hash: u64, duration: usize, users: usize, display_percentile: bool, display_status_codes: bool) -> (stats: Self)
        ensures
            stats.wf(),
            stats.hash == hash,
            stats.duration == duration,
            stats.users == users,
            stats.requests@.len() == 0,
            stats.display_percentile == display_percentile,
            stats.display_status_codes == display_status_codes,
    {
        GooseStats { hash, duration, users, requests: Vec::new(), display_percentile, display_status_codes }
    }

    /// Keep `request` under `name`, in place of what was kept under that name before;
    /// what other names find stays as it was.
    pub fn insert_request(&mut self, name: String, request: GooseRequest)
        requires
            old(self).wf(),
        ensures
            final(self).wf(),
            forall|k: Seq<char>| #[trigger] value_named(final(self).requests@, k) == if k == name@ {
                Some(request)
            } else {
                value_named(old(self).requests@, k)
            },
            final(self).hash == old(self).hash,
            final(self).duration == old(self).duration,
            final(self).users == old(self).users,
            final(self).display_percentile == old(self).display_percentile,
            final(self).display_status_codes == old(self).display_status_codes,
    {
        insert_named(&mut self.requests, name, request);
    }
}

/// The histograms of the entries merged together.
pub open spec fn times_of(rs: Seq<(String, GooseRequest)>) -> Map<usize, usize>
    decreases rs.len(),
{
    if rs.len() == 0 {
        Map::empty()
    } else {
        merged(times_of(rs.drop_last()), rs.last().1.response_times@)
    }
}

/// The total response times of the entries added together.
pub open spec fn total_time_of(rs: Seq<(String, GooseRequest)>) -> nat
    decreases rs.len(),
{
    if rs.len() == 0 {
        0
    } else {
        total_time_of(rs.drop_last()) + rs.last().1.total_response_time as nat
    }
}

/// The numbers of counted response times of the entries added together.
pub open spec fn counter_of(rs: Seq<(String, GooseRequest)>) -> nat
    decreases rs.len(),
{
    if rs.len() == 0 {
        0
    } else {
        counter_of(rs.drop_last()) + rs.last().1.response_time_counter as nat
    }
}

/// The shortest response time of the entries, zero standing for none.
pub open spec fn min_of(rs: Seq<(String, GooseRequest)>) -> usize
    decreases rs.len(),
{
    if rs.len() == 0 {
        0
    } else {
        updated_min(min_of(rs.drop_last()), rs.last().1.min_response_time)
    }
}

/// The longest response time of the entries.
pub open spec fn max_of(rs: Seq<(String, GooseRequest)>) -> usize
    decreases rs.len(),
{
    if rs.len() == 0 {
        0
    } else {
        updated_max(max_of(rs.drop_last()), rs.last().1.max_response_time)
    }
}

/// The entries can be aggregated one after the other without overflow: their
/// histograms merge, and their totals and counters add up within a `usize`.
pub open spec fn aggregable(rs: Seq<(String, GooseRequest)>) -> bool
    decreases rs.len(),
{
    rs.len() == 0 || {
        &&& aggregable(rs.drop_last())
        &&& mergeable(times_of(rs.drop_last()), rs.last().1.response_times@)
        &&& total_time_of(rs) <= usize::MAX
        &&& counter_of(rs) <= usize::MAX
    }
}

/// What can be aggregated can be aggregated up to any point.
proof fn lemma_aggregable_prefix(rs: Seq<(String, GooseRequest)>, k: int)
    requires
        aggregable(rs),
        0 <= k <= rs.len(),
    ensures
        aggregable(rs.take(k)),
    decreases rs.len(),
{
    if k == rs.len() {
        assert(rs.take(k) =~= rs);
    } else {
        assert(rs.drop_last().take(k) =~= rs.take(k));
        lemma_aggregable_prefix(rs.drop_last(), k);
    }
}

/// The running aggregate of request statistics.
struct Aggregate {
    times: BTreeMap<usize, usize>,
    total: usize,
    counter: usize,
    min: usize,
    max: usize,
}

impl Aggregate {
    spec fn of(self, rs: Seq<(String, GooseRequest)>) -> bool {
        &&& self.times@ == times_of(rs)
        &&& self.total == total_time_of(rs)
        &&& self.counter == counter_of(rs)
        &&& self.min == min_of(rs)
        &&& self.max == max_of(rs)
    }

    fn new() -> (a: Self)
        ensures
            a.of(Seq::empty()),
    {
        Aggregate { times: BTreeMap::new(), total: 0, counter: 0, min: 0, max: 0 }
    }

    /// Add the statistics of the entry `i` of `rs`, having added those before it.
    fn add(&mut self, Ghost(rs): Ghost<Seq<(String, GooseRequest)>>, Ghost(i): Ghost<int>, request: &GooseRequest)
        requires
            old(self).of(rs.take(i)),
            0 <= i < rs.len(),
            rs[i].1 == *request,
            aggregable(rs),
        ensures
            final(self).of(rs.take(i + 1)),
    {
        proof {
            lemma_aggregable_prefix(rs, i + 1);
            assert(rs.take(i + 1).drop_last() =~= rs.take(i));
        }
        let mut times = BTreeMap::new();
        std::mem::swap(&mut times, &mut self.times);
        self.times = merge_response_times(times, request.response_times.clone());
        self.total = self.total + request.total_response_time;
        self.counter = self.counter + request.response_time_counter;
        self.min = update_min_response_time(self.min, request.min_response_time);
        self.max = update_max_response_time(self.max, request.max_response_time);
    }
}

/// The first lines of the response time table.
pub const RESPONSE_TIMES_HEAD: &'static str = "-------------------------------------------------------------------------------\n Name                    | Avg (ms)   | Min        | Max        | Median    \n ----------------------------------------------------------------------------- \n";

/// The line above the aggregated row of the response time table.
pub const RESPONSE_TIMES_SEPARATOR: &'static str = " ------------------------+------------+------------+------------+------------- \n";

/// A row of the response time table.
pub open spec fn response_times_row(name: Seq<char>, average: nat, min: nat, max: nat, median: nat) -> Seq<char> {
    " "@ + padded(name, 23) + " | "@ + padded(decimal(average), 10) + " | "@ + padded(decimal(min), 10)
        + " | "@ + padded(decimal(max), 10) + " | "@ + padded(decimal(median), 10) + "\n"@
}

/// The row of one request name in the response time table.
pub open spec fn request_times_row(entry: (String, GooseRequest)) -> Seq<char> {
    let r = entry.1;
    response_times_row(
        truncated(entry.0@, 23),
        (r.total_response_time / r.response_time_counter) as nat,
        r.min_response_time as nat,
        r.max_response_time as nat,
        median_of(r.response_times@, r.response_time_counter as nat, r.min_response_time, r.max_response_time) as nat,
    )
}

/// The rows of the response time table, one per request name.
pub open spec fn request_times_rows(rs: Seq<(String, GooseRequest)>) -> Seq<char>
    decreases rs.len(),
{
    if rs.len() == 0 {
        Seq::empty()
    } else {
        request_times_rows(rs.drop_last()) + request_times_row(rs.last())
    }
}

/// At least one, so that it can divide.
pub open spec fn at_least_one(n: nat) -> nat {
    if n == 0 {
        1
    } else {
        n
    }
}

/// The response time table: nothing without requests; else a row per request name
/// and, with more than one name, an aggregated row.
pub open spec fn response_times_table(rs: Seq<(String, GooseRequest)>) -> Seq<char> {
    if rs.len() == 0 {
        Seq::empty()
    } else {
        RESPONSE_TIMES_HEAD@ + request_times_rows(rs) + if rs.len() > 1 {
            RESPONSE_TIMES_SEPARATOR@ + response_times_row(
                "Aggregated"@,
                total_time_of(rs) / at_least_one(counter_of(rs)),
                min_of(rs) as nat,
                max_of(rs) as nat,
                median_of(times_of(rs), at_least_one(counter_of(rs)), min_of(rs), max_of(rs)) as nat,
            )
        } else {
            Seq::empty()
        }
    }
}

/// Append a row of the response time table.
fn push_response_times_row(out: &mut String, name: &str, average: usize, min: usize, max: usize, median: usize)
    ensures
        final(out)@ == old(out)@ + response_times_row(name@, average as nat, min as nat, max as nat, median as nat),
{
    out.append(" ");
    push_padded(out, name, 23);
    out.append(" | ");
    let t = unsigned_text(average as u128);
    push_padded(out, t.as_str(), 10);
    out.append(" | ");
    let t = unsigned_text(min as u128);
    push_padded(out, t.as_str(), 10);
    out.append(" | ");
    let t = unsigned_text(max as u128);
    push_padded(out, t.as_str(), 10);
    out.append(" | ");
    let t = unsigned_text(median as u128);
    push_padded(out, t.as_str(), 10);
    out.append("\n");
}

impl GooseStats {
    /// Optionally prepares a table of response times: per request name the average,
    /// shortest, longest and median response time, and with more than one name the
    /// same over all of them.
    pub fn fmt_response_times(&self) -> (s: String)
        requires
            self.wf(),
            forall|i: int| 0 <= i < self.requests@.len() ==> (#[trigger] self.requests@[i]).1.response_time_counter > 0,
            forall|i: int| 0 <= i < self.requests@.len() ==> running_totals_fit(
                (#[trigger] self.requests@[i]).1.response_times@,
                sorted_keys(self.requests@[i].1.response_times@.dom()),
                half_of(self.requests@[i].1.response_time_counter as nat),
                0,
            ),
            aggregable(self.requests@),
            self.requests@.len() > 1 ==> running_totals_fit(
                times_of(self.requests@),
                sorted_keys(times_of(self.requests@).dom()),
                half_of(at_least_one(counter_of(self.requests@))),
                0,
            ),
        ensures
            s@ == response_times_table(self.requests@),
    {
        let ghost rs = self.requests@;
        if self.requests.len() == 0 {
            return String::new();
        }
        let mut aggregate = Aggregate::new();
        let mut s = String::from_str(RESPONSE_TIMES_HEAD);
        let mut i: usize = 0;
        proof {
            assert(rs.take(0) =~= Seq::<(String, GooseRequest)>::empty());
        }
        while i < self.requests.len()
            invariant
                rs == self.requests@,
                i <= rs.len(),
                aggregate.of(rs.take(i as int)),
                s@ == RESPONSE_TIMES_HEAD@ + request_times_rows(rs.take(i as int)),
                forall|i: int| 0 <= i < rs.len() ==> (#[trigger] rs[i]).1.response_time_counter > 0,
                forall|i: int| 0 <= i < rs.len() ==> running_totals_fit(
                    (#[trigger] rs[i]).1.response_times@,
                    sorted_keys(rs[i].1.response_times@.dom()),
                    half_of(rs[i].1.response_time_counter as nat),
                    0,
                ),
                aggregable(rs),
            decreases rs.len() - i,
        {
            let (name, request) = &self.requests[i];
            aggregate.add(Ghost(rs), Ghost(i as int), request);
            let shown = truncate_string(name.as_str(), 23);
            let median_time = median(
                &request.response_times,
                request.response_time_counter,
                request.min_response_time,
                request.max_response_time,
            );
            push_response_times_row(
                &mut s,
                shown.as_str(),
                request.total_response_time / request.response_time_counter,
                request.min_response_time,
                request.max_response_time,
                median_time,
            );
            proof {
                assert(rs.take(i + 1).drop_last() =~= rs.take(i as int));
            }
            i = i + 1;
        }
        proof {
            assert(rs.take(rs.len() as int) =~= rs);
        }
        if self.requests.len() > 1 {
            s.append(RESPONSE_TIMES_SEPARATOR);
            let counter = if aggregate.counter == 0 {
                1
            } else {
                aggregate.counter
            };
            let median_time = median(&aggregate.times, counter, aggregate.min, aggregate.max);
            push_response_times_row(
                &mut s,
                "Aggregated",
                aggregate.total / counter,
                aggregate.min,
                aggregate.max,
                median_time,
            );
        }
        s
    }
}

/// The first lines of the percentile table.
pub const PERCENTILES_HEAD: &'static str = "-------------------------------------------------------------------------------\n Slowest page load within specified percentile of requests (in ms):\n ------------------------------------------------------------------------------\n Name                    | 50%    | 75%    | 98%    | 99%    | 99.9%  | 99.99%\n ----------------------------------------------------------------------------- \n";

/// The line above the aggregated row of the percentile table.
pub const PERCENTILES_SEPARATOR: &'static str = " ------------------------+--------+--------+--------+--------+--------+------- \n";

/// A row of the percentile table; the last column is aligned to the right.
pub open spec fn percentiles_row(name: Seq<char>, p50: nat, p75: nat, p98: nat, p99: nat, p999: nat, last: nat) -> Seq<char> {
    percentiles_row_start(name, p50, p75, p98) + percentiles_row_end(p99, p999, last)
}

/// The name and the first three columns of a row of the percentile table.
pub open spec fn percentiles_row_start(name: Seq<char>, p50: nat, p75: nat, p98: nat) -> Seq<char> {
    " "@ + padded(name, 23) + " | "@ + padded(decimal(p50), 6) + " | "@ + padded(decimal(p75), 6) + " | "@
        + padded(decimal(p98), 6)
}

/// The last three columns of a row of the percentile table.
pub open spec fn percentiles_row_end(p99: nat, p999: nat, last: nat) -> Seq<char> {
    " | "@ + padded(decimal(p99), 6) + " | "@ + padded(decimal(p999), 6) + " | "@ + left_padded(decimal(last), 6)
        + "\n"@
}

/// The response time within which `per_myriad` ten-thousandths of `total` requests
/// finished, kept within `min` and `max`.
pub open spec fn percentile_of(m: Map<usize, usize>, total: nat, min: usize, max: usize, per_myriad: nat) -> nat {
    time_at_rank(m, percentile_rank(total, per_myriad), min, max) as nat
}

/// The row of one request name in the percentile table: its last column repeats
/// the 99.9th percentile, as the load tester computes it.
pub open spec fn request_percentiles_row(entry: (String, GooseRequest)) -> Seq<char> {
    let r = entry.1;
    let m = r.response_times@;
    let n = r.response_time_counter as nat;
    let (lo, hi) = (r.min_response_time, r.max_response_time);
    percentiles_row(
        truncated(entry.0@, 23),
        percentile_of(m, n, lo, hi, 5000),
        percentile_of(m, n, lo, hi, 7500),
        percentile_of(m, n, lo, hi, 9800),
        percentile_of(m, n, lo, hi, 9900),
        percentile_of(m, n, lo, hi, 9990),
        percentile_of(m, n, lo, hi, 9990),
    )
}

/// The rows of the percentile table, one per request name.
pub open spec fn request_percentiles_rows(rs: Seq<(String, GooseRequest)>) -> Seq<char>
    decreases rs.len(),
{
    if rs.len() == 0 {
        Seq::empty()
    } else {
        request_percentiles_rows(rs.drop_last()) + request_percentiles_row(rs.last())
    }
}

/// The percentile table: nothing unless percentiles are displayed; else a row per
/// request name and, with more than one name, an aggregated row.
pub open spec fn percentiles_table(display_percentile: bool, rs: Seq<(String, GooseRequest)>) -> Seq<char> {
    if !display_percentile {
        Seq::empty()
    } else {
        let m = times_of(rs);
        let n = counter_of(rs);
        let (lo, hi) = (min_of(rs), max_of(rs));
        PERCENTILES_HEAD@ + request_percentiles_rows(rs) + if rs.len() > 1 {
            PERCENTILES_SEPARATOR@ + percentiles_row(
                "Aggregated"@,
                percentile_of(m, n, lo, hi, 5000),
                percentile_of(m, n, lo, hi, 7500),
                percentile_of(m, n, lo, hi, 9800),
                percentile_of(m, n, lo, hi, 9900),
                percentile_of(m, n, lo, hi, 9990),
                percentile_of(m, n, lo, hi, 9999),
            )
        } else {
            Seq::empty()
        }
    }
}

/// The percentile of a histogram whose running totals fit up to the rank of a
/// larger share.
pub(crate) fn percentile_below(
    times: &BTreeMap<usize, usize>,
    total: usize,
    min: usize,
    max: usize,
    per_myriad: u32,
    Ghost(bound): Ghost<nat>,
) -> (t: usize)
    requires
        per_myriad <= bound <= 10000,
        running_totals_fit(times@, sorted_keys(times@.dom()), percentile_rank(total as nat, bound), 0),
    ensures
        t == percentile_of(times@, total as nat, min, max, per_myriad as nat),
{
    proof {
        assert(total * per_myriad + 5000 <= total * bound + 5000) by (nonlinear_arith)
            requires
                per_myriad <= bound,
        ;
        vstd::arithmetic::div_mod::lemma_div_is_ordered(
            total * per_myriad + 5000,
            total * bound + 5000,
            10000,
        );
        lemma_running_totals_fit_below(
            times@,
            sorted_keys(times@.dom()),
            percentile_rank(total as nat, per_myriad as nat),
            percentile_rank(total as nat, bound),
            0,
        );
    }
    calculate_response_time_percentile(times, total, min, max, per_myriad)
}

fn push_percentiles_row_start(out: &mut String, name: &str, p50: usize, p75: usize, p98: usize)
    ensures
        final(out)@ == old(out)@ + percentiles_row_start(name@, p50 as nat, p75 as nat, p98 as nat),
{
    out.append(" ");
    push_padded(out, name, 23);
    out.append(" | ");
    let t = unsigned_text(p50 as u128);
    push_padded(out, t.as_str(), 6);
    out.append(" | ");
    let t = unsigned_text(p75 as u128);
    push_padded(out, t.as_str(), 6);
    out.append(" | ");
    let t = unsigned_text(p98 as u128);
    push_padded(out, t.as_str(), 6);
}

fn push_percentiles_row_end(out: &mut String, p99: usize, p999: usize, last: usize)
    ensures
        final(out)@ == old(out)@ + percentiles_row_end(p99 as nat, p999 as nat, last as nat),
{
    out.append(" | ");
    let t = unsigned_text(p99 as u128);
    push_padded(out, t.as_str(), 6);
    out.append(" | ");
    let t = unsigned_text(p999 as u128);
    push_padded(out, t.as_str(), 6);
    out.append(" | ");
    let t = unsigned_text(last as u128);
    push_left_padded(out, t.as_str(), 6);
    out.append("\n");
}

/// Append a row of the percentile table.
fn push_percentiles_row(out: &mut String, name: &str, p50: usize, p75: usize, p98: usize, p99: usize, p999: usize, last: usize)
    ensures
        final(out)@ == old(out)@ + percentiles_row(name@, p50 as nat, p75 as nat, p98 as nat, p99 as nat, p999 as nat, last as nat),
{
    push_percentiles_row_start(out, name, p50, p75, p98);
    push_percentiles_row_end(out, p99, p999, last);
    proof {
        assert(out@ =~= old(out)@ + percentiles_row(name@, p50 as nat, p75 as nat, p98 as nat, p99 as nat, p999 as nat, last as nat));
    }
}

impl GooseStats {
    /// Optionally prepares a table of the slowest response time within several
    /// percentiles of the requests, per request name and, with more than one name,
    /// over all of them.
    pub fn fmt_percentiles(&self) -> (s: String)
        requires
            self.wf(),
            self.display_percentile ==> forall|i: int| 0 <= i < self.requests@.len() ==> running_totals_fit(
                (#[trigger] self.requests@[i]).1.response_times@,
                sorted_keys(self.requests@[i].1.response_times@.dom()),
                percentile_rank(self.requests@[i].1.response_time_counter as nat, 9990),
                0,
            ),
            self.display_percentile ==> aggregable(self.requests@),
            self.display_percentile && self.requests@.len() > 1 ==> running_totals_fit(
                times_of(self.requests@),
                sorted_keys(times_of(self.requests@).dom()),
                percentile_rank(counter_of(self.requests@), 9999),
                0,
            ),
        ensures
            s@ == percentiles_table(self.display_percentile, self.requests@),
    {
        let ghost rs = self.requests@;
        if !self.display_percentile {
            return String::new();
        }
        let mut aggregate = Aggregate::new();
        let mut s = String::from_str(PERCENTILES_HEAD);
        let mut i: usize = 0;
        proof {
            assert(rs.take(0) =~= Seq::<(String, GooseRequest)>::empty());
        }
        while i < self.requests.len()
            invariant
                rs == self.requests@,
                i <= rs.len(),
                aggregate.of(rs.take(i as int)),
                s@ == PERCENTILES_HEAD@ + request_percentiles_rows(rs.take(i as int)),
                forall|i: int| 0 <= i < rs.len() ==> running_totals_fit(
                    (#[trigger] rs[i]).1.response_times@,
                    sorted_keys(rs[i].1.response_times@.dom()),
                    percentile_rank(rs[i].1.response_time_counter as nat, 9990),
                    0,
                ),
                aggregable(rs),
            decreases rs.len() - i,
        {
            let entry = &self.requests[i];
            let name = &entry.0;
            let request = &entry.1;
            aggregate.add(Ghost(rs), Ghost(i as int), request);
            let shown = truncate_string(name.as_str(), 23);
            let times = &request.response_times;
            let n = request.response_time_counter;
            let (lo, hi) = (request.min_response_time, request.max_response_time);
            let p50 = percentile_below(times, n, lo, hi, 5000, Ghost(9990));
            let p75 = percentile_below(times, n, lo, hi, 7500, Ghost(9990));
            let p98 = percentile_below(times, n, lo, hi, 9800, Ghost(9990));
            let p99 = percentile_below(times, n, lo, hi, 9900, Ghost(9990));
            let p999 = percentile_below(times, n, lo, hi, 9990, Ghost(9990));
            push_percentiles_row(&mut s, shown.as_str(), p50, p75, p98, p99, p999, p999);
            proof {
                assert(rs.take(i + 1).drop_last() =~= rs.take(i as int));
            }
            i = i + 1;
        }
        proof {
            assert(rs.take(rs.len() as int) =~= rs);
        }
        if self.requests.len() > 1 {
            s.append(PERCENTILES_SEPARATOR);
            let times = &aggregate.times;
            let n = aggregate.counter;
            let (lo, hi) = (aggregate.min, aggregate.max);
            let p50 = percentile_below(times, n, lo, hi, 5000, Ghost(9999));
            let p75 = percentile_below(times, n, lo, hi, 7500, Ghost(9999));
            let p98 = percentile_below(times, n, lo, hi, 9800, Ghost(9999));
            let p99 = percentile_below(times, n, lo, hi, 9900, Ghost(9999));
            let p999 = percentile_below(times, n, lo, hi, 9990, Ghost(9999));
            let p9999 = percentile_below(times, n, lo, hi, 9999, Ghost(9999));
            push_percentiles_row(&mut s, "Aggregated", p50, p75, p98, p99, p999, p9999);
        }
        s
    }
}

/// Requests and failures per second over `duration` seconds, grouped by thousands;
/// both zero when no time has passed.
pub open spec fn per_second_texts(duration: nat, total: nat, fail: nat) -> (Seq<char>, Seq<char>) {
    if duration == 0 {
        (grouped_decimal(0), grouped_decimal(0))
    } else {
        (grouped_decimal(total / duration), grouped_decimal(fail / duration))
    }
}

/// Helper to calculate requests and fails per second, in whole numbers.
pub fn per_second_calculations(duration: usize, total: usize, fail: usize) -> (r: (String, String))
    ensures
        (r.0@, r.1@) == per_second_texts(duration as nat, total as nat, fail as nat),
{
    if duration == 0 {
        (format_number(0), format_number(0))
    } else {
        (format_number(total / duration), format_number(fail / duration))
    }
}

/// The status codes of the entries merged together.
pub open spec fn codes_of(rs: Seq<(String, GooseRequest)>) -> Map<u16, usize>
    decreases rs.len(),
{
    if rs.len() == 0 {
        Map::empty()
    } else {
        merged_codes(codes_of(rs.drop_last()), rs.last().1.status_code_counts@)
    }
}

/// The status codes of the entries can be merged one after the other without overflow.
pub open spec fn codes_aggregable(rs: Seq<(String, GooseRequest)>) -> bool
    decreases rs.len(),
{
    rs.len() == 0 || (codes_aggregable(rs.drop_last()) && codes_mergeable(
        codes_of(rs.drop_last()),
        rs.last().1.status_code_counts@,
    ))
}

proof fn lemma_codes_aggregable_prefix(rs: Seq<(String, GooseRequest)>, k: int)
    requires
        codes_aggregable(rs),
        0 <= k <= rs.len(),
    ensures
        codes_aggregable(rs.take(k)),
    decreases rs.len(),
{
    if k == rs.len() {
        assert(rs.take(k) =~= rs);
    } else {
        assert(rs.drop_last().take(k) =~= rs.take(k));
        lemma_codes_aggregable_prefix(rs.drop_last(), k);
    }
}

/// The first lines of the status code table.
pub const STATUS_CODES_HEAD: &'static str = "-------------------------------------------------------------------------------\n Name                    | Status codes              \n ----------------------------------------------------------------------------- \n";

/// The line above the aggregated row of the status code table.
pub const STATUS_CODES_SEPARATOR: &'static str = "-------------------------------------------------------------------------------\n";

/// The rows of the status code table, one per request name, each listing the codes
/// as `listings` gives them.
pub open spec fn status_code_rows(rs: Seq<(String, GooseRequest)>, listings: Seq<Seq<(u16, usize)>>) -> Seq<char>
    decreases rs.len(),
{
    if rs.len() == 0 || listings.len() != rs.len() {
        Seq::empty()
    } else {
        status_code_rows(rs.drop_last(), listings.drop_last()) + " "@ + padded(truncated(rs.last().0@, 23), 23)
            + " | "@ + padded(codes_text(listings.last()), 25) + "\n"@
    }
}

/// The status code table, with the codes of each row listed as `listings` gives
/// them and the aggregated codes as `aggregated` gives them.
pub open spec fn status_codes_table(
    rs: Seq<(String, GooseRequest)>,
    listings: Seq<Seq<(u16, usize)>>,
    aggregated: Seq<(u16, usize)>,
) -> Seq<char> {
    STATUS_CODES_HEAD@ + status_code_rows(rs, listings) + STATUS_CODES_SEPARATOR@ + " "@ + padded(
        "Aggregated"@,
        23,
    ) + " | "@ + padded(codes_text(aggregated), 25) + " \n"@
}

/// Each listing lists the codes of its entry.
pub open spec fn listings_of(rs: Seq<(String, GooseRequest)>, listings: Seq<Seq<(u16, usize)>>) -> bool {
    listings.len() == rs.len() && forall|i: int| 0 <= i < rs.len() ==> lists_codes(#[trigger] listings[i], rs[i].1.status_code_counts@)
}

impl GooseStats {
    /// Optionally prepares a table of response status codes: per request name its
    /// codes with their counts, and then the codes of all requests added together.
    /// The codes of a row are listed in the order in which their map gives them,
    /// which is not fixed.
    pub fn fmt_status_codes(&self) -> (s: String)
        requires
            self.display_status_codes ==> codes_aggregable(self.requests@),
        ensures
            !self.display_status_codes ==> s@.len() == 0,
            self.display_status_codes ==> exists|listings: Seq<Seq<(u16, usize)>>, aggregated: Seq<(u16, usize)>|
                {
                    &&& listings_of(self.requests@, listings)
                    &&& lists_codes(aggregated, codes_of(self.requests@))
                    &&& s@ == status_codes_table(self.requests@, listings, aggregated)
                },
    {
        let ghost rs = self.requests@;
        if !self.display_status_codes {
            return String::new();
        }
        let mut s = String::from_str(STATUS_CODES_HEAD);
        let mut aggregated_status_code_counts: HashMap<u16, usize> = HashMap::new();
        let ghost mut listings: Seq<Seq<(u16, usize)>> = Seq::empty();
        let mut i: usize = 0;
        proof {
            assert(rs.take(0) =~= Seq::<(String, GooseRequest)>::empty());
            lemma_codes_aggregable_prefix(rs, 0);
        }
        while i < self.requests.len()
            invariant
                rs == self.requests@,
                i <= rs.len(),
                codes_aggregable(rs),
                aggregated_status_code_counts@ == codes_of(rs.take(i as int)),
                listings_of(rs.take(i as int), listings),
                s@ == STATUS_CODES_HEAD@ + status_code_rows(rs.take(i as int), listings),
            decreases rs.len() - i,
        {
            let entry = &self.requests[i];
            let codes = prepare_status_codes(&entry.1.status_code_counts);
            let ghost listing = choose|kvs: Seq<(u16, usize)>| lists_codes(kvs, entry.1.status_code_counts@) && codes@ == codes_text(kvs);
            proof {
                lemma_codes_aggregable_prefix(rs, i + 1);
                assert(rs.take(i + 1).drop_last() =~= rs.take(i as int));
            }
            merge_status_codes(&mut aggregated_status_code_counts, &entry.1.status_code_counts);
            let shown = truncate_string(entry.0.as_str(), 23);
            s.append(" ");
            push_padded(&mut s, shown.as_str(), 23);
            s.append(" | ");
            push_padded(&mut s, codes.as_str(), 25);
            s.append("\n");
            proof {
                let ghost before = listings;
                listings = listings.push(listing);
                assert(listings.drop_last() =~= before);
                assert forall|j: int| 0 <= j < i + 1 implies lists_codes(#[trigger] listings[j], rs.take(i + 1)[j].1.status_code_counts@) by {
                    if j < i {
                        assert(rs.take(i + 1)[j] == rs.take(i as int)[j]);
                    }
                }
            }
            i = i + 1;
        }
        proof {
            assert(rs.take(rs.len() as int) =~= rs);
        }
        s.append(STATUS_CODES_SEPARATOR);
        let codes = prepare_status_codes(&aggregated_status_code_counts);
        let ghost aggregated = choose|kvs: Seq<(u16, usize)>| lists_codes(kvs, aggregated_status_code_counts@) && codes@ == codes_text(kvs);
        s.append(" ");
        push_padded(&mut s, "Aggregated", 23);
        s.append(" | ");
        push_padded(&mut s, codes.as_str(), 25);
        s.append(" \n");
        proof {
            assert(listings_of(rs, listings));
            assert(lists_codes(aggregated, codes_of(rs)));
            assert(s@ =~= status_codes_table(rs, listings, aggregated));
        }
        s
    }
}

} // verus!
