//! All metrics of a load test, and the tables made of them.

use std::collections::{BTreeMap, HashMap};
use vstd::prelude::*;

use crate::histogram::{
    lemma_running_totals_fit_below, merged, mergeable, percentile_rank, running_totals_fit, sorted_keys,
    time_at_rank,
};
use crate::metrics::{
    opt_view, update_max_time, update_min_time, updated_max, updated_min, GooseErrorMetricAggregate,
    GooseRequestMetricAggregate, GooseRequestMetricTimingData, TimingView, TransactionMetricAggregate,
    TransactionMetricView,
};
use crate::manager::{
    error_merged, merge_errors_from_worker, merge_requests_from_worker, merge_transactions_from_worker,
    request_merge_fits, request_merged, transaction_merge_fits, transaction_merged,
};
use crate::named::{find_named, insert_named, names_distinct, names_ordered, value_named};
use crate::stats::{calculate_response_time_percentile, merge_response_times};
use crate::status_codes::{
    codes_mergeable, codes_text, lists_codes, merge_status_codes, merged_codes, prepare_status_codes,
};
use crate::goose::{method_text, GooseMethod, Scenario, Transaction};
use crate::text::{
    compare_text, format_number, grouped_decimal, left_padded, lemma_text_less_transitive, lemma_text_less_trichotomy,
    decimal, padded, push_left_padded, push_padded, string_from_chars, text_less, unsigned_text, TextOrder,
};
use crate::util::chars_of;
use crate::report::{get_response_metric, percentile_text, ResponseMetric, StatusCodeMetric};
use crate::metrics::dashboard::{failures_total, requests_total};
use crate::util::{median, truncate_string, truncated};
use crate::histogram::{half_of, histogram_total, lemma_percentiles_ordered, median_of};

verus! {

/// All metrics optionally collected during a Goose load test.
#[derive(Debug)]
pub struct GooseMetrics {
    /// A hash of the load test, primarily used to validate all Workers in a Gaggle
    /// are running the same load test.
    pub hash: u64,
    /// Total number of seconds the load test ran.
    pub duration: usize,
    /// Total number of users simulated during this load test.
    pub users: usize,
    /// Details about each request, by request name in the order of the names. The
    /// tables and the report list requests in that order, so they are kept in it:
    /// a list of entries ordered by name, in which each name occurs once.
    pub requests: Vec<(String, GooseRequestMetricAggregate)>,
    /// Details about each transaction, per scenario.
    pub transactions: Vec<Vec<TransactionMetricAggregate>>,
    /// Each error detected during the load test, by error key in the order of the keys.
    pub errors: Vec<(String, GooseErrorMetricAggregate)>,
    /// All hosts that the load test is run against.
    pub hosts: Vec<String>,
    /// Whether these are the final metrics, which decides what is displayed.
    pub final_metrics: bool,
    /// Whether to display status codes.
    pub display_status_codes: bool,
    /// Whether to display metrics.
    pub display_metrics: bool,
}

/// The timing data a section of a table reads from a request: the raw data, or
/// the data adjusted for Coordinated Omission, which not every request has.
pub open spec fn section_timing(r: GooseRequestMetricAggregate, co: bool) -> Option<TimingView> {
    if co {
        opt_view(r.coordinated_omission_data)
    } else {
        Some(r.raw_data@)
    }
}

/// The histograms of a section merged together.
pub open spec fn section_times(rs: Seq<(String, GooseRequestMetricAggregate)>, co: bool) -> Map<usize, usize>
    decreases rs.len(),
{
    if rs.len() == 0 {
        Map::empty()
    } else {
        match section_timing(rs.last().1, co) {
            Some(t) => merged(section_times(rs.drop_last(), co), t.0),
            None => section_times(rs.drop_last(), co),
        }
    }
}

/// The total times of a section added together.
pub open spec fn section_total(rs: Seq<(String, GooseRequestMetricAggregate)>, co: bool) -> nat
    decreases rs.len(),
{
    if rs.len() == 0 {
        0
    } else {
        match section_timing(rs.last().1, co) {
            Some(t) => section_total(rs.drop_last(), co) + t.3,
            None => section_total(rs.drop_last(), co),
        }
    }
}

/// The counters of a section added together.
pub open spec fn section_counter(rs: Seq<(String, GooseRequestMetricAggregate)>, co: bool) -> nat
    decreases rs.len(),
{
    if rs.len() == 0 {
        0
    } else {
        match section_timing(rs.last().1, co) {
            Some(t) => section_counter(rs.drop_last(), co) + t.4,
            None => section_counter(rs.drop_last(), co),
        }
    }
}

/// The fastest time of a section, zero standing for none.
pub open spec fn section_min(rs: Seq<(String, GooseRequestMetricAggregate)>, co: bool) -> usize
    decreases rs.len(),
{
    if rs.len() == 0 {
        0
    } else {
        match section_timing(rs.last().1, co) {
            Some(t) => updated_min(section_min(rs.drop_last(), co), t.1 as usize),
            None => section_min(rs.drop_last(), co),
        }
    }
}

/// The slowest time of a section.
pub open spec fn section_max(rs: Seq<(String, GooseRequestMetricAggregate)>, co: bool) -> usize
    decreases rs.len(),
{
    if rs.len() == 0 {
        0
    } else {
        match section_timing(rs.last().1, co) {
            Some(t) => updated_max(section_max(rs.drop_last(), co), t.2 as usize),
            None => section_max(rs.drop_last(), co),
        }
    }
}

/// The timing data of a section can be aggregated one request after the other
/// without overflow.
pub open spec fn section_aggregable(rs: Seq<(String, GooseRequestMetricAggregate)>, co: bool) -> bool
    decreases rs.len(),
{
    rs.len() == 0 || {
        &&& section_aggregable(rs.drop_last(), co)
        &&& match section_timing(rs.last().1, co) {
            Some(t) => mergeable(section_times(rs.drop_last(), co), t.0),
            None => true,
        }
        &&& section_total(rs, co) <= usize::MAX
        &&& section_counter(rs, co) <= usize::MAX
    }
}

proof fn lemma_section_aggregable_prefix(rs: Seq<(String, GooseRequestMetricAggregate)>, co: bool, k: int)
    requires
        section_aggregable(rs, co),
        0 <= k <= rs.len(),
    ensures
        section_aggregable(rs.take(k), co),
    decreases rs.len(),
{
    if k == rs.len() {
        assert(rs.take(k) =~= rs);
    } else {
        assert(rs.drop_last().take(k) =~= rs.take(k));
        lemma_section_aggregable_prefix(rs.drop_last(), co, k);
    }
}

/// The running aggregate of a section.
pub(crate) struct SectionAggregate {
    pub(crate) times: BTreeMap<usize, usize>,
    pub(crate) total: usize,
    pub(crate) counter: usize,
    pub(crate) min: usize,
    pub(crate) max: usize,
}

impl SectionAggregate {
    pub(crate) open spec fn of(self, rs: Seq<(String, GooseRequestMetricAggregate)>, co: bool) -> bool {
        &&& self.times@ == section_times(rs, co)
        &&& self.total == section_total(rs, co)
        &&& self.counter == section_counter(rs, co)
        &&& self.min == section_min(rs, co)
        &&& self.max == section_max(rs, co)
    }

    pub(crate) fn new(Ghost(co): Ghost<bool>) -> (a: Self)
        ensures
            a.of(Seq::empty(), co),
    {
        SectionAggregate { times: BTreeMap::new(), total: 0, counter: 0, min: 0, max: 0 }
    }

    /// Add the timing data of the entry `i` of `rs`, having added those before it.
    pub(crate) fn add(
        &mut self,
        Ghost(rs): Ghost<Seq<(String, GooseRequestMetricAggregate)>>,
        Ghost(co): Ghost<bool>,
        Ghost(i): Ghost<int>,
        data: &GooseRequestMetricTimingData,
    )
        requires
            old(self).of(rs.take(i), co),
            0 <= i < rs.len(),
            section_timing(rs[i].1, co) == Some(data@),
            section_aggregable(rs, co),
        ensures
            final(self).of(rs.take(i + 1), co),
    {
        proof {
            lemma_section_aggregable_prefix(rs, co, i + 1);
            assert(rs.take(i + 1).drop_last() =~= rs.take(i));
        }
        let mut times = BTreeMap::new();
        std::mem::swap(&mut times, &mut self.times);
        self.times = merge_response_times(times, data.times.clone());
        self.total = self.total + data.total_time;
        self.counter = self.counter + data.counter;
        self.min = update_min_time(self.min, data.minimum_time);
        self.max = update_max_time(self.max, data.maximum_time);
    }
}

/// The first lines of the percentile table.
pub const METRICS_PERCENTILES_HEAD: &'static str = " ------------------------------------------------------------------------------\n Slowest page load within specified percentile of requests (in ms):\n ------------------------------------------------------------------------------\n Name                     |    50% |    75% |    98% |    99% |  99.9% | 99.99%\n ------------------------------------------------------------------------------\n";

/// The first lines of the part of the percentile table adjusted for Coordinated Omission.
pub const METRICS_CO_PERCENTILES_HEAD: &'static str = " ------------------------------------------------------------------------------\n Adjusted for Coordinated Omission:\n ------------------------------------------------------------------------------\n Name                     |    50% |    75% |    98% |    99% |  99.9% | 99.99%\n ------------------------------------------------------------------------------\n";

/// The line above an aggregated row of the percentile table.
pub const METRICS_PERCENTILES_SEPARATOR: &'static str = " -------------------------+--------+--------+--------+--------+--------+-------\n";

/// One column of the percentile table: the time within which `per_myriad`
/// ten-thousandths of the requests finished, grouped by thousands.
#[verifier::opaque]
pub open spec fn percentile_cell(t: TimingView, per_myriad: nat) -> Seq<char> {
    " | "@ + left_padded(
        grouped_decimal(time_at_rank(t.0, percentile_rank(t.4, per_myriad), t.1 as usize, t.2 as usize) as nat),
        6,
    )
}

/// A row of the percentile table, its columns aligned to the right.
pub open spec fn metrics_percentiles_row(name: Seq<char>, t: TimingView) -> Seq<char> {
    " "@ + padded(name, 24) + percentile_cells(t) + "\n"@
}

/// The six columns of a row of the percentile table.
pub open spec fn percentile_cells(t: TimingView) -> Seq<char> {
    percentile_cell(t, 5000) + percentile_cell(t, 7500) + percentile_cell(t, 9800) + (percentile_cell(t, 9900)
        + percentile_cell(t, 9990) + percentile_cell(t, 9999))
}

/// A row of a request that has no data in a section.
pub open spec fn metrics_missing_row(name: Seq<char>) -> Seq<char> {
    " "@ + padded(name, 24) + " |      - |      - |      - |      - |      - |      -\n"@
}

/// The rows of a section, one per request name.
pub open spec fn section_rows(rs: Seq<(String, GooseRequestMetricAggregate)>, co: bool) -> Seq<char>
    decreases rs.len(),
{
    if rs.len() == 0 {
        Seq::empty()
    } else {
        section_rows(rs.drop_last(), co) + match section_timing(rs.last().1, co) {
            Some(t) => metrics_percentiles_row(truncated(rs.last().0@, 24), t),
            None => metrics_missing_row(truncated(rs.last().0@, 24)),
        }
    }
}

/// The aggregated timing data of a section.
pub open spec fn section_view(rs: Seq<(String, GooseRequestMetricAggregate)>, co: bool) -> TimingView {
    (
        section_times(rs, co),
        section_min(rs, co) as nat,
        section_max(rs, co) as nat,
        section_total(rs, co),
        section_counter(rs, co),
    )
}

/// A section of the percentile table: a row per request name and, with more than
/// one name, an aggregated row.
pub open spec fn percentile_section(rs: Seq<(String, GooseRequestMetricAggregate)>, co: bool) -> Seq<char> {
    section_rows(rs, co) + if rs.len() > 1 {
        METRICS_PERCENTILES_SEPARATOR@ + metrics_percentiles_row("Aggregated"@, section_view(rs, co))
    } else {
        Seq::empty()
    }
}

/// Some request has data adjusted for Coordinated Omission.
pub open spec fn has_co_data(rs: Seq<(String, GooseRequestMetricAggregate)>) -> bool {
    exists|i: int| 0 <= i < rs.len() && (#[trigger] rs[i]).1.coordinated_omission_data is Some
}

/// The percentile table: nothing but in the final metrics; then the raw section,
/// and the section adjusted for Coordinated Omission when some request has such data.
pub open spec fn metrics_percentiles_table(final_metrics: bool, rs: Seq<(String, GooseRequestMetricAggregate)>) -> Seq<char> {
    if !final_metrics {
        Seq::empty()
    } else {
        METRICS_PERCENTILES_HEAD@ + percentile_section(rs, false) + if has_co_data(rs) {
            METRICS_CO_PERCENTILES_HEAD@ + percentile_section(rs, true)
        } else {
            Seq::empty()
        }
    }
}

/// The walks over a section's histograms fit up to the rank they go farthest to.
pub open spec fn section_fits(rs: Seq<(String, GooseRequestMetricAggregate)>, co: bool) -> bool {
    &&& forall|i: int| 0 <= i < rs.len() ==> match section_timing(#[trigger] rs[i].1, co) {
        Some(t) => running_totals_fit(t.0, sorted_keys(t.0.dom()), percentile_rank(t.4, 9999), 0),
        None => true,
    }
    &&& section_aggregable(rs, co)
    &&& rs.len() > 1 ==> running_totals_fit(
        section_times(rs, co),
        sorted_keys(section_times(rs, co).dom()),
        percentile_rank(section_counter(rs, co), 9999),
        0,
    )
}

/// One formatted column of the percentile table.
fn push_percentile_cell(
    out: &mut String,
    times: &BTreeMap<usize, usize>,
    total: usize,
    counter: usize,
    min: usize,
    max: usize,
    per_myriad: u32,
)
    requires
        per_myriad <= 9999,
        running_totals_fit(times@, sorted_keys(times@.dom()), percentile_rank(counter as nat, 9999), 0),
    ensures
        final(out)@ == old(out)@ + percentile_cell((times@, min as nat, max as nat, total as nat, counter as nat), per_myriad as nat),
{
    reveal(percentile_cell);
    proof {
        assert(counter * per_myriad + 5000 <= counter * 9999 + 5000) by (nonlinear_arith)
            requires
                per_myriad <= 9999,
        ;
        vstd::arithmetic::div_mod::lemma_div_is_ordered(counter * per_myriad + 5000, counter * 9999 + 5000, 10000);
        lemma_running_totals_fit_below(
            times@,
            sorted_keys(times@.dom()),
            percentile_rank(counter as nat, per_myriad as nat),
            percentile_rank(counter as nat, 9999),
            0,
        );
    }
    let t = calculate_response_time_percentile(times, counter, min, max, per_myriad);
    let text = format_number(t);
    out.append(" | ");
    push_left_padded(out, text.as_str(), 6);
}

/// The six columns of a row of the percentile table.
fn push_percentile_cells(out: &mut String, times: &BTreeMap<usize, usize>, total: usize, counter: usize, min: usize, max: usize)
    requires
        running_totals_fit(times@, sorted_keys(times@.dom()), percentile_rank(counter as nat, 9999), 0),
    ensures
        final(out)@ == old(out)@ + percentile_cells((times@, min as nat, max as nat, total as nat, counter as nat)),
{
    let ghost t = (times@, min as nat, max as nat, total as nat, counter as nat);
    let ghost start = out@;
    push_percentile_cell(out, times, total, counter, min, max, 5000);
    push_percentile_cell(out, times, total, counter, min, max, 7500);
    push_percentile_cell(out, times, total, counter, min, max, 9800);
    let ghost middle = out@;
    push_percentile_cell(out, times, total, counter, min, max, 9900);
    push_percentile_cell(out, times, total, counter, min, max, 9990);
    push_percentile_cell(out, times, total, counter, min, max, 9999);
    proof {
        assert(middle =~= start + (percentile_cell(t, 5000) + percentile_cell(t, 7500) + percentile_cell(t, 9800)));
        assert(out@ =~= middle + (percentile_cell(t, 9900) + percentile_cell(t, 9990) + percentile_cell(t, 9999)));
        assert(out@ =~= start + percentile_cells(t));
    }
}

/// A row of the percentile table.
fn push_metrics_percentiles_row(
    out: &mut String,
    name: &str,
    times: &BTreeMap<usize, usize>,
    total: usize,
    counter: usize,
    min: usize,
    max: usize,
)
    requires
        running_totals_fit(times@, sorted_keys(times@.dom()), percentile_rank(counter as nat, 9999), 0),
    ensures
        final(out)@ == old(out)@ + metrics_percentiles_row(name@, (times@, min as nat, max as nat, total as nat, counter as nat)),
{
    let ghost t = (times@, min as nat, max as nat, total as nat, counter as nat);
    let ghost start = out@;
    out.append(" ");
    push_padded(out, name, 24);
    push_percentile_cells(out, times, total, counter, min, max);
    out.append("\n");
    proof {
        assert(out@ =~= start + metrics_percentiles_row(name@, t));
    }
}

impl GooseMetrics {
    /// Metrics of a load test that has recorded nothing yet.
    pub fn new(hash: u64) -> (m: Self)
        ensures
            m.hash == hash,
            m.duration == 0,
            m.users == 0,
            m.requests@.len() == 0,
            m.transactions@.len() == 0,
            m.errors@.len() == 0,
            m.hosts@.len() == 0,
            !m.final_metrics,
            !m.display_status_codes,
            m.display_metrics,
    {
        GooseMetrics {
            hash,
            duration: 0,
            users: 0,
            requests: Vec::new(),
            transactions: Vec::new(),
            errors: Vec::new(),
            hosts: Vec::new(),
            final_metrics: false,
            display_status_codes: false,
            display_metrics: true,
        }
    }

    /// The metrics are well formed: request names and error keys are in order.
    pub open spec fn wf(self) -> bool {
        names_ordered(self.requests@) && names_ordered(self.errors@)
    }

    /// Keep `request` under its request name `name`, in place of what was kept
    /// under that name before.
    pub fn insert_request(&mut self, name: String, request: GooseRequestMetricAggregate)
        requires
            names_ordered(old(self).requests@),
        ensures
            names_ordered(final(self).requests@),
            forall|k: Seq<char>| #[trigger] value_named(final(self).requests@, k) == if k == name@ {
                Some(request)
            } else {
                value_named(old(self).requests@, k)
            },
            final(self).errors@ == old(self).errors@,
            final(self).final_metrics == old(self).final_metrics,
    {
        insert_named(&mut self.requests, name, request);
    }

    /// Append one section of the percentile table.
    fn push_percentile_section(&self, out: &mut String, co: bool)
        requires
            section_fits(self.requests@, co),
        ensures
            final(out)@ == old(out)@ + percentile_section(self.requests@, co),
    {
        let ghost rs = self.requests@;
        let ghost start = out@;
        let mut aggregate = SectionAggregate::new(Ghost(co));
        let mut i: usize = 0;
        proof {
            assert(rs.take(0) =~= Seq::<(String, GooseRequestMetricAggregate)>::empty());
        }
        while i < self.requests.len()
            invariant
                rs == self.requests@,
                i <= rs.len(),
                section_fits(rs, co),
                aggregate.of(rs.take(i as int), co),
                out@ == start + section_rows(rs.take(i as int), co),
            decreases rs.len() - i,
        {
            let entry = &self.requests[i];
            let shown = truncate_string(entry.0.as_str(), 24);
            let data: Option<&GooseRequestMetricTimingData> = if co {
                match &entry.1.coordinated_omission_data {
                    Some(d) => Some(d),
                    None => None,
                }
            } else {
                Some(&entry.1.raw_data)
            };
            proof {
                assert(rs.take(i + 1).drop_last() =~= rs.take(i as int));
                assert(rs.take(i + 1).last() == rs[i as int]);
                assert(match section_timing(rs[i as int].1, co) {
                    Some(t) => running_totals_fit(t.0, sorted_keys(t.0.dom()), percentile_rank(t.4, 9999), 0),
                    None => true,
                });
            }
            match data {
                Some(d) => {
                    aggregate.add(Ghost(rs), Ghost(co), Ghost(i as int), d);
                    push_metrics_percentiles_row(
                        out,
                        shown.as_str(),
                        &d.times,
                        d.total_time,
                        d.counter,
                        d.minimum_time,
                        d.maximum_time,
                    );
                },
                None => {
                    proof {
                        assert(aggregate.of(rs.take(i + 1), co));
                    }
                    out.append(" ");
                    push_padded(out, shown.as_str(), 24);
                    out.append(" |      - |      - |      - |      - |      - |      -\n");
                },
            }
            i = i + 1;
        }
        proof {
            assert(rs.take(rs.len() as int) =~= rs);
        }
        if self.requests.len() > 1 {
            out.append(METRICS_PERCENTILES_SEPARATOR);
            push_metrics_percentiles_row(
                out,
                "Aggregated",
                &aggregate.times,
                aggregate.total,
                aggregate.counter,
                aggregate.min,
                aggregate.max,
            );
        }
    }

    /// Optionally prepares a table of the slowest response times within several
    /// percentiles: only for the final metrics, with the raw data and, when some
    /// request has them, the times adjusted for Coordinated Omission.
    pub fn fmt_percentiles(&self) -> (s: String)
        requires
            self.wf(),
            self.final_metrics ==> section_fits(self.requests@, false),
            self.final_metrics && has_co_data(self.requests@) ==> section_fits(self.requests@, true),
        ensures
            s@ == metrics_percentiles_table(self.final_metrics, self.requests@),
    {
        if !self.final_metrics {
            return String::new();
        }
        let ghost rs = self.requests@;
        let mut s = String::from_str(METRICS_PERCENTILES_HEAD);
        self.push_percentile_section(&mut s, false);
        let mut co_data = false;
        let mut i: usize = 0;
        while i < self.requests.len()
            invariant
                rs == self.requests@,
                i <= rs.len(),
                co_data <==> exists|j: int| 0 <= j < i && (#[trigger] rs[j]).1.coordinated_omission_data is Some,
            decreases rs.len() - i,
        {
            if self.requests[i].1.coordinated_omission_data.is_some() {
                co_data = true;
            }
            i = i + 1;
        }
        if co_data {
            s.append(METRICS_CO_PERCENTILES_HEAD);
            self.push_percentile_section(&mut s, true);
        }
        s
    }
}

/// The status codes of the requests merged together.
pub open spec fn request_codes(rs: Seq<(String, GooseRequestMetricAggregate)>) -> Map<u16, usize>
    decreases rs.len(),
{
    if rs.len() == 0 {
        Map::empty()
    } else {
        merged_codes(request_codes(rs.drop_last()), rs.last().1.status_code_counts@)
    }
}

/// The status codes of the requests can be merged one after the other without overflow.
pub open spec fn request_codes_aggregable(rs: Seq<(String, GooseRequestMetricAggregate)>) -> bool
    decreases rs.len(),
{
    rs.len() == 0 || (request_codes_aggregable(rs.drop_last()) && codes_mergeable(
        request_codes(rs.drop_last()),
        rs.last().1.status_code_counts@,
    ))
}

proof fn lemma_request_codes_aggregable_prefix(rs: Seq<(String, GooseRequestMetricAggregate)>, k: int)
    requires
        request_codes_aggregable(rs),
        0 <= k <= rs.len(),
    ensures
        request_codes_aggregable(rs.take(k)),
    decreases rs.len(),
{
    if k == rs.len() {
        assert(rs.take(k) =~= rs);
    } else {
        assert(rs.drop_last().take(k) =~= rs.take(k));
        lemma_request_codes_aggregable_prefix(rs.drop_last(), k);
    }
}

/// The first lines of the status code table.
pub const METRICS_STATUS_CODES_HEAD: &'static str = " ------------------------------------------------------------------------------\n Name                     |                                        Status codes \n ------------------------------------------------------------------------------\n";

/// The line above the aggregated row of the status code table.
pub const METRICS_STATUS_CODES_SEPARATOR: &'static str = " -------------------------+----------------------------------------------------\n";

/// The rows of the status code table, the codes of each listed as `listings` gives them.
pub open spec fn request_code_rows(rs: Seq<(String, GooseRequestMetricAggregate)>, listings: Seq<Seq<(u16, usize)>>) -> Seq<char>
    decreases rs.len(),
{
    if rs.len() == 0 || listings.len() != rs.len() {
        Seq::empty()
    } else {
        request_code_rows(rs.drop_last(), listings.drop_last()) + " "@ + padded(truncated(rs.last().0@, 24), 24)
            + " | "@ + left_padded(codes_text(listings.last()), 51) + "\n"@
    }
}

/// The status code table, with the codes of each row listed as `listings` gives
/// them and the aggregated codes as `aggregated` gives them.
pub open spec fn metrics_status_codes_table(
    rs: Seq<(String, GooseRequestMetricAggregate)>,
    listings: Seq<Seq<(u16, usize)>>,
    aggregated: Seq<(u16, usize)>,
) -> Seq<char> {
    METRICS_STATUS_CODES_HEAD@ + request_code_rows(rs, listings) + METRICS_STATUS_CODES_SEPARATOR@ + " "@ + padded(
        "Aggregated"@,
        24,
    ) + " | "@ + left_padded(codes_text(aggregated), 51) + " \n"@
}

/// Each listing lists the codes of its request.
pub open spec fn request_listings(rs: Seq<(String, GooseRequestMetricAggregate)>, listings: Seq<Seq<(u16, usize)>>) -> bool {
    listings.len() == rs.len() && forall|i: int| 0 <= i < rs.len() ==> lists_codes(#[trigger] listings[i], rs[i].1.status_code_counts@)
}

impl GooseMetrics {
    /// Optionally prepares a table of response status codes: per request name its
    /// codes with their counts, then the codes of all requests added together. The
    /// codes of a row are listed in the order in which their map gives them, which
    /// is not fixed.
    #[verifier::spinoff_prover]
    #[verifier::rlimit(40)]
    pub fn fmt_status_codes(&self) -> (s: String)
        requires
            self.display_status_codes ==> request_codes_aggregable(self.requests@),
        ensures
            !self.display_status_codes ==> s@.len() == 0,
            self.display_status_codes ==> exists|listings: Seq<Seq<(u16, usize)>>, aggregated: Seq<(u16, usize)>|
                {
                    &&& request_listings(self.requests@, listings)
                    &&& lists_codes(aggregated, request_codes(self.requests@))
                    &&& s@ == metrics_status_codes_table(self.requests@, listings, aggregated)
                },
    {
        let ghost rs = self.requests@;
        if !self.display_status_codes {
            return String::new();
        }
        let mut s = String::from_str(METRICS_STATUS_CODES_HEAD);
        let mut aggregated_status_code_counts: HashMap<u16, usize> = HashMap::new();
        let ghost mut listings: Seq<Seq<(u16, usize)>> = Seq::empty();
        let mut i: usize = 0;
        proof {
            assert(rs.take(0) =~= Seq::<(String, GooseRequestMetricAggregate)>::empty());
        }
        while i < self.requests.len()
            invariant
                rs == self.requests@,
                i <= rs.len(),
                request_codes_aggregable(rs),
                aggregated_status_code_counts@ == request_codes(rs.take(i as int)),
                request_listings(rs.take(i as int), listings),
                s@ == METRICS_STATUS_CODES_HEAD@ + request_code_rows(rs.take(i as int), listings),
            decreases rs.len() - i,
        {
            let entry = &self.requests[i];
            let codes = prepare_status_codes(&entry.1.status_code_counts);
            let ghost listing = choose|kvs: Seq<(u16, usize)>| lists_codes(kvs, entry.1.status_code_counts@) && codes@ == codes_text(kvs);
            proof {
                lemma_request_codes_aggregable_prefix(rs, i + 1);
                assert(rs.take(i + 1).drop_last() =~= rs.take(i as int));
            }
            merge_status_codes(&mut aggregated_status_code_counts, &entry.1.status_code_counts);
            let shown = truncate_string(entry.0.as_str(), 24);
            s.append(" ");
            push_padded(&mut s, shown.as_str(), 24);
            s.append(" | ");
            push_left_padded(&mut s, codes.as_str(), 51);
            s.append("\n");
            proof {
                let ghost before = listings;
                listings = listings.push(listing);
                assert(listings.drop_last() =~= before);
                assert forall|j: int| 0 <= j < i + 1 implies lists_codes(#[trigger] listings[j], rs.take(i + 1)[j].1.status_code_counts@) by {
                    if j < i {
                        assert(rs.take(i + 1)[j] == rs.take(i as int)[j]);
                    }
                }
            }
            i = i + 1;
        }
        proof {
            assert(rs.take(rs.len() as int) =~= rs);
        }
        s.append(METRICS_STATUS_CODES_SEPARATOR);
        let codes = prepare_status_codes(&aggregated_status_code_counts);
        let ghost aggregated = choose|kvs: Seq<(u16, usize)>| lists_codes(kvs, aggregated_status_code_counts@) && codes@ == codes_text(kvs);
        s.append(" ");
        push_padded(&mut s, "Aggregated", 24);
        s.append(" | ");
        push_left_padded(&mut s, codes.as_str(), 51);
        s.append(" \n");
        proof {
            assert(request_listings(rs, listings));
            assert(lists_codes(aggregated, request_codes(rs)));
            assert(s@ =~= metrics_status_codes_table(rs, listings, aggregated));
        }
        s
    }
}

/// Each worker entry that the manager already has can be merged into it.
pub open spec fn requests_mergeable(
    base: Seq<(String, GooseRequestMetricAggregate)>,
    worker: Seq<(String, GooseRequestMetricAggregate)>,
    status_codes: bool,
) -> bool {
    forall|j: int| 0 <= j < worker.len() ==> match value_named(base, (#[trigger] worker[j]).0@) {
        Some(p) => request_merge_fits(p, worker[j].1, status_codes),
        None => true,
    }
}

/// What the manager keeps under a worker entry's name after merging it: the entry
/// merged into what it had, or the entry itself when it had nothing there.
pub open spec fn request_after_merge(
    after: Option<GooseRequestMetricAggregate>,
    before: Option<GooseRequestMetricAggregate>,
    entry: GooseRequestMetricAggregate,
    status_codes: bool,
) -> bool {
    match after {
        Some(r) => match before {
            Some(p) => request_merged(r, p, entry, status_codes),
            None => r == entry,
        },
        None => false,
    }
}

/// Each worker error that the manager already has can be added to it.
pub open spec fn errors_mergeable(
    base: Seq<(String, GooseErrorMetricAggregate)>,
    worker: Seq<(String, GooseErrorMetricAggregate)>,
) -> bool {
    forall|j: int| 0 <= j < worker.len() ==> match value_named(base, (#[trigger] worker[j]).0@) {
        Some(p) => p.occurrences + worker[j].1.occurrences <= usize::MAX,
        None => true,
    }
}

/// What the manager keeps under a worker error's key after merging it.
pub open spec fn error_after_merge(
    after: Option<GooseErrorMetricAggregate>,
    before: Option<GooseErrorMetricAggregate>,
    entry: GooseErrorMetricAggregate,
) -> bool {
    match after {
        Some(r) => match before {
            Some(p) => error_merged(r, p, entry),
            None => r == entry,
        },
        None => false,
    }
}

/// `k` is the name of one of the entries of `rs` from position `from` on.
pub open spec fn name_among<V>(rs: Seq<(String, V)>, from: int, k: Seq<char>) -> bool {
    exists|j: int| from <= j < rs.len() && (#[trigger] rs[j]).0@ == k
}

/// A table of transaction metrics, scenario by scenario, as plain values.
pub open spec fn transactions_view(t: Seq<Vec<TransactionMetricAggregate>>) -> Seq<Seq<TransactionMetricView>> {
    t.map_values(|row: Vec<TransactionMetricAggregate>| row@.map_values(|m: TransactionMetricAggregate| m@))
}

/// The table after merging in `us` one after the other, each into the cell that
/// its scenario index and transaction index name.
pub open spec fn table_after_merges(
    table: Seq<Seq<TransactionMetricView>>,
    us: Seq<TransactionMetricView>,
) -> Seq<Seq<TransactionMetricView>>
    decreases us.len(),
{
    if us.len() == 0 {
        table
    } else {
        let prev = table_after_merges(table, us.drop_last());
        let u = us.last();
        let s = u.scenario_index as int;
        let i = u.transaction_index as int;
        prev.update(s, prev[s].update(i, transaction_merged(prev[s][i], u)))
    }
}

/// Each of `us`, merged in turn, names a cell of the table and fits in it.
pub open spec fn merges_fit(table: Seq<Seq<TransactionMetricView>>, us: Seq<TransactionMetricView>) -> bool
    decreases us.len(),
{
    if us.len() == 0 {
        true
    } else {
        let prev = table_after_merges(table, us.drop_last());
        let u = us.last();
        &&& merges_fit(table, us.drop_last())
        &&& u.scenario_index < prev.len()
        &&& u.transaction_index < prev[u.scenario_index as int].len()
        &&& transaction_merge_fits(prev[u.scenario_index as int][u.transaction_index as int], u)
    }
}

/// The table after merging in the rows of `rows`, one row after the other.
pub open spec fn table_after_rows(
    table: Seq<Seq<TransactionMetricView>>,
    rows: Seq<Seq<TransactionMetricView>>,
) -> Seq<Seq<TransactionMetricView>>
    decreases rows.len(),
{
    if rows.len() == 0 {
        table
    } else {
        table_after_merges(table_after_rows(table, rows.drop_last()), rows.last())
    }
}

/// Every row of `rows`, merged in turn, fits.
pub open spec fn rows_fit(table: Seq<Seq<TransactionMetricView>>, rows: Seq<Seq<TransactionMetricView>>) -> bool
    decreases rows.len(),
{
    if rows.len() == 0 {
        true
    } else {
        rows_fit(table, rows.drop_last()) && merges_fit(table_after_rows(table, rows.drop_last()), rows.last())
    }
}

proof fn lemma_merges_fit_prefix(table: Seq<Seq<TransactionMetricView>>, us: Seq<TransactionMetricView>, k: int)
    requires
        merges_fit(table, us),
        0 <= k <= us.len(),
    ensures
        merges_fit(table, us.take(k)),
    decreases us.len(),
{
    if k == us.len() {
        assert(us.take(k) =~= us);
    } else {
        assert(us.take(k) =~= us.drop_last().take(k));
        lemma_merges_fit_prefix(table, us.drop_last(), k);
    }
}

proof fn lemma_rows_fit_prefix(table: Seq<Seq<TransactionMetricView>>, rows: Seq<Seq<TransactionMetricView>>, k: int)
    requires
        rows_fit(table, rows),
        0 <= k <= rows.len(),
    ensures
        rows_fit(table, rows.take(k)),
    decreases rows.len(),
{
    if k == rows.len() {
        assert(rows.take(k) =~= rows);
    } else {
        assert(rows.take(k) =~= rows.drop_last().take(k));
        lemma_rows_fit_prefix(table, rows.drop_last(), k);
    }
}

/// The text of an error in the errors table: its method, the name of the request
/// and the error.
pub open spec fn error_text(e: GooseErrorMetricAggregate) -> Seq<char> {
    method_text(e.method) + " "@ + e.name@ + ": "@ + e.error@
}

/// The rows of the errors table, one per error: how often it occurred, and its text.
pub open spec fn error_rows(es: Seq<(String, GooseErrorMetricAggregate)>) -> Seq<(usize, Seq<char>)> {
    es.map_values(|e: (String, GooseErrorMetricAggregate)| (e.1.occurrences, error_text(e.1)))
}

/// Row `a` comes before row `b` in ascending order: by occurrences, then by text.
pub open spec fn row_less(a: (usize, Seq<char>), b: (usize, Seq<char>)) -> bool {
    a.0 < b.0 || (a.0 == b.0 && text_less(a.1, b.1))
}

/// No row comes before a row that follows it: the rows run from the largest down.
pub open spec fn rows_descending(rows: Seq<(usize, Seq<char>)>) -> bool {
    forall|i: int, j: int| 0 <= i < j < rows.len() ==> !row_less(#[trigger] rows[i], #[trigger] rows[j])
}

/// The lines of the errors table: each count grouped by thousands and padded to
/// twelve characters, then the error.
pub open spec fn error_lines(rows: Seq<(usize, Seq<char>)>) -> Seq<char>
    decreases rows.len(),
{
    if rows.len() == 0 {
        Seq::empty()
    } else {
        error_lines(rows.drop_last()) + " "@ + padded(grouped_decimal(rows.last().0 as nat), 12) + "  "@
            + rows.last().1 + "\n"@
    }
}

/// The first lines of the errors table.
pub const ERRORS_HEAD: &'static str = "\n === ERRORS ===\n ------------------------------------------------------------------------------\n Count       | Error\n ------------------------------------------------------------------------------\n";

/// The last line of the errors table.
pub const ERRORS_RULE: &'static str = " ------------------------------------------------------------------------------\n";

/// The errors table with its rows in the order of `rows`.
pub open spec fn errors_table(rows: Seq<(usize, Seq<char>)>) -> Seq<char> {
    ERRORS_HEAD@ + error_lines(rows) + ERRORS_RULE@
}

/// The rows as plain values.
pub open spec fn row_views(rows: Seq<(usize, Vec<char>)>) -> Seq<(usize, Seq<char>)> {
    rows.map_values(|r: (usize, Vec<char>)| (r.0, r.1@))
}

proof fn lemma_row_less_order(a: (usize, Seq<char>), b: (usize, Seq<char>), c: (usize, Seq<char>))
    ensures
        !row_less(a, a),
        row_less(a, b) && row_less(b, c) ==> row_less(a, c),
{
    lemma_text_less_trichotomy(a.1, a.1, 0);
    if a.0 == b.0 && b.0 == c.0 && text_less(a.1, b.1) && text_less(b.1, c.1) {
        lemma_text_less_transitive(a.1, b.1, c.1, 0);
    }
}

/// Insert `row` into `rows`, which run from the largest down, before the first
/// row that is smaller than it.
fn insert_descending(rows: &mut Vec<(usize, Vec<char>)>, row: (usize, Vec<char>))
    requires
        rows_descending(row_views(old(rows)@)),
    ensures
        rows_descending(row_views(final(rows)@)),
        row_views(final(rows)@).to_multiset() == row_views(old(rows)@).to_multiset().insert((row.0, row.1@)),
{
    let ghost before = row_views(rows@);
    let ghost e = (row.0, row.1@);
    let mut p: usize = 0;
    let mut found = false;
    while p < rows.len() && !found
        invariant
            before == row_views(rows@),
            e == (row.0, row.1@),
            p <= rows@.len(),
            forall|k: int| 0 <= k < p ==> !row_less(#[trigger] before[k], e),
            found ==> p < rows@.len() && row_less(before[p as int], e),
        decreases rows@.len() - p + (if found { 0int } else { 1int }),
    {
        proof {
            assert(before[p as int] == (rows@[p as int].0, rows@[p as int].1@));
        }
        let o = compare_text(&rows[p].1, &row.1);
        let smaller = rows[p].0 < row.0 || (rows[p].0 == row.0 && o == TextOrder::Less);
        if smaller {
            found = true;
        } else {
            p = p + 1;
        }
    }
    rows.insert(p, row);
    proof {
        broadcast use vstd::seq_lib::group_to_multiset_ensures;
        let after = row_views(rows@);
        assert(after =~= before.insert(p as int, e));
        assert forall|i: int, j: int| 0 <= i < j < after.len() implies !row_less(#[trigger] after[i], #[trigger] after[j]) by {
            if i < p && j == p {
            } else if i == p && j > p {
                lemma_row_less_order(before[p as int], e, before[j - 1]);
                lemma_row_less_order(before[p as int], before[j - 1], before[j - 1]);
                lemma_row_less_order(e, before[j - 1], e);
            } else if i < p && j > p {
            } else if i > p {
            }
        }
    }
}

/// Fresh metrics for transaction `t` of scenario `s`: its indices and names, and
/// nothing measured yet.
pub open spec fn fresh_transaction(s: Scenario, t: Transaction) -> TransactionMetricView {
    TransactionMetricView {
        scenario_index: s.scenarios_index,
        scenario_name: s.name@,
        transaction_index: t.transactions_index,
        transaction_name: t.name@,
        times: Map::empty(),
        min_time: 0,
        max_time: 0,
        total_time: 0,
        counter: 0,
        success_count: 0,
        fail_count: 0,
    }
}

/// A fresh table of transaction metrics: a row per scenario, with fresh metrics
/// for each of its transactions.
pub open spec fn fresh_table(ss: Seq<Scenario>) -> Seq<Seq<TransactionMetricView>> {
    ss.map_values(|s: Scenario| s.transactions@.map_values(|t: Transaction| fresh_transaction(s, t)))
}

impl GooseMetrics {
    /// Start the table of transaction metrics afresh: a row per scenario with
    /// fresh metrics for each of its transactions, or no rows when metrics or
    /// transaction metrics are disabled.
    pub fn initialize_transaction_metrics(
        &mut self,
        scenarios: &[Scenario],
        no_metrics: bool,
        no_transaction_metrics: bool,
    )
        ensures
            transactions_view(final(self).transactions@) == if no_metrics || no_transaction_metrics {
                Seq::<Seq<TransactionMetricView>>::empty()
            } else {
                fresh_table(scenarios@)
            },
            final(self).requests@ == old(self).requests@,
            final(self).errors@ == old(self).errors@,
            final(self).hosts@ == old(self).hosts@,
            final(self).final_metrics == old(self).final_metrics,
    {
        self.transactions = Vec::new();
        if no_metrics || no_transaction_metrics {
            proof {
                assert(transactions_view(self.transactions@) =~= Seq::<Seq<TransactionMetricView>>::empty());
            }
            return;
        }
        let ghost table = fresh_table(scenarios@);
        let mut k: usize = 0;
        while k < scenarios.len()
            invariant
                k <= scenarios@.len(),
                table == fresh_table(scenarios@),
                transactions_view(self.transactions@) == table.take(k as int),
                self.requests@ == old(self).requests@,
                self.errors@ == old(self).errors@,
                self.hosts@ == old(self).hosts@,
                self.final_metrics == old(self).final_metrics,
            decreases scenarios@.len() - k,
        {
            let scenario = &scenarios[k];
            let ghost row = table[k as int];
            let mut transaction_vector: Vec<TransactionMetricAggregate> = Vec::new();
            let mut j: usize = 0;
            while j < scenario.transactions.len()
                invariant
                    j <= scenario.transactions@.len(),
                    row == scenario.transactions@.map_values(|t: Transaction| fresh_transaction(*scenario, t)),
                    transaction_vector@.map_values(|m: TransactionMetricAggregate| m@) == row.take(j as int),
                decreases scenario.transactions@.len() - j,
            {
                let transaction = &scenario.transactions[j];
                let metric = TransactionMetricAggregate::new(
                    scenario.scenarios_index,
                    scenario.name.as_str(),
                    transaction.transactions_index,
                    transaction.name.as_str(),
                );
                let ghost before = transaction_vector@;
                transaction_vector.push(metric);
                proof {
                    assert(metric@ == fresh_transaction(*scenario, *transaction));
                    let done = before.map_values(|m: TransactionMetricAggregate| m@);
                    let now = transaction_vector@.map_values(|m: TransactionMetricAggregate| m@);
                    assert(done.len() == j);
                    assert(transaction_vector@ == before.push(metric));
                    assert forall|i: int| 0 <= i < j + 1 implies #[trigger] now[i] == row.take(j + 1)[i] by {
                        if i < j {
                            assert(done[i] == row.take(j as int)[i]);
                            assert(transaction_vector@[i] == before[i]);
                        }
                    }
                    assert(now =~= row.take(j + 1));
                }
                j = j + 1;
            }
            let ghost before = self.transactions@;
            self.transactions.push(transaction_vector);
            proof {
                assert(row.take(j as int) =~= row);
                let done = transactions_view(before);
                let now = transactions_view(self.transactions@);
                assert(done.len() == k);
                assert(self.transactions@ == before.push(transaction_vector));
                assert forall|i: int| 0 <= i < k + 1 implies #[trigger] now[i] == table.take(k + 1)[i] by {
                    if i < k {
                        assert(done[i] == table.take(k as int)[i]);
                        assert(self.transactions@[i] == before[i]);
                    }
                }
                assert(now =~= table.take(k + 1));
            }
            k = k + 1;
        }
        proof {
            assert(table.take(k as int) =~= table);
        }
    }
}

impl GooseMetrics {
    /// Optionally prepares the table of errors, in the final metrics when errors
    /// occurred: each error with how often it occurred, the most frequent first,
    /// and errors that occurred equally often by their text, the greatest first.
    pub fn fmt_errors(&self) -> (s: String)
        ensures
            !self.final_metrics || self.errors@.len() == 0 ==> s@.len() == 0,
            self.final_metrics && self.errors@.len() > 0 ==> exists|rows: Seq<(usize, Seq<char>)>|
                {
                    &&& rows.to_multiset() == error_rows(self.errors@).to_multiset()
                    &&& rows_descending(rows)
                    &&& s@ == errors_table(rows)
                },
    {
        if !self.final_metrics || self.errors.len() == 0 {
            return String::new();
        }
        let ghost es = self.errors@;
        let mut rows: Vec<(usize, Vec<char>)> = Vec::new();
        let mut i: usize = 0;
        proof {
            assert(row_views(rows@) =~= error_rows(es.take(0)));
        }
        while i < self.errors.len()
            invariant
                es == self.errors@,
                i <= es.len(),
                rows_descending(row_views(rows@)),
                row_views(rows@).to_multiset() == error_rows(es.take(i as int)).to_multiset(),
            decreases es.len() - i,
        {
            let error = &self.errors[i].1;
            let mut text = chars_of(error.method.text());
            let mut space = chars_of(" ");
            text.append(&mut space);
            let mut name = chars_of(error.name.as_str());
            text.append(&mut name);
            let mut colon = chars_of(": ");
            text.append(&mut colon);
            let mut message = chars_of(error.error.as_str());
            text.append(&mut message);
            proof {
                reveal_strlit(" ");
                reveal_strlit(": ");
                assert(text@ =~= error_text(*error));
            }
            insert_descending(&mut rows, (error.occurrences, text));
            proof {
                broadcast use vstd::seq_lib::group_to_multiset_ensures;
                assert(error_rows(es.take(i + 1)) =~= error_rows(es.take(i as int)).push(
                    (error.occurrences, error_text(*error)),
                ));
            }
            i = i + 1;
        }
        proof {
            assert(es.take(es.len() as int) =~= es);
        }
        let ghost sorted = row_views(rows@);
        let mut s = String::from_str(ERRORS_HEAD);
        let mut k: usize = 0;
        proof {
            assert(sorted.take(0) =~= Seq::<(usize, Seq<char>)>::empty());
        }
        while k < rows.len()
            invariant
                sorted == row_views(rows@),
                k <= rows@.len(),
                s@ == ERRORS_HEAD@ + error_lines(sorted.take(k as int)),
            decreases rows@.len() - k,
        {
            let count = format_number(rows[k].0);
            s.append(" ");
            push_padded(&mut s, count.as_str(), 12);
            s.append("  ");
            let text = string_from_chars(&rows[k].1);
            s.append(text.as_str());
            s.append("\n");
            proof {
                reveal_strlit(" ");
                reveal_strlit("  ");
                reveal_strlit("\n");
                assert(sorted.take(k + 1).drop_last() =~= sorted.take(k as int));
                assert(sorted[k as int] == (rows@[k as int].0, rows@[k as int].1@));
            }
            k = k + 1;
        }
        s.append(ERRORS_RULE);
        proof {
            assert(sorted.take(rows@.len() as int) =~= sorted);
        }
        s
    }
}

/// `b` has the shape of `a`, and each of its cells belongs to the same scenario
/// and transaction as the cell of `a` in its place.
pub open spec fn same_cells(a: Seq<Seq<TransactionMetricView>>, b: Seq<Seq<TransactionMetricView>>) -> bool {
    &&& b.len() == a.len()
    &&& forall|s: int| 0 <= s < a.len() ==> (#[trigger] b[s]).len() == a[s].len()
    &&& forall|s: int, i: int|
        0 <= s < a.len() && 0 <= i < a[s].len() ==> {
            let x = a[s][i];
            let y = #[trigger] b[s][i];
            &&& y.scenario_index == x.scenario_index
            &&& y.scenario_name == x.scenario_name
            &&& y.transaction_index == x.transaction_index
            &&& y.transaction_name == x.transaction_name
        }
}

/// Merging transactions one after the other keeps the shape of the table and
/// which scenario and transaction each cell belongs to.
pub proof fn lemma_merges_keep_cells(table: Seq<Seq<TransactionMetricView>>, us: Seq<TransactionMetricView>)
    requires
        merges_fit(table, us),
    ensures
        same_cells(table, table_after_merges(table, us)),
    decreases us.len(),
{
    if us.len() > 0 {
        lemma_merges_keep_cells(table, us.drop_last());
        let prev = table_after_merges(table, us.drop_last());
        let next = table_after_merges(table, us);
        let u = us.last();
        let t = u.scenario_index as int;
        assert forall|s: int| 0 <= s < table.len() implies (#[trigger] next[s]).len() == table[s].len() by {
            assert(prev[s].len() == table[s].len());
        }
        assert forall|s: int, i: int| 0 <= s < table.len() && 0 <= i < table[s].len() implies {
            let x = table[s][i];
            let y = #[trigger] next[s][i];
            &&& y.scenario_index == x.scenario_index
            &&& y.scenario_name == x.scenario_name
            &&& y.transaction_index == x.transaction_index
            &&& y.transaction_name == x.transaction_name
        } by {
            assert(prev[s].len() == table[s].len());
            let p = prev[s][i];
            assert(p.scenario_index == table[s][i].scenario_index);
        }
    }
}

/// Merging the rows of a worker's transactions keeps the shape of the table and
/// which scenario and transaction each cell belongs to.
pub proof fn lemma_rows_keep_cells(table: Seq<Seq<TransactionMetricView>>, rows: Seq<Seq<TransactionMetricView>>)
    requires
        rows_fit(table, rows),
    ensures
        same_cells(table, table_after_rows(table, rows)),
    decreases rows.len(),
{
    if rows.len() > 0 {
        lemma_rows_keep_cells(table, rows.drop_last());
        let prev = table_after_rows(table, rows.drop_last());
        lemma_merges_keep_cells(prev, rows.last());
        let next = table_after_rows(table, rows);
        assert forall|s: int| 0 <= s < table.len() implies (#[trigger] next[s]).len() == table[s].len() by {
            assert(prev[s].len() == table[s].len());
        }
        assert forall|s: int, i: int| 0 <= s < table.len() && 0 <= i < table[s].len() implies {
            let x = table[s][i];
            let y = #[trigger] next[s][i];
            &&& y.scenario_index == x.scenario_index
            &&& y.scenario_name == x.scenario_name
            &&& y.transaction_index == x.transaction_index
            &&& y.transaction_name == x.transaction_name
        } by {
            assert(prev[s].len() == table[s].len());
            let p = prev[s][i];
            assert(p.scenario_index == table[s][i].scenario_index);
        }
    }
}

impl GooseMetrics {
    /// Merge in the transaction metrics of a worker: scenario by scenario, each of
    /// the worker's transactions is merged into the manager's transaction of the
    /// same scenario index and transaction index.
    pub fn merge_transaction_metrics(&mut self, transactions: Vec<Vec<TransactionMetricAggregate>>)
        requires
            rows_fit(transactions_view(old(self).transactions@), transactions_view(transactions@)),
        ensures
            transactions_view(final(self).transactions@) == table_after_rows(
                transactions_view(old(self).transactions@),
                transactions_view(transactions@),
            ),
            final(self).requests@ == old(self).requests@,
            final(self).errors@ == old(self).errors@,
            final(self).final_metrics == old(self).final_metrics,
            final(self).display_status_codes == old(self).display_status_codes,
    {
        let ghost base = transactions_view(self.transactions@);
        let ghost rows = transactions_view(transactions@);
        let mut s: usize = 0;
        while s < transactions.len()
            invariant
                s <= transactions@.len(),
                rows == transactions_view(transactions@),
                rows_fit(base, rows),
                transactions_view(self.transactions@) == table_after_rows(base, rows.take(s as int)),
                self.requests@ == old(self).requests@,
                self.errors@ == old(self).errors@,
                self.final_metrics == old(self).final_metrics,
                self.display_status_codes == old(self).display_status_codes,
            decreases transactions@.len() - s,
        {
            let ghost start = transactions_view(self.transactions@);
            let ghost row = rows[s as int];
            proof {
                lemma_rows_fit_prefix(base, rows, s + 1);
                assert(rows.take(s + 1).drop_last() =~= rows.take(s as int));
                assert(row == transactions@[s as int]@.map_values(|m: TransactionMetricAggregate| m@));
            }
            let mut j: usize = 0;
            while j < transactions[s].len()
                invariant
                    s < transactions@.len(),
                    j <= transactions@[s as int]@.len(),
                    row == transactions@[s as int]@.map_values(|m: TransactionMetricAggregate| m@),
                    merges_fit(start, row),
                    transactions_view(self.transactions@) == table_after_merges(start, row.take(j as int)),
                    self.requests@ == old(self).requests@,
                    self.errors@ == old(self).errors@,
                    self.final_metrics == old(self).final_metrics,
                    self.display_status_codes == old(self).display_status_codes,
                decreases transactions@[s as int]@.len() - j,
            {
                let ghost table = transactions_view(self.transactions@);
                let user = &transactions[s][j];
                proof {
                    lemma_merges_fit_prefix(start, row, j + 1);
                    assert(row.take(j + 1).drop_last() =~= row.take(j as int));
                    assert(row.take(j + 1).last() == user@);
                }
                let si = user.scenario_index;
                let ti = user.transaction_index;
                proof {
                    assert(self.transactions@[si as int]@[ti as int]@ == table[si as int][ti as int]);
                }
                let merged = merge_transactions_from_worker(&self.transactions[si][ti], user);
                self.transactions[si].set(ti, merged);
                proof {
                    assert(transactions_view(self.transactions@) =~~= table.update(
                        si as int,
                        table[si as int].update(ti as int, transaction_merged(table[si as int][ti as int], user@)),
                    ));
                }
                j = j + 1;
            }
            proof {
                assert(row.take(j as int) =~= row);
            }
            s = s + 1;
        }
        proof {
            assert(rows.take(s as int) =~= rows);
        }
    }
}

impl GooseMetrics {
    /// Merge in the request metrics of a worker: a request the manager already has
    /// takes the worker's on top, a new one is kept as the worker sent it, and all
    /// other requests stay as they were.
    pub fn merge_request_metrics(
        &mut self,
        requests: Vec<(String, GooseRequestMetricAggregate)>,
        status_codes: bool,
    )
        requires
            names_ordered(old(self).requests@),
            names_distinct(requests@),
            requests_mergeable(old(self).requests@, requests@, status_codes),
        ensures
            names_ordered(final(self).requests@),
            forall|j: int| 0 <= j < requests@.len() ==> request_after_merge(
                value_named(final(self).requests@, (#[trigger] requests@[j]).0@),
                value_named(old(self).requests@, requests@[j].0@),
                requests@[j].1,
                status_codes,
            ),
            forall|k: Seq<char>| !name_among(requests@, 0, k) ==> #[trigger] value_named(final(self).requests@, k)
                == value_named(old(self).requests@, k),
            final(self).errors@ == old(self).errors@,
            final(self).final_metrics == old(self).final_metrics,
            final(self).display_status_codes == old(self).display_status_codes,
    {
        let ghost base = self.requests@;
        let ghost worker = requests@;
        let mut requests = requests;
        while requests.len() > 0
            invariant
                names_ordered(self.requests@),
                names_distinct(worker),
                requests_mergeable(base, worker, status_codes),
                requests@ == worker.take(requests@.len() as int),
                requests@.len() <= worker.len(),
                forall|j: int| requests@.len() <= j < worker.len() ==> request_after_merge(
                    value_named(self.requests@, (#[trigger] worker[j]).0@),
                    value_named(base, worker[j].0@),
                    worker[j].1,
                    status_codes,
                ),
                forall|k: Seq<char>| !name_among(worker, requests@.len() as int, k) ==> #[trigger] value_named(self.requests@, k)
                    == value_named(base, k),
                self.errors@ == old(self).errors@,
                self.final_metrics == old(self).final_metrics,
                self.display_status_codes == old(self).display_status_codes,
            decreases requests@.len(),
        {
            let ghost n = requests@.len() - 1;
            let ghost current = self.requests@;
            let (key, request) = match requests.pop() {
                Some(entry) => entry,
                None => {
                    proof {
                        assert(false);
                    }
                    return;
                },
            };
            proof {
                assert(worker[n] == (key, request));
                assert(!name_among(worker, n + 1, key@)) by {
                    if name_among(worker, n + 1, key@) {
                        let j = choose|j: int| n + 1 <= j < worker.len() && (#[trigger] worker[j]).0@ == key@;
                        assert(worker[n].0@ != worker[j].0@);
                    }
                }
                assert(value_named(current, key@) == value_named(base, key@));
            }
            let merged = match find_named(&self.requests, key.as_str()) {
                Some(i) => {
                    proof {
                        assert(request_merge_fits(current[i as int].1, request, status_codes));
                    }
                    merge_requests_from_worker(&self.requests[i].1, &request, status_codes)
                },
                None => request,
            };
            let ghost kept = merged;
            insert_named(&mut self.requests, key, merged);
            proof {
                assert forall|j: int| n <= j < worker.len() implies request_after_merge(
                    value_named(self.requests@, (#[trigger] worker[j]).0@),
                    value_named(base, worker[j].0@),
                    worker[j].1,
                    status_codes,
                ) by {
                    if j > n {
                        assert(worker[j].0@ != worker[n].0@);
                    }
                }
                assert forall|k: Seq<char>| !name_among(worker, n, k) implies #[trigger] value_named(self.requests@, k)
                    == value_named(base, k) by {
                    assert(worker[n].0@ != k);
                    if name_among(worker, n + 1, k) {
                        let j = choose|j: int| n + 1 <= j < worker.len() && (#[trigger] worker[j]).0@ == k;
                        assert(name_among(worker, n, k));
                    }
                }
                assert(requests@ =~= worker.take(n));
            }
        }
        proof {
            assert forall|k: Seq<char>| !name_among(worker, 0, k) implies #[trigger] value_named(self.requests@, k)
                == value_named(base, k) by {
            }
        }
    }

    /// Merge in the errors of a worker: an error the manager already has adds the
    /// worker's occurrences, a new one is kept as the worker sent it, and all other
    /// errors stay as they were.
    pub fn merge_error_metrics(&mut self, errors: Vec<(String, GooseErrorMetricAggregate)>)
        requires
            names_ordered(old(self).errors@),
            names_distinct(errors@),
            errors_mergeable(old(self).errors@, errors@),
        ensures
            names_ordered(final(self).errors@),
            forall|j: int| 0 <= j < errors@.len() ==> error_after_merge(
                value_named(final(self).errors@, (#[trigger] errors@[j]).0@),
                value_named(old(self).errors@, errors@[j].0@),
                errors@[j].1,
            ),
            forall|k: Seq<char>| !name_among(errors@, 0, k) ==> #[trigger] value_named(final(self).errors@, k)
                == value_named(old(self).errors@, k),
            final(self).requests@ == old(self).requests@,
            final(self).final_metrics == old(self).final_metrics,
    {
        let ghost base = self.errors@;
        let ghost worker = errors@;
        let mut errors = errors;
        while errors.len() > 0
            invariant
                names_ordered(self.errors@),
                names_distinct(worker),
                errors_mergeable(base, worker),
                errors@ == worker.take(errors@.len() as int),
                errors@.len() <= worker.len(),
                forall|j: int| errors@.len() <= j < worker.len() ==> error_after_merge(
                    value_named(self.errors@, (#[trigger] worker[j]).0@),
                    value_named(base, worker[j].0@),
                    worker[j].1,
                ),
                forall|k: Seq<char>| !name_among(worker, errors@.len() as int, k) ==> #[trigger] value_named(self.errors@, k)
                    == value_named(base, k),
                self.requests@ == old(self).requests@,
                self.final_metrics == old(self).final_metrics,
            decreases errors@.len(),
        {
            let ghost n = errors@.len() - 1;
            let ghost current = self.errors@;
            let (key, error) = match errors.pop() {
                Some(entry) => entry,
                None => {
                    proof {
                        assert(false);
                    }
                    return;
                },
            };
            proof {
                assert(worker[n] == (key, error));
                assert(!name_among(worker, n + 1, key@)) by {
                    if name_among(worker, n + 1, key@) {
                        let j = choose|j: int| n + 1 <= j < worker.len() && (#[trigger] worker[j]).0@ == key@;
                        assert(worker[n].0@ != worker[j].0@);
                    }
                }
                assert(value_named(current, key@) == value_named(base, key@));
            }
            let merged = match find_named(&self.errors, key.as_str()) {
                Some(i) => merge_errors_from_worker(&self.errors[i].1, &error),
                None => error,
            };
            insert_named(&mut self.errors, key, merged);
            proof {
                assert forall|j: int| n <= j < worker.len() implies error_after_merge(
                    value_named(self.errors@, (#[trigger] worker[j]).0@),
                    value_named(base, worker[j].0@),
                    worker[j].1,
                ) by {
                    if j > n {
                        assert(worker[j].0@ != worker[n].0@);
                    }
                }
                assert forall|k: Seq<char>| !name_among(worker, n, k) implies #[trigger] value_named(self.errors@, k)
                    == value_named(base, k) by {
                    assert(worker[n].0@ != k);
                    if name_among(worker, n + 1, k) {
                        let j = choose|j: int| n + 1 <= j < worker.len() && (#[trigger] worker[j]).0@ == k;
                        assert(name_among(worker, n, k));
                    }
                }
                assert(errors@ =~= worker.take(n));
            }
        }
    }
}


/// The name of a request, from its key: the key without the method and the space
/// that start it.
pub open spec fn request_name(key: Seq<char>, method: GooseMethod) -> Seq<char> {
    key.skip(method_text(method).len() as int + 1)
}

/// Every key starts with the method of its request and a space.
pub open spec fn keys_name_methods(rs: Seq<(String, GooseRequestMetricAggregate)>) -> bool {
    forall|i: int| 0 <= i < rs.len() ==> {
        &&& (#[trigger] rs[i]).0@.len() > method_text(rs[i].1.method).len()
        &&& rs[i].0@.take(method_text(rs[i].1.method).len() as int + 1) == method_text(rs[i].1.method) + " "@
    }
}

/// `r` is the response row of `method` and `name` over a histogram of `total`
/// requests timed between `min` and `max`.
pub open spec fn response_row_of(
    r: ResponseMetric,
    method: Seq<char>,
    name: Seq<char>,
    times: Map<usize, usize>,
    total: usize,
    min: usize,
    max: usize,
) -> bool {
    &&& r.method@ == method
    &&& r.name@ == name
    &&& r.percentile_50@ == percentile_text(times, total, min, max, 5000)
    &&& r.percentile_60@ == percentile_text(times, total, min, max, 6000)
    &&& r.percentile_70@ == percentile_text(times, total, min, max, 7000)
    &&& r.percentile_80@ == percentile_text(times, total, min, max, 8000)
    &&& r.percentile_90@ == percentile_text(times, total, min, max, 9000)
    &&& r.percentile_95@ == percentile_text(times, total, min, max, 9500)
    &&& r.percentile_99@ == percentile_text(times, total, min, max, 9900)
    &&& r.percentile_100@ == percentile_text(times, total, min, max, 10000)
}

/// The response rows of the report can be computed: the walks over each request's
/// histogram and over the merged one fit, and so do the totals.
pub open spec fn response_rows_fit(rs: Seq<(String, GooseRequestMetricAggregate)>) -> bool {
    &&& requests_total(rs) <= usize::MAX
    &&& section_aggregable(rs, false)
    &&& forall|i: int| 0 <= i < rs.len() ==> running_totals_fit(
        (#[trigger] rs[i]).1.raw_data.times@,
        sorted_keys(rs[i].1.raw_data.times@.dom()),
        rs[i].1.raw_data.counter as nat,
        0,
    )
    &&& running_totals_fit(
        section_times(rs, false),
        sorted_keys(section_times(rs, false).dom()),
        requests_total(rs),
        0,
    )
}

/// The characters of `cs` from `start` on.
fn chars_from(cs: &Vec<char>, start: usize) -> (r: Vec<char>)
    requires
        start <= cs@.len(),
    ensures
        r@ == cs@.skip(start as int),
{
    let mut r: Vec<char> = Vec::new();
    let mut i = start;
    while i < cs.len()
        invariant
            start <= i <= cs@.len(),
            r@ == cs@.subrange(start as int, i as int),
        decreases cs@.len() - i,
    {
        r.push(cs[i]);
        i = i + 1;
        proof {
            assert(r@ =~= cs@.subrange(start as int, i as int));
        }
    }
    proof {
        assert(r@ =~= cs@.skip(start as int));
    }
    r
}

proof fn lemma_requests_total_prefix(rs: Seq<(String, GooseRequestMetricAggregate)>, k: int)
    requires
        0 <= k <= rs.len(),
    ensures
        requests_total(rs.take(k)) <= requests_total(rs),
    decreases rs.len(),
{
    if k == rs.len() {
        assert(rs.take(k) =~= rs);
    } else {
        assert(rs.drop_last().take(k) =~= rs.take(k));
        lemma_requests_total_prefix(rs.drop_last(), k);
    }
}

/// The response rows of the report: per request, in the order of the request
/// names, the times within which 50 to 100 percent of its requests finished; then
/// the same over all requests, counted by the requests made.
pub fn report_response_metrics(requests: &Vec<(String, GooseRequestMetricAggregate)>) -> (rows: Vec<ResponseMetric>)
    requires
        names_ordered(requests@),
        keys_name_methods(requests@),
        response_rows_fit(requests@),
    ensures
        rows@.len() == requests@.len() + 1,
        forall|i: int| 0 <= i < requests@.len() ==> response_row_of(
            #[trigger] rows@[i],
            method_text(requests@[i].1.method),
            request_name(requests@[i].0@, requests@[i].1.method),
            requests@[i].1.raw_data.times@,
            requests@[i].1.raw_data.counter,
            requests@[i].1.raw_data.minimum_time,
            requests@[i].1.raw_data.maximum_time,
        ),
        response_row_of(
            rows@[requests@.len() as int],
            ""@,
            "Aggregated"@,
            section_times(requests@, false),
            requests_total(requests@) as usize,
            section_min(requests@, false),
            section_max(requests@, false),
        ),
{
    let ghost rs = requests@;
    let mut rows: Vec<ResponseMetric> = Vec::new();
    let mut aggregate = SectionAggregate::new(Ghost(false));
    let mut total_count: usize = 0;
    let mut i: usize = 0;
    proof {
        assert(rs.take(0) =~= Seq::<(String, GooseRequestMetricAggregate)>::empty());
    }
    while i < requests.len()
        invariant
            rs == requests@,
            i <= rs.len(),
            keys_name_methods(rs),
            response_rows_fit(rs),
            aggregate.of(rs.take(i as int), false),
            total_count == requests_total(rs.take(i as int)),
            rows@.len() == i,
            forall|j: int| 0 <= j < i ==> response_row_of(
                #[trigger] rows@[j],
                method_text(rs[j].1.method),
                request_name(rs[j].0@, rs[j].1.method),
                rs[j].1.raw_data.times@,
                rs[j].1.raw_data.counter,
                rs[j].1.raw_data.minimum_time,
                rs[j].1.raw_data.maximum_time,
            ),
        decreases rs.len() - i,
    {
        let key = &requests[i].0;
        let request = &requests[i].1;
        proof {
            lemma_requests_total_prefix(rs, i + 1);
            assert(rs.take(i + 1).drop_last() =~= rs.take(i as int));
        }
        let method = request.method.text();
        let key_chars = chars_of(key.as_str());
        proof {
            assert(key_chars@.take(method@.len() as int + 1) == method@ + " "@);
        }
        let method_len = method.unicode_len();
        let key_len = key_chars.len();
        proof {
            assert(method_len < key_len);
        }
        let name_chars = chars_from(&key_chars, method_len + 1);
        let name = string_from_chars(&name_chars);
        let data = &request.raw_data;
        let row = get_response_metric(method, name.as_str(), &data.times, data.counter, data.minimum_time, data.maximum_time);
        rows.push(row);
        total_count = total_count + request.success_count + request.fail_count;
        aggregate.add(Ghost(rs), Ghost(false), Ghost(i as int), data);
        i = i + 1;
    }
    proof {
        assert(rs.take(rs.len() as int) =~= rs);
        reveal_strlit("");
        reveal_strlit("Aggregated");
    }
    let aggregated = get_response_metric("", "Aggregated", &aggregate.times, total_count, aggregate.min, aggregate.max);
    rows.push(aggregated);
    rows
}


/// The first lines of the table of response times.
pub const RESPONSE_TIMES_HEAD: &'static str = " ------------------------------------------------------------------------------\n Name                     |    Avg (ms) |        Min |         Max |     Median\n ------------------------------------------------------------------------------\n";

/// The line above the aggregated row of the table of response times.
pub const RESPONSE_TIMES_SEPARATOR: &'static str = " -------------------------+-------------+------------+-------------+-----------\n";

/// A line of the table of response times: the name, the average as given, and the
/// fastest, slowest and median times grouped by thousands.
pub open spec fn response_times_line(name: Seq<char>, average: Seq<char>, min: nat, max: nat, median: nat) -> Seq<char> {
    " "@ + padded(name, 24) + " | "@ + left_padded(average, 11) + " | "@ + left_padded(grouped_decimal(min), 10)
        + " | "@ + left_padded(grouped_decimal(max), 11) + " | "@ + left_padded(grouped_decimal(median), 10) + "\n"@
}

/// The row of timing data `t` in the table of response times.
pub open spec fn response_times_row(name: Seq<char>, average: Seq<char>, t: TimingView) -> Seq<char> {
    response_times_line(name, average, t.1, t.2, median_of(t.0, t.4, t.1 as usize, t.2 as usize) as nat)
}

/// The rows of the table of response times, one per request name, each with its
/// average as `averages` gives it.
pub open spec fn response_times_rows(rs: Seq<(String, GooseRequestMetricAggregate)>, averages: Seq<Seq<char>>) -> Seq<char>
    decreases rs.len(),
{
    if rs.len() == 0 || averages.len() != rs.len() {
        Seq::empty()
    } else {
        response_times_rows(rs.drop_last(), averages.drop_last()) + response_times_row(
            truncated(rs.last().0@, 24),
            averages.last(),
            rs.last().1.raw_data@,
        )
    }
}

/// The table of response times: nothing without requests; else a row per request
/// name and, with more than one name, an aggregated row.
pub open spec fn response_times_table(
    rs: Seq<(String, GooseRequestMetricAggregate)>,
    averages: Seq<Seq<char>>,
    aggregated_average: Seq<char>,
) -> Seq<char> {
    if rs.len() == 0 {
        Seq::empty()
    } else {
        RESPONSE_TIMES_HEAD@ + response_times_rows(rs, averages) + if rs.len() > 1 {
            RESPONSE_TIMES_SEPARATOR@ + response_times_row("Aggregated"@, aggregated_average, section_view(rs, false))
        } else {
            Seq::empty()
        }
    }
}

/// The medians of the table of response times can be walked to.
pub open spec fn response_times_fit(rs: Seq<(String, GooseRequestMetricAggregate)>) -> bool {
    &&& section_aggregable(rs, false)
    &&& forall|i: int| 0 <= i < rs.len() ==> running_totals_fit(
        (#[trigger] rs[i]).1.raw_data.times@,
        sorted_keys(rs[i].1.raw_data.times@.dom()),
        half_of(rs[i].1.raw_data.counter as nat),
        0,
    )
    &&& rs.len() > 1 ==> running_totals_fit(
        section_times(rs, false),
        sorted_keys(section_times(rs, false).dom()),
        half_of(section_counter(rs, false)),
        0,
    )
}

/// The texts as plain values.
pub open spec fn strings_view(ss: Seq<String>) -> Seq<Seq<char>> {
    ss.map_values(|s: String| s@)
}

fn push_response_times_row(out: &mut String, name: &str, average: &str, min: usize, max: usize, median: usize)
    ensures
        final(out)@ == old(out)@ + response_times_line(name@, average@, min as nat, max as nat, median as nat),
{
    out.append(" ");
    push_padded(out, name, 24);
    out.append(" | ");
    push_left_padded(out, average, 11);
    out.append(" | ");
    let min_text = format_number(min);
    push_left_padded(out, min_text.as_str(), 10);
    out.append(" | ");
    let max_text = format_number(max);
    push_left_padded(out, max_text.as_str(), 11);
    out.append(" | ");
    let median_text = format_number(median);
    push_left_padded(out, median_text.as_str(), 10);
    out.append("\n");
    proof {
        reveal_strlit(" ");
        reveal_strlit(" | ");
        reveal_strlit("\n");
        assert(out@ =~= old(out)@ + response_times_line(name@, average@, min as nat, max as nat, median as nat));
    }
}

impl GooseMetrics {
    /// Prepares the table of response times of the requests, in the order of their
    /// names: per request the average (formatted by the caller, as it is a
    /// fraction), the fastest, the slowest and the median time, and, with more than
    /// one request, the same over all of them.
    #[verifier::spinoff_prover]
    #[verifier::rlimit(40)]
    pub fn fmt_response_times(&self, averages: &Vec<String>, aggregated_average: &str) -> (s: String)
        requires
            self.wf(),
            averages@.len() == self.requests@.len(),
            response_times_fit(self.requests@),
        ensures
            s@ == response_times_table(self.requests@, strings_view(averages@), aggregated_average@),
    {
        let ghost rs = self.requests@;
        let ghost avg = strings_view(averages@);
        if self.requests.len() == 0 {
            return String::new();
        }
        let mut s = String::from_str(RESPONSE_TIMES_HEAD);
        let mut aggregate = SectionAggregate::new(Ghost(false));
        let mut i: usize = 0;
        proof {
            assert(rs.take(0) =~= Seq::<(String, GooseRequestMetricAggregate)>::empty());
            assert(avg.take(0) =~= Seq::<Seq<char>>::empty());
        }
        while i < self.requests.len()
            invariant
                rs == self.requests@,
                avg == strings_view(averages@),
                avg.len() == rs.len(),
                i <= rs.len(),
                response_times_fit(rs),
                aggregate.of(rs.take(i as int), false),
                s@ == RESPONSE_TIMES_HEAD@ + response_times_rows(rs.take(i as int), avg.take(i as int)),
            decreases rs.len() - i,
        {
            let entry = &self.requests[i];
            let data = &entry.1.raw_data;
            aggregate.add(Ghost(rs), Ghost(false), Ghost(i as int), data);
            let shown = truncate_string(entry.0.as_str(), 24);
            let middle = median(&data.times, data.counter, data.minimum_time, data.maximum_time);
            push_response_times_row(&mut s, shown.as_str(), averages[i].as_str(), data.minimum_time, data.maximum_time, middle);
            proof {
                assert(rs.take(i + 1).drop_last() =~= rs.take(i as int));
                assert(avg.take(i + 1).drop_last() =~= avg.take(i as int));
                assert(avg[i as int] == averages@[i as int]@);
            }
            i = i + 1;
        }
        proof {
            assert(rs.take(rs.len() as int) =~= rs);
            assert(avg.take(rs.len() as int) =~= avg);
        }
        if self.requests.len() > 1 {
            s.append(RESPONSE_TIMES_SEPARATOR);
            let middle = median(&aggregate.times, aggregate.counter, aggregate.min, aggregate.max);
            push_response_times_row(&mut s, "Aggregated", aggregated_average, aggregate.min, aggregate.max, middle);
            proof {
                reveal_strlit("Aggregated");
            }
        }
        s
    }
}


/// The name of the request `i` of `rs`, from its key.
fn request_name_of(key: &String, method: &str) -> (name: String)
    requires
        key@.len() > method@.len(),
    ensures
        name@ == key@.skip(method@.len() as int + 1),
{
    let key_chars = chars_of(key.as_str());
    let method_len = method.unicode_len();
    let key_len = key_chars.len();
    proof {
        assert(method_len < key_len);
    }
    let name_chars = chars_from(&key_chars, method_len + 1);
    string_from_chars(&name_chars)
}

/// The status code rows of the report: per request, in the order of the request
/// names, its method, its name and its codes with their counts as the map gives
/// them; then the codes of all requests added together.
pub fn report_status_code_metrics(requests: &Vec<(String, GooseRequestMetricAggregate)>) -> (rows: Vec<StatusCodeMetric>)
    requires
        names_ordered(requests@),
        keys_name_methods(requests@),
        request_codes_aggregable(requests@),
    ensures
        rows@.len() == requests@.len() + 1,
        exists|listings: Seq<Seq<(u16, usize)>>, aggregated: Seq<(u16, usize)>|
            {
                &&& request_listings(requests@, listings)
                &&& lists_codes(aggregated, request_codes(requests@))
                &&& forall|i: int| 0 <= i < requests@.len() ==> {
                    &&& (#[trigger] rows@[i]).method@ == method_text(requests@[i].1.method)
                    &&& rows@[i].name@ == request_name(requests@[i].0@, requests@[i].1.method)
                    &&& rows@[i].status_codes@ == codes_text(listings[i])
                }
                &&& rows@[requests@.len() as int].method@ == ""@
                &&& rows@[requests@.len() as int].name@ == "Aggregated"@
                &&& rows@[requests@.len() as int].status_codes@ == codes_text(aggregated)
            },
{
    let ghost rs = requests@;
    let mut rows: Vec<StatusCodeMetric> = Vec::new();
    let mut aggregated_status_code_counts: HashMap<u16, usize> = HashMap::new();
    let ghost mut listings: Seq<Seq<(u16, usize)>> = Seq::empty();
    let mut i: usize = 0;
    proof {
        assert(rs.take(0) =~= Seq::<(String, GooseRequestMetricAggregate)>::empty());
    }
    while i < requests.len()
        invariant
            rs == requests@,
            i <= rs.len(),
            keys_name_methods(rs),
            request_codes_aggregable(rs),
            aggregated_status_code_counts@ == request_codes(rs.take(i as int)),
            request_listings(rs.take(i as int), listings),
            rows@.len() == i,
            forall|j: int| 0 <= j < i ==> {
                &&& (#[trigger] rows@[j]).method@ == method_text(rs[j].1.method)
                &&& rows@[j].name@ == request_name(rs[j].0@, rs[j].1.method)
                &&& rows@[j].status_codes@ == codes_text(listings[j])
            },
        decreases rs.len() - i,
    {
        let entry = &requests[i];
        let codes = prepare_status_codes(&entry.1.status_code_counts);
        let ghost listing = choose|kvs: Seq<(u16, usize)>| lists_codes(kvs, entry.1.status_code_counts@) && codes@ == codes_text(kvs);
        proof {
            lemma_request_codes_aggregable_prefix(rs, i + 1);
            assert(rs.take(i + 1).drop_last() =~= rs.take(i as int));
        }
        merge_status_codes(&mut aggregated_status_code_counts, &entry.1.status_code_counts);
        let method = entry.1.method.text();
        let name = request_name_of(&entry.0, method);
        rows.push(StatusCodeMetric { method: String::from_str(method), name, status_codes: codes });
        proof {
            let ghost before = listings;
            listings = listings.push(listing);
            assert(listings.drop_last() =~= before);
            assert forall|j: int| 0 <= j < i + 1 implies lists_codes(#[trigger] listings[j], rs.take(i + 1)[j].1.status_code_counts@) by {
                if j < i {
                    assert(rs.take(i + 1)[j] == rs.take(i as int)[j]);
                }
            }
        }
        i = i + 1;
    }
    proof {
        assert(rs.take(rs.len() as int) =~= rs);
        reveal_strlit("");
        reveal_strlit("Aggregated");
    }
    let codes = prepare_status_codes(&aggregated_status_code_counts);
    let ghost aggregated = choose|kvs: Seq<(u16, usize)>| lists_codes(kvs, aggregated_status_code_counts@) && codes@ == codes_text(kvs);
    rows.push(StatusCodeMetric { method: String::new(), name: String::from_str("Aggregated"), status_codes: codes });
    proof {
        assert(request_listings(rs, listings));
        assert(lists_codes(aggregated, request_codes(rs)));
        assert(rows@[rs.len() as int].status_codes@ == codes_text(aggregated));
    }
    rows
}


/// What each row of the report's responses adjusted for Coordinated Omission
/// shows: the method, name and adjusted timing data of each request that has such
/// data, in order.
pub open spec fn co_response_specs(rs: Seq<(String, GooseRequestMetricAggregate)>) -> Seq<(Seq<char>, Seq<char>, TimingView)>
    decreases rs.len(),
{
    if rs.len() == 0 {
        Seq::empty()
    } else {
        let before = co_response_specs(rs.drop_last());
        match rs.last().1.coordinated_omission_data {
            Some(d) => before.push(
                (
                    method_text(rs.last().1.method),
                    request_name(rs.last().0@, rs.last().1.method),
                    d@,
                ),
            ),
            None => before,
        }
    }
}

/// The adjusted response rows of the report can be computed.
pub open spec fn co_response_rows_fit(rs: Seq<(String, GooseRequestMetricAggregate)>) -> bool {
    &&& requests_total(rs) <= usize::MAX
    &&& section_aggregable(rs, true)
    &&& section_aggregable(rs, false)
    &&& forall|i: int| 0 <= i < rs.len() ==> match (#[trigger] rs[i]).1.coordinated_omission_data {
        Some(d) => running_totals_fit(d.times@, sorted_keys(d.times@.dom()), d.counter as nat, 0),
        None => true,
    }
    &&& running_totals_fit(section_times(rs, true), sorted_keys(section_times(rs, true).dom()), requests_total(rs), 0)
}

/// The response rows of the report adjusted for Coordinated Omission: per request
/// that has such data, in the order of the request names, the times within which
/// 50 to 100 percent of its requests finished; then the same over the adjusted
/// data of all requests, counted by the requests made, from the fastest raw time.
pub fn report_co_response_metrics(requests: &Vec<(String, GooseRequestMetricAggregate)>) -> (rows: Vec<ResponseMetric>)
    requires
        names_ordered(requests@),
        keys_name_methods(requests@),
        co_response_rows_fit(requests@),
    ensures
        rows@.len() == co_response_specs(requests@).len() + 1,
        forall|k: int| 0 <= k < co_response_specs(requests@).len() ==> {
            let spec = co_response_specs(requests@)[k];
            response_row_of(
                #[trigger] rows@[k],
                spec.0,
                spec.1,
                spec.2.0,
                spec.2.4 as usize,
                spec.2.1 as usize,
                spec.2.2 as usize,
            )
        },
        response_row_of(
            rows@[co_response_specs(requests@).len() as int],
            ""@,
            "Aggregated"@,
            section_times(requests@, true),
            requests_total(requests@) as usize,
            section_min(requests@, false),
            section_max(requests@, true),
        ),
{
    let ghost rs = requests@;
    let mut rows: Vec<ResponseMetric> = Vec::new();
    let mut co_aggregate = SectionAggregate::new(Ghost(true));
    let mut raw_aggregate = SectionAggregate::new(Ghost(false));
    let mut total_count: usize = 0;
    let mut i: usize = 0;
    proof {
        assert(rs.take(0) =~= Seq::<(String, GooseRequestMetricAggregate)>::empty());
    }
    while i < requests.len()
        invariant
            rs == requests@,
            i <= rs.len(),
            keys_name_methods(rs),
            co_response_rows_fit(rs),
            co_aggregate.of(rs.take(i as int), true),
            raw_aggregate.of(rs.take(i as int), false),
            total_count == requests_total(rs.take(i as int)),
            rows@.len() == co_response_specs(rs.take(i as int)).len(),
            forall|k: int| 0 <= k < rows@.len() ==> {
                let spec = co_response_specs(rs.take(i as int))[k];
                response_row_of(
                    #[trigger] rows@[k],
                    spec.0,
                    spec.1,
                    spec.2.0,
                    spec.2.4 as usize,
                    spec.2.1 as usize,
                    spec.2.2 as usize,
                )
            },
        decreases rs.len() - i,
    {
        let key = &requests[i].0;
        let request = &requests[i].1;
        proof {
            lemma_requests_total_prefix(rs, i + 1);
            assert(rs.take(i + 1).drop_last() =~= rs.take(i as int));
            assert(rs.take(i + 1).last() == rs[i as int]);
        }
        let ghost before = rows@;
        match &request.coordinated_omission_data {
            Some(data) => {
                let method = request.method.text();
                let name = request_name_of(key, method);
                let row = get_response_metric(method, name.as_str(), &data.times, data.counter, data.minimum_time, data.maximum_time);
                rows.push(row);
                co_aggregate.add(Ghost(rs), Ghost(true), Ghost(i as int), data);
            },
            None => {
                proof {
                    assert(rs.take(i + 1).drop_last() =~= rs.take(i as int));
                    assert(co_aggregate.of(rs.take(i + 1), true));
                }
            },
        }
        raw_aggregate.add(Ghost(rs), Ghost(false), Ghost(i as int), &request.raw_data);
        total_count = total_count + request.success_count + request.fail_count;
        proof {
            assert forall|k: int| 0 <= k < rows@.len() implies {
                let spec = co_response_specs(rs.take(i + 1))[k];
                response_row_of(
                    #[trigger] rows@[k],
                    spec.0,
                    spec.1,
                    spec.2.0,
                    spec.2.4 as usize,
                    spec.2.1 as usize,
                    spec.2.2 as usize,
                )
            } by {
                if k < before.len() {
                    assert(rows@[k] == before[k]);
                }
            }
        }
        i = i + 1;
    }
    proof {
        assert(rs.take(rs.len() as int) =~= rs);
        reveal_strlit("");
        reveal_strlit("Aggregated");
    }
    let aggregated = get_response_metric(
        "",
        "Aggregated",
        &co_aggregate.times,
        total_count,
        raw_aggregate.min,
        co_aggregate.max,
    );
    rows.push(aggregated);
    rows
}


/// The first lines of the part of the table of response times adjusted for
/// Coordinated Omission.
pub const CO_RESPONSE_TIMES_HEAD: &'static str = " ------------------------------------------------------------------------------\n Adjusted for Coordinated Omission:\n ------------------------------------------------------------------------------\n Name                     |    Avg (ms) |    Std Dev |         Max |     Median\n ------------------------------------------------------------------------------\n";

/// A line of the adjusted part of the table of response times: the name, the
/// average and standard deviation as given, and the slowest and median times
/// grouped by thousands.
pub open spec fn co_times_line(name: Seq<char>, average: Seq<char>, deviation: Seq<char>, max: nat, median: nat) -> Seq<char> {
    " "@ + padded(name, 24) + " | "@ + left_padded(average, 11) + " | "@ + left_padded(deviation, 10) + " | "@
        + left_padded(grouped_decimal(max), 11) + " | "@ + left_padded(grouped_decimal(median), 10) + "\n"@
}

/// The line of a request without adjusted data.
pub open spec fn co_missing_line(name: Seq<char>) -> Seq<char> {
    " "@ + padded(name, 24) + " |           - |          - |           - |          -\n"@
}

/// The adjusted rows, one per request name, with the averages and deviations as
/// given.
pub open spec fn co_times_rows(
    rs: Seq<(String, GooseRequestMetricAggregate)>,
    averages: Seq<Seq<char>>,
    deviations: Seq<Seq<char>>,
) -> Seq<char>
    decreases rs.len(),
{
    if rs.len() == 0 || averages.len() != rs.len() || deviations.len() != rs.len() {
        Seq::empty()
    } else {
        co_times_rows(rs.drop_last(), averages.drop_last(), deviations.drop_last()) + match rs.last().1.coordinated_omission_data {
            Some(d) => co_times_line(
                truncated(rs.last().0@, 24),
                averages.last(),
                deviations.last(),
                d.maximum_time as nat,
                median_of(d.times@, d.counter as nat, d.minimum_time, d.maximum_time) as nat,
            ),
            None => co_missing_line(truncated(rs.last().0@, 24)),
        }
    }
}

/// The slowest time shown in the adjusted aggregated row: the slower of the
/// slowest raw time over all requests and the slowest adjusted time of the last
/// request that has adjusted data; zero when none has.
pub open spec fn co_row_max(rs: Seq<(String, GooseRequestMetricAggregate)>, raw_max: usize) -> usize
    decreases rs.len(),
{
    if rs.len() == 0 {
        0
    } else {
        match rs.last().1.coordinated_omission_data {
            Some(d) => updated_max(raw_max, d.maximum_time),
            None => co_row_max(rs.drop_last(), raw_max),
        }
    }
}

/// The adjusted part of the table of response times: nothing unless some request
/// has adjusted data; else a row per request name and, with more than one name,
/// an aggregated row.
pub open spec fn co_times_table(
    rs: Seq<(String, GooseRequestMetricAggregate)>,
    averages: Seq<Seq<char>>,
    deviations: Seq<Seq<char>>,
    aggregated_average: Seq<char>,
    aggregated_deviation: Seq<char>,
) -> Seq<char> {
    if !has_co_data(rs) {
        Seq::empty()
    } else {
        let max = co_row_max(rs, section_max(rs, false));
        CO_RESPONSE_TIMES_HEAD@ + co_times_rows(rs, averages, deviations) + if rs.len() > 1 {
            RESPONSE_TIMES_SEPARATOR@ + co_times_line(
                "Aggregated"@,
                aggregated_average,
                aggregated_deviation,
                max as nat,
                median_of(section_times(rs, true), section_counter(rs, true), section_min(rs, true), max) as nat,
            )
        } else {
            Seq::empty()
        }
    }
}

/// The medians of the adjusted part can be walked to.
pub open spec fn co_times_fit(rs: Seq<(String, GooseRequestMetricAggregate)>) -> bool {
    &&& section_aggregable(rs, true)
    &&& section_aggregable(rs, false)
    &&& forall|i: int| 0 <= i < rs.len() ==> match (#[trigger] rs[i]).1.coordinated_omission_data {
        Some(d) => running_totals_fit(d.times@, sorted_keys(d.times@.dom()), half_of(d.counter as nat), 0),
        None => true,
    }
    &&& rs.len() > 1 ==> running_totals_fit(
        section_times(rs, true),
        sorted_keys(section_times(rs, true).dom()),
        half_of(section_counter(rs, true)),
        0,
    )
}

fn push_co_times_line(out: &mut String, name: &str, average: &str, deviation: &str, max: usize, median: usize)
    ensures
        final(out)@ == old(out)@ + co_times_line(name@, average@, deviation@, max as nat, median as nat),
{
    out.append(" ");
    push_padded(out, name, 24);
    out.append(" | ");
    push_left_padded(out, average, 11);
    out.append(" | ");
    push_left_padded(out, deviation, 10);
    out.append(" | ");
    let max_text = format_number(max);
    push_left_padded(out, max_text.as_str(), 11);
    out.append(" | ");
    let median_text = format_number(median);
    push_left_padded(out, median_text.as_str(), 10);
    out.append("\n");
    proof {
        reveal_strlit(" ");
        reveal_strlit(" | ");
        reveal_strlit("\n");
        assert(out@ =~= old(out)@ + co_times_line(name@, average@, deviation@, max as nat, median as nat));
    }
}

proof fn lemma_has_co_data_prefix(rs: Seq<(String, GooseRequestMetricAggregate)>, i: int)
    requires
        0 <= i < rs.len(),
    ensures
        has_co_data(rs.take(i + 1)) == (has_co_data(rs.take(i)) || rs[i].1.coordinated_omission_data is Some),
{
    let a = rs.take(i + 1);
    let b = rs.take(i);
    if has_co_data(a) {
        let j = choose|j: int| 0 <= j < a.len() && (#[trigger] a[j]).1.coordinated_omission_data is Some;
        if j < i {
            assert(b[j] == a[j]);
        }
    }
    if has_co_data(b) {
        let j = choose|j: int| 0 <= j < b.len() && (#[trigger] b[j]).1.coordinated_omission_data is Some;
        assert(a[j] == b[j]);
    }
    if rs[i].1.coordinated_omission_data is Some {
        assert(a[i] == rs[i]);
    }
}

impl GooseMetrics {
    /// Prepares the part of the table of response times adjusted for Coordinated
    /// Omission, when some request has such data: per request, in the order of the
    /// request names, the average and standard deviation (formatted by the caller,
    /// as they are fractions), the slowest and the median adjusted time, or dashes
    /// for a request without adjusted data; and, with more than one request, the
    /// same over all of them.
    #[verifier::spinoff_prover]
    #[verifier::rlimit(40)]
    pub fn fmt_co_response_times(
        &self,
        averages: &Vec<String>,
        deviations: &Vec<String>,
        aggregated_average: &str,
        aggregated_deviation: &str,
    ) -> (s: String)
        requires
            self.wf(),
            averages@.len() == self.requests@.len(),
            deviations@.len() == self.requests@.len(),
            co_times_fit(self.requests@),
        ensures
            s@ == co_times_table(
                self.requests@,
                strings_view(averages@),
                strings_view(deviations@),
                aggregated_average@,
                aggregated_deviation@,
            ),
    {
        let ghost rs = self.requests@;
        let ghost avg = strings_view(averages@);
        let ghost dev = strings_view(deviations@);
        let mut s = String::from_str(CO_RESPONSE_TIMES_HEAD);
        let mut co_aggregate = SectionAggregate::new(Ghost(true));
        let mut raw_aggregate = SectionAggregate::new(Ghost(false));
        let mut co_data = false;
        let mut i: usize = 0;
        proof {
            assert(rs.take(0) =~= Seq::<(String, GooseRequestMetricAggregate)>::empty());
            assert(avg.take(0) =~= Seq::<Seq<char>>::empty());
            assert(dev.take(0) =~= Seq::<Seq<char>>::empty());
        }
        while i < self.requests.len()
            invariant
                rs == self.requests@,
                avg == strings_view(averages@),
                dev == strings_view(deviations@),
                avg.len() == rs.len(),
                dev.len() == rs.len(),
                i <= rs.len(),
                co_times_fit(rs),
                co_aggregate.of(rs.take(i as int), true),
                raw_aggregate.of(rs.take(i as int), false),
                co_data == has_co_data(rs.take(i as int)),
                s@ == CO_RESPONSE_TIMES_HEAD@ + co_times_rows(rs.take(i as int), avg.take(i as int), dev.take(i as int)),
            decreases rs.len() - i,
        {
            let entry = &self.requests[i];
            proof {
                assert(rs.take(i + 1).drop_last() =~= rs.take(i as int));
                assert(avg.take(i + 1).drop_last() =~= avg.take(i as int));
                assert(dev.take(i + 1).drop_last() =~= dev.take(i as int));
                assert(avg[i as int] == averages@[i as int]@);
                assert(dev[i as int] == deviations@[i as int]@);
                lemma_has_co_data_prefix(rs, i as int);
            }
            let shown = truncate_string(entry.0.as_str(), 24);
            match &entry.1.coordinated_omission_data {
                Some(data) => {
                    co_data = true;
                    co_aggregate.add(Ghost(rs), Ghost(true), Ghost(i as int), data);
                    let middle = median(&data.times, data.counter, data.minimum_time, data.maximum_time);
                    push_co_times_line(
                        &mut s,
                        shown.as_str(),
                        averages[i].as_str(),
                        deviations[i].as_str(),
                        data.maximum_time,
                        middle,
                    );
                },
                None => {
                    proof {
                        assert(co_aggregate.of(rs.take(i + 1), true));
                    }
                    s.append(" ");
                    push_padded(&mut s, shown.as_str(), 24);
                    s.append(" |           - |          - |           - |          -\n");
                    proof {
                        reveal_strlit(" ");
                        reveal_strlit(" |           - |          - |           - |          -\n");
                    }
                },
            }
            raw_aggregate.add(Ghost(rs), Ghost(false), Ghost(i as int), &entry.1.raw_data);
            i = i + 1;
        }
        proof {
            assert(rs.take(rs.len() as int) =~= rs);
            assert(avg.take(rs.len() as int) =~= avg);
            assert(dev.take(rs.len() as int) =~= dev);
        }
        if !co_data {
            return String::new();
        }
        if self.requests.len() > 1 {
            let max = self.co_row_max_exec(raw_aggregate.max);
            s.append(RESPONSE_TIMES_SEPARATOR);
            let middle = median(&co_aggregate.times, co_aggregate.counter, co_aggregate.min, max);
            push_co_times_line(&mut s, "Aggregated", aggregated_average, aggregated_deviation, max, middle);
            proof {
                reveal_strlit("Aggregated");
            }
        }
        s
    }

    /// The slowest time of the adjusted aggregated row, as `co_row_max` says.
    fn co_row_max_exec(&self, raw_max: usize) -> (m: usize)
        ensures
            m == co_row_max(self.requests@, raw_max),
    {
        let ghost rs = self.requests@;
        let mut m: usize = 0;
        let mut i: usize = 0;
        proof {
            assert(rs.take(0) =~= Seq::<(String, GooseRequestMetricAggregate)>::empty());
        }
        while i < self.requests.len()
            invariant
                rs == self.requests@,
                i <= rs.len(),
                m == co_row_max(rs.take(i as int), raw_max),
            decreases rs.len() - i,
        {
            proof {
                assert(rs.take(i + 1).drop_last() =~= rs.take(i as int));
            }
            match &self.requests[i].1.coordinated_omission_data {
                Some(data) => {
                    m = update_max_time(raw_max, data.maximum_time);
                },
                None => {},
            }
            i = i + 1;
        }
        proof {
            assert(rs.take(rs.len() as int) =~= rs);
        }
        m
    }
}


/// A row of the table of transaction counts: its name, and for a transaction the
/// times it ran and the times it failed; a scenario's row has no counts.
pub type CountRow = (Seq<char>, Option<(usize, usize)>);

/// The row that names the scenario of the transaction `t`.
pub open spec fn scenario_header(t: TransactionMetricView) -> CountRow {
    (truncated(decimal(t.scenario_index as nat + 1) + ": "@ + t.scenario_name, 60), None)
}

/// The row of the transaction `t`, indented under its scenario.
pub open spec fn transaction_count_row(t: TransactionMetricView) -> CountRow {
    (
        truncated("  "@ + decimal(t.transaction_index as nat + 1) + ": "@ + t.transaction_name, 24),
        Some(((t.success_count + t.fail_count) as usize, t.fail_count)),
    )
}

/// The rows of one scenario: its name before its first transaction, then a row
/// per transaction.
pub open spec fn scenario_count_rows(row: Seq<TransactionMetricView>) -> Seq<CountRow>
    decreases row.len(),
{
    if row.len() == 0 {
        Seq::empty()
    } else if row.len() == 1 {
        seq![scenario_header(row[0]), transaction_count_row(row[0])]
    } else {
        scenario_count_rows(row.drop_last()).push(transaction_count_row(row.last()))
    }
}

/// The rows of all scenarios, one scenario after the other.
pub open spec fn count_rows_of(t: Seq<Seq<TransactionMetricView>>) -> Seq<CountRow>
    decreases t.len(),
{
    if t.len() == 0 {
        Seq::empty()
    } else {
        count_rows_of(t.drop_last()) + scenario_count_rows(t.last())
    }
}

/// All transactions, one scenario after the other.
pub open spec fn flat_transactions(t: Seq<Seq<TransactionMetricView>>) -> Seq<TransactionMetricView>
    decreases t.len(),
{
    if t.len() == 0 {
        Seq::empty()
    } else {
        flat_transactions(t.drop_last()) + t.last()
    }
}

/// How often the transactions ran, added together.
pub open spec fn runs_sum(ts: Seq<TransactionMetricView>) -> nat
    decreases ts.len(),
{
    if ts.len() == 0 {
        0
    } else {
        runs_sum(ts.drop_last()) + ts.last().success_count as nat + ts.last().fail_count as nat
    }
}

/// How often the transactions failed, added together.
pub open spec fn fails_sum(ts: Seq<TransactionMetricView>) -> nat
    decreases ts.len(),
{
    if ts.len() == 0 {
        0
    } else {
        fails_sum(ts.drop_last()) + ts.last().fail_count as nat
    }
}

/// The counts of all transactions add up within a `usize`, and every index has a
/// successor.
pub open spec fn transaction_totals_fit(t: Seq<Seq<TransactionMetricView>>) -> bool {
    let f = flat_transactions(t);
    &&& runs_sum(f) <= usize::MAX
    &&& fails_sum(f) <= usize::MAX
    &&& forall|i: int| 0 <= i < f.len() ==> (#[trigger] f[i]).scenario_index < usize::MAX
        && f[i].transaction_index < usize::MAX
}

/// The table of transaction counts: nothing without transactions or when metrics
/// are not displayed; else the rows of each scenario and, with more than one
/// transaction, their counts added together.
pub open spec fn transaction_rows_spec(t: Seq<Seq<TransactionMetricView>>, display_metrics: bool) -> Seq<CountRow> {
    if t.len() == 0 || !display_metrics {
        Seq::empty()
    } else {
        let f = flat_transactions(t);
        count_rows_of(t) + if f.len() > 1 {
            seq![("Aggregated"@, Some((runs_sum(f) as usize, fails_sum(f) as usize)))]
        } else {
            Seq::empty()
        }
    }
}

proof fn lemma_sums_append(a: Seq<TransactionMetricView>, b: Seq<TransactionMetricView>)
    ensures
        runs_sum(a + b) == runs_sum(a) + runs_sum(b),
        fails_sum(a + b) == fails_sum(a) + fails_sum(b),
    decreases b.len(),
{
    if b.len() > 0 {
        lemma_sums_append(a, b.drop_last());
        assert((a + b).drop_last() =~= a + b.drop_last());
    } else {
        assert(a + b =~= a);
    }
}

proof fn lemma_flat_split(t: Seq<Seq<TransactionMetricView>>, k: int)
    requires
        0 <= k <= t.len(),
    ensures
        flat_transactions(t) == flat_transactions(t.take(k)) + flat_transactions(t.skip(k)),
    decreases t.len(),
{
    if k == t.len() {
        assert(t.take(k) =~= t);
        assert(t.skip(k) =~= Seq::<Seq<TransactionMetricView>>::empty());
        assert(flat_transactions(t) + Seq::<TransactionMetricView>::empty() =~= flat_transactions(t));
    } else {
        let d = t.drop_last();
        lemma_flat_split(d, k);
        assert(d.take(k) =~= t.take(k));
        assert(t.skip(k).drop_last() =~= d.skip(k));
        assert(t.skip(k).last() == t.last());
        assert(flat_transactions(t) =~= flat_transactions(t.take(k)) + flat_transactions(t.skip(k)));
    }
}

/// The rows of the table of transaction counts, for the caller to add the rates
/// and failure percentages: as `transaction_rows_spec` says.
pub fn transaction_count_rows(transactions: &Vec<Vec<TransactionMetricAggregate>>, display_metrics: bool) -> (rows: Vec<
    (String, Option<(usize, usize)>),
>)
    requires
        transaction_totals_fit(transactions_view(transactions@)),
    ensures
        rows@.len() == transaction_rows_spec(transactions_view(transactions@), display_metrics).len(),
        forall|i: int|
            0 <= i < rows@.len() ==> (rows@[i].0@, rows@[i].1) == transaction_rows_spec(
                transactions_view(transactions@),
                display_metrics,
            )[i],
{
    let ghost t = transactions_view(transactions@);
    let mut rows: Vec<(String, Option<(usize, usize)>)> = Vec::new();
    if transactions.len() == 0 || !display_metrics {
        return rows;
    }
    let ghost f = flat_transactions(t);
    let mut runs: usize = 0;
    let mut fails: usize = 0;
    let mut count: usize = 0;
    let mut s: usize = 0;
    proof {
        assert(t.take(0) =~= Seq::<Seq<TransactionMetricView>>::empty());
    }
    while s < transactions.len()
        invariant
            t == transactions_view(transactions@),
            f == flat_transactions(t),
            s <= t.len(),
            transaction_totals_fit(t),
            rows@.len() == count_rows_of(t.take(s as int)).len(),
            forall|i: int| 0 <= i < rows@.len() ==> (#[trigger] rows@[i].0@, rows@[i].1) == count_rows_of(t.take(s as int))[i],
            runs == runs_sum(flat_transactions(t.take(s as int))),
            fails == fails_sum(flat_transactions(t.take(s as int))),
            count == if flat_transactions(t.take(s as int)).len() < 2 { flat_transactions(t.take(s as int)).len() } else { 2 },
        decreases t.len() - s,
    {
        let row = &transactions[s];
        let ghost r = t[s as int];
        let ghost before = flat_transactions(t.take(s as int));
        let ghost base = count_rows_of(t.take(s as int));
        proof {
            assert(r == transactions@[s as int]@.map_values(|m: TransactionMetricAggregate| m@));
            lemma_flat_split(t, s as int);
            lemma_flat_split(t.skip(s as int), 1);
            assert(t.skip(s as int).take(1) =~= seq![r]);
            assert(flat_transactions(seq![r]) =~= r) by {
                let one = seq![r];
                assert(one.drop_last() =~= Seq::<Seq<TransactionMetricView>>::empty());
                assert(one.last() == r);
                assert(flat_transactions(one.drop_last()) == Seq::<TransactionMetricView>::empty());
                assert(Seq::<TransactionMetricView>::empty() + r =~= r);
            }
            lemma_sums_append(before, r + flat_transactions(t.skip(s as int).skip(1)));
            lemma_sums_append(r, flat_transactions(t.skip(s as int).skip(1)));
            assert(f =~= before + (r + flat_transactions(t.skip(s as int).skip(1))));
            assert(r.take(0) =~= Seq::<TransactionMetricView>::empty());
            assert(before + r.take(0) =~= before);
            assert(base + scenario_count_rows(r.take(0)) =~= base);
            assert forall|i: int| 0 <= i < r.len() implies (#[trigger] r[i]).scenario_index < usize::MAX
                && r[i].transaction_index < usize::MAX by {
                assert(f[before.len() + i] == r[i]);
            }
        }
        let mut j: usize = 0;
        while j < row.len()
            invariant
                t == transactions_view(transactions@),
                s < t.len(),
                r == t[s as int],
                r == row@.map_values(|m: TransactionMetricAggregate| m@),
                j <= r.len(),
                transaction_totals_fit(t),
                f == flat_transactions(t),
                runs_sum(before) + runs_sum(r) <= runs_sum(f),
                fails_sum(before) + fails_sum(r) <= fails_sum(f),
                forall|i: int| 0 <= i < r.len() ==> (#[trigger] r[i]).scenario_index < usize::MAX
                    && r[i].transaction_index < usize::MAX,
                rows@.len() == (base + scenario_count_rows(r.take(j as int))).len(),
                forall|i: int| 0 <= i < rows@.len() ==> (#[trigger] rows@[i].0@, rows@[i].1) == (base
                    + scenario_count_rows(r.take(j as int)))[i],
                runs == runs_sum(before + r.take(j as int)),
                fails == fails_sum(before + r.take(j as int)),
                count == if (before + r.take(j as int)).len() < 2 { (before + r.take(j as int)).len() } else { 2 },
            decreases r.len() - j,
        {
            let transaction = &row[j];
            let ghost x = r[j as int];
            let ghost old_rows = rows@;
            proof {
                assert(x == transaction@);
                assert((before + r.take(j + 1)).drop_last() =~= before + r.take(j as int));
                assert((before + r.take(j + 1)).last() == x);
                lemma_sums_append(before, r.take(j + 1));
                lemma_sums_append(r.take(j + 1), r.skip(j + 1));
                assert(r =~= r.take(j + 1) + r.skip(j + 1));
            }
            if j == 0 {
                let mut name = unsigned_text(transaction.scenario_index as u128 + 1);
                name.append(": ");
                name.append(transaction.scenario_name.as_str());
                let shown = truncate_string(name.as_str(), 60);
                rows.push((shown, None));
                proof {
                    reveal_strlit(": ");
                }
            }
            let mut name = String::from_str("  ");
            let number = unsigned_text(transaction.transaction_index as u128 + 1);
            name.append(number.as_str());
            name.append(": ");
            name.append(transaction.transaction_name.as_str());
            let shown = truncate_string(name.as_str(), 24);
            let total = transaction.success_count + transaction.fail_count;
            rows.push((shown, Some((total, transaction.fail_count))));
            runs = runs + total;
            fails = fails + transaction.fail_count;
            count = if count < 2 { count + 1 } else { 2 };
            proof {
                reveal_strlit(": ");
                reveal_strlit("  ");
                let now = base + scenario_count_rows(r.take(j + 1));
                if j == 0 {
                    assert(r.take(1) =~= seq![x]);
                    assert(now =~= base + seq![scenario_header(x), transaction_count_row(x)]);
                } else {
                    assert(r.take(j + 1).drop_last() =~= r.take(j as int));
                    assert(now =~= (base + scenario_count_rows(r.take(j as int))).push(transaction_count_row(x)));
                }
                assert forall|i: int| 0 <= i < rows@.len() implies (#[trigger] rows@[i].0@, rows@[i].1) == now[i] by {
                    if i < old_rows.len() {
                        assert(rows@[i] == old_rows[i]);
                    }
                }
            }
            j = j + 1;
        }
        proof {
            assert(r.take(j as int) =~= r);
            assert(t.take(s + 1).drop_last() =~= t.take(s as int));
            assert(t.take(s + 1).last() == r);
        }
        s = s + 1;
    }
    proof {
        assert(t.take(s as int) =~= t);
    }
    if count > 1 {
        let ghost old_rows = rows@;
        rows.push((String::from_str("Aggregated"), Some((runs, fails))));
        proof {
            reveal_strlit("Aggregated");
            assert forall|i: int| 0 <= i < rows@.len() implies (#[trigger] rows@[i].0@, rows@[i].1)
                == transaction_rows_spec(t, display_metrics)[i] by {
                if i < old_rows.len() {
                    assert(rows@[i] == old_rows[i]);
                }
            }
        }
    } else {
        proof {
            assert(transaction_rows_spec(t, display_metrics) =~= count_rows_of(t));
        }
    }
    rows
}


/// The rows of the table of request counts, one per request name.
pub open spec fn request_count_rows_of(rs: Seq<(String, GooseRequestMetricAggregate)>) -> Seq<(Seq<char>, (usize, usize))>
    decreases rs.len(),
{
    if rs.len() == 0 {
        Seq::empty()
    } else {
        request_count_rows_of(rs.drop_last()).push(
            (
                truncated(rs.last().0@, 24),
                ((rs.last().1.success_count + rs.last().1.fail_count) as usize, rs.last().1.fail_count),
            ),
        )
    }
}

/// The table of request counts: a row per request name with how many requests
/// were made and how many failed, and with more than one name those counts added
/// together.
pub open spec fn request_count_table(rs: Seq<(String, GooseRequestMetricAggregate)>) -> Seq<(Seq<char>, (usize, usize))> {
    request_count_rows_of(rs) + if rs.len() > 1 {
        seq![("Aggregated"@, (requests_total(rs) as usize, failures_total(rs) as usize))]
    } else {
        Seq::empty()
    }
}

proof fn lemma_failures_total_prefix(rs: Seq<(String, GooseRequestMetricAggregate)>, k: int)
    requires
        0 <= k <= rs.len(),
    ensures
        failures_total(rs.take(k)) <= failures_total(rs),
    decreases rs.len(),
{
    if k == rs.len() {
        assert(rs.take(k) =~= rs);
    } else {
        assert(rs.drop_last().take(k) =~= rs.take(k));
        lemma_failures_total_prefix(rs.drop_last(), k);
    }
}

/// The rows of the table of request counts, in the order of the request names,
/// for the caller to add the rates and failure percentages: as
/// `request_count_table` says.
pub fn request_count_rows(requests: &Vec<(String, GooseRequestMetricAggregate)>) -> (rows: Vec<(String, (usize, usize))>)
    requires
        names_ordered(requests@),
        requests_total(requests@) <= usize::MAX,
        failures_total(requests@) <= usize::MAX,
    ensures
        rows@.len() == request_count_table(requests@).len(),
        forall|i: int| 0 <= i < rows@.len() ==> (rows@[i].0@, rows@[i].1) == request_count_table(requests@)[i],
{
    let ghost rs = requests@;
    let mut rows: Vec<(String, (usize, usize))> = Vec::new();
    let mut total: usize = 0;
    let mut failed: usize = 0;
    let mut i: usize = 0;
    proof {
        assert(rs.take(0) =~= Seq::<(String, GooseRequestMetricAggregate)>::empty());
    }
    while i < requests.len()
        invariant
            rs == requests@,
            i <= rs.len(),
            requests_total(rs) <= usize::MAX,
            failures_total(rs) <= usize::MAX,
            total == requests_total(rs.take(i as int)),
            failed == failures_total(rs.take(i as int)),
            rows@.len() == request_count_rows_of(rs.take(i as int)).len(),
            forall|j: int| 0 <= j < rows@.len() ==> (#[trigger] rows@[j].0@, rows@[j].1) == request_count_rows_of(rs.take(i as int))[j],
        decreases rs.len() - i,
    {
        let entry = &requests[i];
        let ghost old_rows = rows@;
        proof {
            lemma_requests_total_prefix(rs, i + 1);
            lemma_failures_total_prefix(rs, i + 1);
            assert(rs.take(i + 1).drop_last() =~= rs.take(i as int));
            assert(rs.take(i + 1).last() == rs[i as int]);
        }
        let count = entry.1.success_count + entry.1.fail_count;
        let shown = truncate_string(entry.0.as_str(), 24);
        rows.push((shown, (count, entry.1.fail_count)));
        total = total + count;
        failed = failed + entry.1.fail_count;
        proof {
            assert forall|j: int| 0 <= j < rows@.len() implies (#[trigger] rows@[j].0@, rows@[j].1)
                == request_count_rows_of(rs.take(i + 1))[j] by {
                if j < old_rows.len() {
                    assert(rows@[j] == old_rows[j]);
                }
            }
        }
        i = i + 1;
    }
    proof {
        assert(rs.take(rs.len() as int) =~= rs);
    }
    if requests.len() > 1 {
        let ghost old_rows = rows@;
        rows.push((String::from_str("Aggregated"), (total, failed)));
        proof {
            reveal_strlit("Aggregated");
            assert forall|j: int| 0 <= j < rows@.len() implies (#[trigger] rows@[j].0@, rows@[j].1)
                == request_count_table(rs)[j] by {
                if j < old_rows.len() {
                    assert(rows@[j] == old_rows[j]);
                }
            }
        }
    } else {
        proof {
            assert(request_count_table(rs) =~= request_count_rows_of(rs));
        }
    }
    rows
}


/// A row of the table of transaction times: its name, and for a transaction its
/// fastest, slowest and median time; a scenario's row has no times.
pub type TimeRow = (Seq<char>, Option<(usize, usize, usize)>);

/// The row of the transaction `t` in the table of times, indented under its scenario.
pub open spec fn transaction_time_row(t: TransactionMetricView) -> TimeRow {
    (
        truncated("  "@ + decimal(t.transaction_index as nat + 1) + ": "@ + t.transaction_name, 24),
        Some((t.min_time, t.max_time, median_of(t.times, t.counter as nat, t.min_time, t.max_time))),
    )
}

/// The rows of one scenario in the table of times: its name before its first
/// transaction, then a row per transaction.
pub open spec fn scenario_time_rows(row: Seq<TransactionMetricView>) -> Seq<TimeRow>
    decreases row.len(),
{
    if row.len() == 0 {
        Seq::empty()
    } else if row.len() == 1 {
        seq![(scenario_header(row[0]).0, None), transaction_time_row(row[0])]
    } else {
        scenario_time_rows(row.drop_last()).push(transaction_time_row(row.last()))
    }
}

/// The rows of all scenarios in the table of times.
pub open spec fn time_rows_of(t: Seq<Seq<TransactionMetricView>>) -> Seq<TimeRow>
    decreases t.len(),
{
    if t.len() == 0 {
        Seq::empty()
    } else {
        time_rows_of(t.drop_last()) + scenario_time_rows(t.last())
    }
}

/// The histograms of the transactions merged together.
pub open spec fn transaction_times_merged(ts: Seq<TransactionMetricView>) -> Map<usize, usize>
    decreases ts.len(),
{
    if ts.len() == 0 {
        Map::empty()
    } else {
        merged(transaction_times_merged(ts.drop_last()), ts.last().times)
    }
}

/// The counters of the transactions added together.
pub open spec fn transaction_counter_sum(ts: Seq<TransactionMetricView>) -> nat
    decreases ts.len(),
{
    if ts.len() == 0 {
        0
    } else {
        transaction_counter_sum(ts.drop_last()) + ts.last().counter as nat
    }
}

/// The fastest time of the transactions, zero standing for none.
pub open spec fn transaction_min_of(ts: Seq<TransactionMetricView>) -> usize
    decreases ts.len(),
{
    if ts.len() == 0 {
        0
    } else {
        updated_min(transaction_min_of(ts.drop_last()), ts.last().min_time)
    }
}

/// The slowest time of the transactions.
pub open spec fn transaction_max_of(ts: Seq<TransactionMetricView>) -> usize
    decreases ts.len(),
{
    if ts.len() == 0 {
        0
    } else {
        updated_max(transaction_max_of(ts.drop_last()), ts.last().max_time)
    }
}

/// The transactions can be aggregated one after the other without overflow.
pub open spec fn transactions_aggregable(ts: Seq<TransactionMetricView>) -> bool
    decreases ts.len(),
{
    ts.len() == 0 || {
        &&& transactions_aggregable(ts.drop_last())
        &&& mergeable(transaction_times_merged(ts.drop_last()), ts.last().times)
        &&& transaction_counter_sum(ts) <= usize::MAX
    }
}

/// The table of transaction times can be computed: the aggregates fit, every index
/// has a successor, and the walks to each median fit.
pub open spec fn transaction_times_fit(t: Seq<Seq<TransactionMetricView>>) -> bool {
    let f = flat_transactions(t);
    &&& transactions_aggregable(f)
    &&& forall|i: int| 0 <= i < f.len() ==> {
        &&& (#[trigger] f[i]).scenario_index < usize::MAX
        &&& f[i].transaction_index < usize::MAX
        &&& running_totals_fit(f[i].times, sorted_keys(f[i].times.dom()), half_of(f[i].counter as nat), 0)
    }
    &&& f.len() > 1 ==> running_totals_fit(
        transaction_times_merged(f),
        sorted_keys(transaction_times_merged(f).dom()),
        half_of(transaction_counter_sum(f)),
        0,
    )
}

/// The table of transaction times: nothing without transactions or when metrics
/// are not displayed; else the rows of each scenario and, with more than one
/// transaction, the times of all of them together.
pub open spec fn transaction_times_spec(t: Seq<Seq<TransactionMetricView>>, display_metrics: bool) -> Seq<TimeRow> {
    if t.len() == 0 || !display_metrics {
        Seq::empty()
    } else {
        let f = flat_transactions(t);
        let (lo, hi) = (transaction_min_of(f), transaction_max_of(f));
        time_rows_of(t) + if f.len() > 1 {
            seq![
                (
                    "Aggregated"@,
                    Some((lo, hi, median_of(transaction_times_merged(f), transaction_counter_sum(f), lo, hi))),
                ),
            ]
        } else {
            Seq::empty()
        }
    }
}

proof fn lemma_transactions_aggregable_prefix(ts: Seq<TransactionMetricView>, k: int)
    requires
        transactions_aggregable(ts),
        0 <= k <= ts.len(),
    ensures
        transactions_aggregable(ts.take(k)),
    decreases ts.len(),
{
    if k == ts.len() {
        assert(ts.take(k) =~= ts);
    } else {
        assert(ts.drop_last().take(k) =~= ts.take(k));
        lemma_transactions_aggregable_prefix(ts.drop_last(), k);
    }
}

/// The rows of the table of transaction times, for the caller to add the
/// averages: as `transaction_times_spec` says.
pub fn transaction_time_rows(transactions: &Vec<Vec<TransactionMetricAggregate>>, display_metrics: bool) -> (rows: Vec<
    (String, Option<(usize, usize, usize)>),
>)
    requires
        transaction_times_fit(transactions_view(transactions@)),
    ensures
        rows@.len() == transaction_times_spec(transactions_view(transactions@), display_metrics).len(),
        forall|i: int|
            0 <= i < rows@.len() ==> (rows@[i].0@, rows@[i].1) == transaction_times_spec(
                transactions_view(transactions@),
                display_metrics,
            )[i],
{
    let ghost t = transactions_view(transactions@);
    let mut rows: Vec<(String, Option<(usize, usize, usize)>)> = Vec::new();
    if transactions.len() == 0 || !display_metrics {
        return rows;
    }
    let ghost f = flat_transactions(t);
    let mut times: BTreeMap<usize, usize> = BTreeMap::new();
    let mut counter: usize = 0;
    let mut lo: usize = 0;
    let mut hi: usize = 0;
    let mut count: usize = 0;
    let mut s: usize = 0;
    proof {
        assert(t.take(0) =~= Seq::<Seq<TransactionMetricView>>::empty());
        assert(times@ =~= Map::<usize, usize>::empty());
    }
    while s < transactions.len()
        invariant
            t == transactions_view(transactions@),
            f == flat_transactions(t),
            s <= t.len(),
            transaction_times_fit(t),
            rows@.len() == time_rows_of(t.take(s as int)).len(),
            forall|i: int| 0 <= i < rows@.len() ==> (#[trigger] rows@[i].0@, rows@[i].1) == time_rows_of(t.take(s as int))[i],
            flat_transactions(t.take(s as int)) == f.take(flat_transactions(t.take(s as int)).len() as int),
            flat_transactions(t.take(s as int)).len() <= f.len(),
            times@ == transaction_times_merged(flat_transactions(t.take(s as int))),
            counter == transaction_counter_sum(flat_transactions(t.take(s as int))),
            lo == transaction_min_of(flat_transactions(t.take(s as int))),
            hi == transaction_max_of(flat_transactions(t.take(s as int))),
            count == if flat_transactions(t.take(s as int)).len() < 2 { flat_transactions(t.take(s as int)).len() } else { 2 },
        decreases t.len() - s,
    {
        let row = &transactions[s];
        let ghost r = t[s as int];
        let ghost before = flat_transactions(t.take(s as int));
        let ghost base = time_rows_of(t.take(s as int));
        proof {
            assert(r == transactions@[s as int]@.map_values(|m: TransactionMetricAggregate| m@));
            lemma_flat_split(t, s + 1);
            assert(t.take(s + 1).drop_last() =~= t.take(s as int));
            assert(t.take(s + 1).last() == r);
            assert(f =~= (before + r) + flat_transactions(t.skip(s + 1)));
            assert(before + r.take(0) =~= before);
            assert(base + scenario_time_rows(r.take(0)) =~= base);
        }
        let mut j: usize = 0;
        while j < row.len()
            invariant
                t == transactions_view(transactions@),
                s < t.len(),
                r == t[s as int],
                r == row@.map_values(|m: TransactionMetricAggregate| m@),
                j <= r.len(),
                transaction_times_fit(t),
                f == flat_transactions(t),
                f == (before + r) + flat_transactions(t.skip(s + 1)),
                rows@.len() == (base + scenario_time_rows(r.take(j as int))).len(),
                forall|i: int| 0 <= i < rows@.len() ==> (#[trigger] rows@[i].0@, rows@[i].1) == (base
                    + scenario_time_rows(r.take(j as int)))[i],
                times@ == transaction_times_merged(before + r.take(j as int)),
                counter == transaction_counter_sum(before + r.take(j as int)),
                lo == transaction_min_of(before + r.take(j as int)),
                hi == transaction_max_of(before + r.take(j as int)),
                count == if (before + r.take(j as int)).len() < 2 { (before + r.take(j as int)).len() } else { 2 },
            decreases r.len() - j,
        {
            let transaction = &row[j];
            let ghost x = r[j as int];
            let ghost old_rows = rows@;
            let ghost n = before.len() + j;
            let ghost prefix = before + r.take(j + 1);
            proof {
                assert(x == transaction@);
                assert(prefix.drop_last() =~= before + r.take(j as int));
                assert(prefix.last() == x);
                assert(prefix =~= f.take(n + 1));
                assert(f[n] == x);
                lemma_transactions_aggregable_prefix(f, n + 1);
            }
            if j == 0 {
                let mut name = unsigned_text(transaction.scenario_index as u128 + 1);
                name.append(": ");
                name.append(transaction.scenario_name.as_str());
                let shown = truncate_string(name.as_str(), 60);
                rows.push((shown, None));
                proof {
                    reveal_strlit(": ");
                }
            }
            let mut name = String::from_str("  ");
            let number = unsigned_text(transaction.transaction_index as u128 + 1);
            name.append(number.as_str());
            name.append(": ");
            name.append(transaction.transaction_name.as_str());
            let shown = truncate_string(name.as_str(), 24);
            let middle = median(&transaction.times, transaction.counter, transaction.min_time, transaction.max_time);
            rows.push((shown, Some((transaction.min_time, transaction.max_time, middle))));
            let mut merged_times = BTreeMap::new();
            std::mem::swap(&mut merged_times, &mut times);
            times = merge_response_times(merged_times, transaction.times.clone());
            counter = counter + transaction.counter;
            lo = update_min_time(lo, transaction.min_time);
            hi = update_max_time(hi, transaction.max_time);
            count = if count < 2 { count + 1 } else { 2 };
            proof {
                reveal_strlit(": ");
                reveal_strlit("  ");
                let now = base + scenario_time_rows(r.take(j + 1));
                if j == 0 {
                    assert(r.take(1) =~= seq![x]);
                    assert(now =~= base + seq![(scenario_header(x).0, None), transaction_time_row(x)]);
                } else {
                    assert(r.take(j + 1).drop_last() =~= r.take(j as int));
                    assert(now =~= (base + scenario_time_rows(r.take(j as int))).push(transaction_time_row(x)));
                }
                assert forall|i: int| 0 <= i < rows@.len() implies (#[trigger] rows@[i].0@, rows@[i].1) == now[i] by {
                    if i < old_rows.len() {
                        assert(rows@[i] == old_rows[i]);
                    }
                }
            }
            j = j + 1;
        }
        proof {
            assert(r.take(j as int) =~= r);
            assert(flat_transactions(t.take(s + 1)) =~= before + r);
            assert(before + r =~= f.take((before + r).len() as int));
        }
        s = s + 1;
    }
    proof {
        assert(t.take(s as int) =~= t);
    }
    if count > 1 {
        let ghost old_rows = rows@;
        let middle = median(&times, counter, lo, hi);
        rows.push((String::from_str("Aggregated"), Some((lo, hi, middle))));
        proof {
            reveal_strlit("Aggregated");
            assert forall|i: int| 0 <= i < rows@.len() implies (#[trigger] rows@[i].0@, rows@[i].1)
                == transaction_times_spec(t, display_metrics)[i] by {
                if i < old_rows.len() {
                    assert(rows@[i] == old_rows[i]);
                }
            }
        }
    } else {
        proof {
            assert(transaction_times_spec(t, display_metrics) =~= time_rows_of(t));
        }
    }
    rows
}


/// The ten-thousandths of the requests that the columns of the percentile table show.
pub open spec fn percentile_columns() -> Seq<nat> {
    seq![5000nat, 7500nat, 9800nat, 9900nat, 9990nat, 9999nat]
}

/// The six times that a row of the percentile table shows for timing data `t`.
pub open spec fn percentile_row_times(t: TimingView) -> Seq<usize> {
    percentile_columns().map_values(|p: nat| time_at_rank(t.0, percentile_rank(t.4, p), t.1 as usize, t.2 as usize))
}

/// The six cells of a row showing the times `v`, each right-aligned.
pub open spec fn percentile_cells_of(v: Seq<usize>) -> Seq<char> {
    " | "@ + left_padded(grouped_decimal(v[0] as nat), 6) + " | "@ + left_padded(grouped_decimal(v[1] as nat), 6)
        + " | "@ + left_padded(grouped_decimal(v[2] as nat), 6) + (" | "@ + left_padded(grouped_decimal(v[3] as nat), 6)
        + " | "@ + left_padded(grouped_decimal(v[4] as nat), 6) + " | "@ + left_padded(grouped_decimal(v[5] as nat), 6))
}

/// Law: a row of the percentile table, for timing data that counts every request
/// it timed, shows six times that never decrease from left to right and that each
/// lie between the fastest and the slowest time.
pub proof fn lemma_percentile_row_ordered(name: Seq<char>, t: TimingView)
    requires
        exists|ks: Seq<usize>| crate::histogram::keys_sorted(ks, t.0.dom()),
        t.4 == histogram_total(t.0),
        t.4 > 0,
        t.1 <= t.2 <= usize::MAX,
    ensures
        percentile_row_times(t).len() == 6,
        forall|i: int, j: int| 0 <= i < j < 6 ==> percentile_row_times(t)[i] <= percentile_row_times(t)[j],
        forall|i: int| 0 <= i < 6 ==> t.1 <= #[trigger] percentile_row_times(t)[i] <= t.2,
        metrics_percentiles_row(name, t) == " "@ + padded(name, 24) + percentile_cells_of(percentile_row_times(t)) + "\n"@,
{
    let v = percentile_row_times(t);
    let ps = percentile_columns();
    let (lo, hi) = (t.1 as usize, t.2 as usize);
    assert forall|i: int, j: int| 0 <= i < j < 6 implies v[i] <= v[j] by {
        lemma_percentiles_ordered(t.0, t.4, lo, hi, ps[i], ps[j]);
    }
    assert forall|i: int| 0 <= i < 6 implies t.1 <= #[trigger] v[i] <= t.2 by {
        lemma_percentiles_ordered(t.0, t.4, lo, hi, ps[i], ps[i]);
    }
    reveal(percentile_cell);
    assert(percentile_cells(t) =~= percentile_cells_of(v));
}

} // verus!
