//! The tables of the live dashboard: the requests and the errors, ranked and cut
//! to a number of rows, and the figures over all requests.

use std::collections::{BTreeMap, HashMap};
use vstd::prelude::*;
use vstd::std_specs::cmp::OrdSpec;
use vstd::std_specs::iter::IteratorSpec;

use crate::goose::{method_text, GooseMethod};
use crate::histogram::{
    integer_keys_ordered, lemma_usize_keys_ordered, percentile_rank, running_totals_fit, sorted_keys, time_at_rank,
};
use crate::metrics::goose_metrics::{
    section_aggregable, section_counter, section_max, section_min, section_times, section_total, section_view,
    SectionAggregate,
};
use crate::metrics::{GooseErrorMetricAggregate, GooseRequestMetricAggregate, TimingView};
use crate::stats::percentile_below;
use crate::status_codes::lists_codes;
use crate::text::{compare_text, lemma_text_less_transitive, lemma_text_less_trichotomy, text_less, TextOrder};
use crate::util::chars_of;

verus! {

broadcast use vstd::std_specs::btree::group_btree_axioms;

/// The most request rows a dashboard shows.
pub const MAX_REQUEST_ROWS: usize = 100;

/// The most error rows a dashboard shows.
pub const MAX_ERROR_ROWS: usize = 50;

/// `a` comes before `b` when their texts are compared one after the other.
pub open spec fn texts_less(a: Seq<Seq<char>>, b: Seq<Seq<char>>) -> bool
    decreases a.len(),
{
    if a.len() == 0 || b.len() == 0 {
        false
    } else if a[0] != b[0] {
        text_less(a[0], b[0])
    } else {
        texts_less(a.drop_first(), b.drop_first())
    }
}

/// A ranking entry: a count, the texts that break ties, and the position of the
/// ranked item.
pub type RankEntry = (usize, Seq<Seq<char>>, usize);

/// Entry `a` ranks above `b`: a larger count, or the same count and texts that
/// come first.
pub open spec fn ranks_above(a: RankEntry, b: RankEntry) -> bool {
    a.0 > b.0 || (a.0 == b.0 && texts_less(a.1, b.1))
}

/// No entry ranks above an entry before it.
pub open spec fn ranked(es: Seq<RankEntry>) -> bool {
    forall|i: int, j: int| 0 <= i < j < es.len() ==> !ranks_above(#[trigger] es[j], #[trigger] es[i])
}

proof fn lemma_texts_less_irreflexive(a: Seq<Seq<char>>)
    ensures
        !texts_less(a, a),
    decreases a.len(),
{
    if a.len() > 0 {
        lemma_texts_less_irreflexive(a.drop_first());
    }
}

proof fn lemma_texts_less_order(a: Seq<Seq<char>>, b: Seq<Seq<char>>, c: Seq<Seq<char>>)
    ensures
        !texts_less(a, a),
        texts_less(a, b) && texts_less(b, c) ==> texts_less(a, c),
    decreases a.len(),
{
    lemma_texts_less_irreflexive(a);
    if a.len() > 0 && b.len() > 0 && c.len() > 0 {
        assert(a[0].take(0) =~= c[0].take(0));
        assert(a[0].take(0) =~= b[0].take(0));
        lemma_text_less_trichotomy(a[0], c[0], 0);
        lemma_text_less_trichotomy(a[0], b[0], 0);
        if texts_less(a, b) && texts_less(b, c) {
            if a[0] != b[0] && b[0] != c[0] {
                lemma_text_less_transitive(a[0], b[0], c[0], 0);
            }
        }
        lemma_texts_less_order(a.drop_first(), b.drop_first(), c.drop_first());
    }
}

proof fn lemma_ranks_above_order(a: RankEntry, b: RankEntry, c: RankEntry)
    ensures
        !ranks_above(a, a),
        ranks_above(a, b) && ranks_above(b, c) ==> ranks_above(a, c),
{
    lemma_texts_less_order(a.1, b.1, c.1);
    lemma_texts_less_order(a.1, a.1, a.1);
}

/// The texts as plain values.
pub open spec fn texts_view(ts: Seq<Vec<char>>) -> Seq<Seq<char>> {
    ts.map_values(|t: Vec<char>| t@)
}

/// The ranking entries as plain values.
pub open spec fn entries_view(es: Seq<(usize, Vec<Vec<char>>, usize)>) -> Seq<RankEntry> {
    es.map_values(|e: (usize, Vec<Vec<char>>, usize)| (e.0, texts_view(e.1@), e.2))
}

/// Whether the texts `a` come before the texts `b`.
fn texts_before(a: &Vec<Vec<char>>, b: &Vec<Vec<char>>) -> (r: bool)
    ensures
        r == texts_less(texts_view(a@), texts_view(b@)),
{
    let ghost av = texts_view(a@);
    let ghost bv = texts_view(b@);
    let mut i: usize = 0;
    proof {
        assert(av.skip(0) =~= av);
        assert(bv.skip(0) =~= bv);
    }
    while i < a.len() && i < b.len()
        invariant
            av == texts_view(a@),
            bv == texts_view(b@),
            i <= a@.len(),
            i <= b@.len(),
            texts_less(av, bv) == texts_less(av.skip(i as int), bv.skip(i as int)),
        decreases a@.len() - i,
    {
        let o = compare_text(&a[i], &b[i]);
        proof {
            assert(av.skip(i as int)[0] == a@[i as int]@);
            assert(bv.skip(i as int)[0] == b@[i as int]@);
            assert(av.skip(i as int).drop_first() =~= av.skip(i + 1));
            assert(bv.skip(i as int).drop_first() =~= bv.skip(i + 1));
        }
        if o == TextOrder::Less {
            return true;
        } else if o == TextOrder::Greater {
            proof {
                assert(a@[i as int]@.take(0) =~= b@[i as int]@.take(0));
                lemma_text_less_trichotomy(a@[i as int]@, b@[i as int]@, 0);
            }
            return false;
        }
        i = i + 1;
    }
    false
}

/// Insert `e` into `es`, which are ranked, before the first entry it ranks above.
fn insert_ranked(es: &mut Vec<(usize, Vec<Vec<char>>, usize)>, e: (usize, Vec<Vec<char>>, usize)) -> (p: usize)
    requires
        ranked(entries_view(old(es)@)),
    ensures
        p <= old(es)@.len(),
        final(es)@ == old(es)@.insert(p as int, e),
        ranked(entries_view(final(es)@)),
        entries_view(final(es)@).to_multiset() == entries_view(old(es)@).to_multiset().insert(
            (e.0, texts_view(e.1@), e.2),
        ),
{
    let ghost before = entries_view(es@);
    let ghost ev = (e.0, texts_view(e.1@), e.2);
    let mut p: usize = 0;
    let mut found = false;
    while p < es.len() && !found
        invariant
            before == entries_view(es@),
            ev == (e.0, texts_view(e.1@), e.2),
            p <= es@.len(),
            forall|k: int| 0 <= k < p ==> !ranks_above(ev, #[trigger] before[k]),
            found ==> p < es@.len() && ranks_above(ev, before[p as int]),
        decreases es@.len() - p + (if found { 0int } else { 1int }),
    {
        proof {
            assert(before[p as int] == (es@[p as int].0, texts_view(es@[p as int].1@), es@[p as int].2));
        }
        let above = e.0 > es[p].0 || (e.0 == es[p].0 && texts_before(&e.1, &es[p].1));
        if above {
            found = true;
        } else {
            p = p + 1;
        }
    }
    es.insert(p, e);
    proof {
        broadcast use vstd::seq_lib::group_to_multiset_ensures;

        let after = entries_view(es@);
        assert(after =~= before.insert(p as int, ev));
        assert forall|i: int, j: int| 0 <= i < j < after.len() implies !ranks_above(
            #[trigger] after[j],
            #[trigger] after[i],
        ) by {
            if i == p && j > p {
                lemma_ranks_above_order(before[j - 1], ev, before[p as int]);
                lemma_ranks_above_order(before[p as int], before[p as int], before[p as int]);
            }
        }
    }
    p
}

/// The status codes of `m`, each once with its count, in increasing order.
fn sorted_status_codes(m: &HashMap<u16, usize>) -> (kvs: Vec<(u16, usize)>)
    ensures
        lists_codes(kvs@, m@),
        forall|i: int, j: int| 0 <= i < j < kvs@.len() ==> kvs@[i].0 < kvs@[j].0,
{
    broadcast use vstd::std_specs::hash::axiom_spec_hash_map_iter;
    broadcast use vstd::std_specs::hash::axiom_u16_obeys_hash_table_key_model;
    broadcast use vstd::laws_cmp::group_laws_cmp;

    proof {
        lemma_usize_keys_ordered();
    }
    let ghost all = m.iter().remaining();
    let mut ordered: BTreeMap<u16, usize> = BTreeMap::new();
    for kv in it: m.iter()
        invariant
            it.seq() == all,
            integer_keys_ordered(),
            forall|k: u16| #[trigger] ordered@.contains_key(k) ==> m@.contains_key(k) && ordered@[k] == m@[k],
            forall|j: int| 0 <= j < it.index() ==> #[trigger] ordered@.contains_key(*all[j].0),
    {
        let ghost j = it.index();
        proof {
            assert(all[j] == kv);
            assert(m@.contains_key(*kv.0) && m@[*kv.0] == *kv.1);
        }
        ordered.insert(*kv.0, *kv.1);
    }
    proof {
        assert forall|k: u16| #[trigger] m@.contains_key(k) implies ordered@.contains_key(k) by {
            assert(all.contains((&k, &m@[k])));
            let j = choose|j: int| 0 <= j < all.len() && all[j] == (&k, &m@[k]);
            assert(ordered@.contains_key(*all[j].0));
        }
    }
    let iter = ordered.iter();
    let ghost entries = iter.remaining();
    proof {
        let keys = entries.map_values(|kv: (&u16, &usize)| *kv.0);
        assert(vstd::std_specs::btree::increasing_seq(keys));
        assert forall|i: int, j: int| 0 <= i < j < entries.len() implies *entries[i].0 < *entries[j].0 by {
            assert(keys[i] == *entries[i].0);
            assert(keys[j] == *entries[j].0);
            assert(keys[i].cmp_spec(&keys[j]) is Less);
        }
    }
    let mut kvs: Vec<(u16, usize)> = Vec::new();
    for kv in it: iter
        invariant
            it.seq() == entries,
            kvs@.len() == it.index(),
            forall|i: int| 0 <= i < kvs@.len() ==> #[trigger] kvs@[i] == (*entries[i].0, *entries[i].1),
    {
        kvs.push((*kv.0, *kv.1));
    }
    proof {
        assert forall|i: int| 0 <= i < kvs@.len() implies #[trigger] m@.contains_key(kvs@[i].0) && m@[kvs@[i].0]
            == kvs@[i].1 by {
            assert(ordered@.contains_key(*entries[i].0));
            assert(ordered@[*entries[i].0] == *entries[i].1);
        }
        assert forall|k: u16| #[trigger] m@.contains_key(k) implies exists|i: int| 0 <= i < kvs@.len() && kvs@[i].0 == k by {
            assert(entries.contains((&k, &ordered@[k])));
            let i = choose|i: int| 0 <= i < entries.len() && entries[i] == (&k, &ordered@[k]);
            assert(kvs@[i].0 == k);
        }
    }
    kvs
}

/// The times within which half, 95% and 99% of the timed requests finished; zeros
/// when no request was timed.
pub open spec fn dashboard_percentiles(t: TimingView) -> (usize, usize, usize) {
    if t.4 == 0 {
        (0, 0, 0)
    } else {
        (
            time_at_rank(t.0, percentile_rank(t.4, 5000), t.1 as usize, t.2 as usize),
            time_at_rank(t.0, percentile_rank(t.4, 9500), t.1 as usize, t.2 as usize),
            time_at_rank(t.0, percentile_rank(t.4, 9900), t.1 as usize, t.2 as usize),
        )
    }
}

/// A row of the dashboard's request table. The rates and the average are left to
/// the caller, from the counts and the times here.
#[derive(Debug)]
pub struct DashboardRequestRow {
    pub method: GooseMethod,
    pub name: String,
    pub request_count: usize,
    pub failure_count: usize,
    pub response_time_total: usize,
    pub response_time_counter: usize,
    pub response_time_min: usize,
    pub response_time_max: usize,
    /// The 50th, 95th and 99th percentiles.
    pub percentiles: (usize, usize, usize),
    /// The status codes with their counts, in increasing order of code.
    pub status_codes: Vec<(u16, usize)>,
}

/// A row of the dashboard's error table.
#[derive(Debug)]
pub struct DashboardErrorRow {
    pub method: GooseMethod,
    pub name: String,
    pub error: String,
    pub occurrences: usize,
}

/// The tables of the dashboard and the figures over all requests.
#[derive(Debug)]
pub struct DashboardRows {
    pub requests: Vec<DashboardRequestRow>,
    pub errors: Vec<DashboardErrorRow>,
    /// There were more requests than rows shown.
    pub requests_truncated: bool,
    /// There were more errors than rows shown.
    pub errors_truncated: bool,
    pub total_requests: usize,
    pub total_failures: usize,
    pub response_time_total: usize,
    pub response_time_counter: usize,
    pub response_time_min: usize,
    pub response_time_max: usize,
    /// The 50th, 95th and 99th percentiles over all requests.
    pub percentiles: (usize, usize, usize),
    /// Metrics are disabled.
    pub metrics_disabled: bool,
    /// Coordinated Omission Mitigation is active: it recorded events.
    pub co_active: bool,
    /// The series of recent seconds is shown; without metrics it is left empty.
    pub include_series: bool,
    /// How many recent seconds the series covers.
    pub series_seconds: u32,
}

/// `row` shows the request `r`.
pub open spec fn request_row_of(row: DashboardRequestRow, r: GooseRequestMetricAggregate, no_status_codes: bool) -> bool {
    &&& row.method == r.method
    &&& row.name@ == r.path@
    &&& row.request_count == r.success_count + r.fail_count
    &&& row.failure_count == r.fail_count
    &&& row.response_time_total == r.raw_data.total_time
    &&& row.response_time_counter == r.raw_data.counter
    &&& row.response_time_min == r.raw_data.minimum_time
    &&& row.response_time_max == r.raw_data.maximum_time
    &&& row.percentiles == dashboard_percentiles(r.raw_data@)
    &&& if no_status_codes {
        row.status_codes@.len() == 0
    } else {
        &&& lists_codes(row.status_codes@, r.status_code_counts@)
        &&& forall|i: int, j: int| 0 <= i < j < row.status_codes@.len() ==> row.status_codes@[i].0 < row.status_codes@[j].0
    }
}

/// `row` shows the error `e`.
pub open spec fn error_row_of(row: DashboardErrorRow, e: GooseErrorMetricAggregate) -> bool {
    &&& row.method == e.method
    &&& row.name@ == e.name@
    &&& row.error@ == e.error@
    &&& row.occurrences == e.occurrences
}

/// The ranking entry of request `i`: its count of requests, then its method and path.
pub open spec fn request_key(rs: Seq<(String, GooseRequestMetricAggregate)>, i: int) -> RankEntry {
    let r = rs[i].1;
    ((r.success_count + r.fail_count) as usize, seq![method_text(r.method), r.path@], i as usize)
}

/// The ranking entries of all requests.
pub open spec fn request_keys(rs: Seq<(String, GooseRequestMetricAggregate)>) -> Seq<RankEntry> {
    Seq::new(rs.len(), |i: int| request_key(rs, i))
}

/// The ranking entry of error `i`: its occurrences, then its method, name and error.
pub open spec fn error_key(es: Seq<(String, GooseErrorMetricAggregate)>, i: int) -> RankEntry {
    let e = es[i].1;
    (e.occurrences, seq![method_text(e.method), e.name@, e.error@], i as usize)
}

/// The ranking entries of all errors.
pub open spec fn error_keys(es: Seq<(String, GooseErrorMetricAggregate)>) -> Seq<RankEntry> {
    Seq::new(es.len(), |i: int| error_key(es, i))
}

/// The requests made, successful or not, added over all requests.
pub open spec fn requests_total(rs: Seq<(String, GooseRequestMetricAggregate)>) -> nat
    decreases rs.len(),
{
    if rs.len() == 0 {
        0
    } else {
        requests_total(rs.drop_last()) + rs.last().1.success_count as nat + rs.last().1.fail_count as nat
    }
}

/// The failed requests added over all requests.
pub open spec fn failures_total(rs: Seq<(String, GooseRequestMetricAggregate)>) -> nat
    decreases rs.len(),
{
    if rs.len() == 0 {
        0
    } else {
        failures_total(rs.drop_last()) + rs.last().1.fail_count as nat
    }
}

/// The figures of the dashboard fit in a `usize`: the totals, the aggregated
/// timing data, and the walks to the 99th percentile of each request and of all.
pub open spec fn dashboard_fits(rs: Seq<(String, GooseRequestMetricAggregate)>) -> bool {
    &&& requests_total(rs) <= usize::MAX
    &&& failures_total(rs) <= usize::MAX
    &&& section_aggregable(rs, false)
    &&& forall|i: int| 0 <= i < rs.len() ==> running_totals_fit(
        (#[trigger] rs[i]).1.raw_data.times@,
        sorted_keys(rs[i].1.raw_data.times@.dom()),
        percentile_rank(rs[i].1.raw_data.counter as nat, 9900),
        0,
    )
    &&& running_totals_fit(
        section_times(rs, false),
        sorted_keys(section_times(rs, false).dom()),
        percentile_rank(section_counter(rs, false), 9900),
        0,
    )
}

proof fn lemma_totals_prefix(rs: Seq<(String, GooseRequestMetricAggregate)>, k: int)
    requires
        0 <= k <= rs.len(),
    ensures
        requests_total(rs.take(k)) <= requests_total(rs),
        failures_total(rs.take(k)) <= failures_total(rs),
    decreases rs.len(),
{
    if k == rs.len() {
        assert(rs.take(k) =~= rs);
    } else {
        assert(rs.drop_last().take(k) =~= rs.take(k));
        lemma_totals_prefix(rs.drop_last(), k);
    }
}

proof fn lemma_count_within_total(rs: Seq<(String, GooseRequestMetricAggregate)>, i: int)
    requires
        0 <= i < rs.len(),
    ensures
        rs[i].1.success_count + rs[i].1.fail_count <= requests_total(rs),
    decreases rs.len(),
{
    if i < rs.len() - 1 {
        lemma_count_within_total(rs.drop_last(), i);
    }
}

/// The percentiles of timing data whose walk fits up to the 99th percentile.
fn timing_percentiles(
    times: &BTreeMap<usize, usize>,
    counter: usize,
    min: usize,
    max: usize,
) -> (p: (usize, usize, usize))
    requires
        running_totals_fit(times@, sorted_keys(times@.dom()), percentile_rank(counter as nat, 9900), 0),
    ensures
        p == dashboard_percentiles((times@, min as nat, max as nat, 0, counter as nat)),
{
    if counter == 0 {
        (0, 0, 0)
    } else {
        (
            percentile_below(times, counter, min, max, 5000, Ghost(9900)),
            percentile_below(times, counter, min, max, 9500, Ghost(9900)),
            percentile_below(times, counter, min, max, 9900, Ghost(9900)),
        )
    }
}

/// The row that shows the request `r`.
fn request_row(r: &GooseRequestMetricAggregate, no_status_codes: bool) -> (row: DashboardRequestRow)
    requires
        r.success_count + r.fail_count <= usize::MAX,
        running_totals_fit(
            r.raw_data.times@,
            sorted_keys(r.raw_data.times@.dom()),
            percentile_rank(r.raw_data.counter as nat, 9900),
            0,
        ),
    ensures
        request_row_of(row, *r, no_status_codes),
{
    let data = &r.raw_data;
    let percentiles = timing_percentiles(&data.times, data.counter, data.minimum_time, data.maximum_time);
    let status_codes = if no_status_codes {
        Vec::new()
    } else {
        sorted_status_codes(&r.status_code_counts)
    };
    DashboardRequestRow {
        method: r.method,
        name: r.path.clone(),
        request_count: r.success_count + r.fail_count,
        failure_count: r.fail_count,
        response_time_total: data.total_time,
        response_time_counter: data.counter,
        response_time_min: data.minimum_time,
        response_time_max: data.maximum_time,
        percentiles,
        status_codes,
    }
}

/// The row that shows the error `e`.
fn error_row(e: &GooseErrorMetricAggregate) -> (row: DashboardErrorRow)
    ensures
        error_row_of(row, *e),
{
    DashboardErrorRow { method: e.method, name: e.name.clone(), error: e.error.clone(), occurrences: e.occurrences }
}

/// The number of rows shown of `n` items when at most `cap` are shown.
pub open spec fn shown_rows(n: nat, cap: nat) -> nat {
    if n > cap {
        cap
    } else {
        n
    }
}

/// Build the tables of the dashboard. With metrics disabled they are empty, all
/// figures zero, Coordinated Omission inactive and the series left out; the
/// series covers the window it is given either way. Otherwise the requests are ranked by how many were made, the
/// most first, then by method and path, and the first hundred are shown; the
/// errors are ranked by occurrences, then by method, name and error, and the
/// first fifty are shown; the figures are taken over all requests.
pub fn dashboard_rows(
    requests: &Vec<(String, GooseRequestMetricAggregate)>,
    errors: &Vec<(String, GooseErrorMetricAggregate)>,
    metrics_disabled: bool,
    no_status_codes: bool,
    co_has_events: bool,
    series_window_secs: u32,
) -> (r: DashboardRows)
    requires
        !metrics_disabled ==> dashboard_fits(requests@),
    ensures
        r.metrics_disabled == metrics_disabled,
        r.co_active == (!metrics_disabled && co_has_events),
        r.include_series == !metrics_disabled,
        r.series_seconds == series_window_secs,
        metrics_disabled ==> {
            &&& r.requests@.len() == 0
            &&& r.errors@.len() == 0
            &&& !r.requests_truncated
            &&& !r.errors_truncated
            &&& r.total_requests == 0
            &&& r.total_failures == 0
            &&& r.response_time_total == 0
            &&& r.response_time_counter == 0
            &&& r.response_time_min == 0
            &&& r.response_time_max == 0
            &&& r.percentiles == (0usize, 0usize, 0usize)
        },
        !metrics_disabled ==> {
            &&& r.requests_truncated == (requests@.len() > MAX_REQUEST_ROWS)
            &&& r.requests@.len() == shown_rows(requests@.len() as nat, MAX_REQUEST_ROWS as nat)
            &&& exists|order: Seq<RankEntry>|
                {
                    &&& order.to_multiset() == request_keys(requests@).to_multiset()
                    &&& ranked(order)
                    &&& forall|i: int| 0 <= i < r.requests@.len() ==> request_row_of(
                        #[trigger] r.requests@[i],
                        requests@[order[i].2 as int].1,
                        no_status_codes,
                    )
                }
            &&& r.errors_truncated == (errors@.len() > MAX_ERROR_ROWS)
            &&& r.errors@.len() == shown_rows(errors@.len() as nat, MAX_ERROR_ROWS as nat)
            &&& exists|order: Seq<RankEntry>|
                {
                    &&& order.to_multiset() == error_keys(errors@).to_multiset()
                    &&& ranked(order)
                    &&& forall|i: int| 0 <= i < r.errors@.len() ==> error_row_of(
                        #[trigger] r.errors@[i],
                        errors@[order[i].2 as int].1,
                    )
                }
            &&& r.total_requests == requests_total(requests@)
            &&& r.total_failures == failures_total(requests@)
            &&& r.response_time_total == section_total(requests@, false)
            &&& r.response_time_counter == section_counter(requests@, false)
            &&& r.response_time_min == section_min(requests@, false)
            &&& r.response_time_max == section_max(requests@, false)
            &&& r.percentiles == dashboard_percentiles(section_view(requests@, false))
        },
{
    if metrics_disabled {
        return DashboardRows {
            requests: Vec::new(),
            errors: Vec::new(),
            requests_truncated: false,
            errors_truncated: false,
            total_requests: 0,
            total_failures: 0,
            response_time_total: 0,
            response_time_counter: 0,
            response_time_min: 0,
            response_time_max: 0,
            percentiles: (0, 0, 0),
            metrics_disabled: true,
            co_active: false,
            include_series: false,
            series_seconds: series_window_secs,
        };
    }
    let ghost rs = requests@;
    let mut entries: Vec<(usize, Vec<Vec<char>>, usize)> = Vec::new();
    let mut aggregate = SectionAggregate::new(Ghost(false));
    let mut total_requests: usize = 0;
    let mut total_failures: usize = 0;
    let mut i: usize = 0;
    proof {
        assert(rs.take(0) =~= Seq::<(String, GooseRequestMetricAggregate)>::empty());
        assert(request_keys(rs).take(0) =~= Seq::<RankEntry>::empty());
        assert(entries_view(entries@) =~= Seq::<RankEntry>::empty());
    }
    while i < requests.len()
        invariant
            rs == requests@,
            i <= rs.len(),
            dashboard_fits(rs),
            ranked(entries_view(entries@)),
            entries_view(entries@).to_multiset() == request_keys(rs).take(i as int).to_multiset(),
            forall|k: int| 0 <= k < entries@.len() ==> (#[trigger] entries@[k]).2 < rs.len(),
            aggregate.of(rs.take(i as int), false),
            total_requests == requests_total(rs.take(i as int)),
            total_failures == failures_total(rs.take(i as int)),
        decreases rs.len() - i,
    {
        let request = &requests[i].1;
        proof {
            lemma_totals_prefix(rs, i + 1);
            assert(rs.take(i + 1).drop_last() =~= rs.take(i as int));
        }
        let count = request.success_count + request.fail_count;
        total_requests = total_requests + count;
        total_failures = total_failures + request.fail_count;
        aggregate.add(Ghost(rs), Ghost(false), Ghost(i as int), &request.raw_data);
        let mut texts: Vec<Vec<char>> = Vec::new();
        texts.push(chars_of(request.method.text()));
        texts.push(chars_of(request.path.as_str()));
        let ghost old_entries = entries@;
        let ghost e = (count, texts, i);
        let p = insert_ranked(&mut entries, (count, texts, i));
        proof {
            broadcast use vstd::seq_lib::group_to_multiset_ensures;

            assert(texts_view(e.1@) =~= seq![method_text(request.method), request.path@]);
            assert((e.0, texts_view(e.1@), e.2) == request_key(rs, i as int));
            assert(request_keys(rs).take(i + 1) =~= request_keys(rs).take(i as int).push(request_key(rs, i as int)));
            assert forall|k: int| 0 <= k < entries@.len() implies (#[trigger] entries@[k]).2 < rs.len() by {
                if k < p {
                    assert(entries@[k] == old_entries[k]);
                } else if k > p {
                    assert(entries@[k] == old_entries[k - 1]);
                }
            }
        }
        i = i + 1;
    }
    proof {
        broadcast use vstd::seq_lib::group_to_multiset_ensures;

        assert(rs.take(rs.len() as int) =~= rs);
        assert(request_keys(rs).take(rs.len() as int) =~= request_keys(rs));
        vstd::seq_lib::to_multiset_len(entries_view(entries@));
        vstd::seq_lib::to_multiset_len(request_keys(rs));
        assert(entries_view(entries@).len() == rs.len());
    }
    let requests_truncated = entries.len() > MAX_REQUEST_ROWS;
    let shown = if requests_truncated {
        MAX_REQUEST_ROWS
    } else {
        entries.len()
    };
    let ghost order = entries_view(entries@);
    let mut request_rows: Vec<DashboardRequestRow> = Vec::new();
    let mut k: usize = 0;
    while k < shown
        invariant
            rs == requests@,
            dashboard_fits(rs),
            shown <= entries@.len(),
            order == entries_view(entries@),
            forall|k: int| 0 <= k < entries@.len() ==> (#[trigger] entries@[k]).2 < rs.len(),
            k <= shown,
            request_rows@.len() == k,
            forall|j: int| 0 <= j < k ==> request_row_of(
                #[trigger] request_rows@[j],
                rs[order[j].2 as int].1,
                no_status_codes,
            ),
        decreases shown - k,
    {
        let index = entries[k].2;
        proof {
            assert(order[k as int].2 == index);
            lemma_count_within_total(rs, index as int);
            assert(running_totals_fit(
                rs[index as int].1.raw_data.times@,
                sorted_keys(rs[index as int].1.raw_data.times@.dom()),
                percentile_rank(rs[index as int].1.raw_data.counter as nat, 9900),
                0,
            ));
        }
        let row = request_row(&requests[index].1, no_status_codes);
        request_rows.push(row);
        k = k + 1;
    }
    let ghost es = errors@;
    let mut error_entries: Vec<(usize, Vec<Vec<char>>, usize)> = Vec::new();
    let mut i: usize = 0;
    proof {
        assert(error_keys(es).take(0) =~= Seq::<RankEntry>::empty());
        assert(entries_view(error_entries@) =~= Seq::<RankEntry>::empty());
    }
    while i < errors.len()
        invariant
            es == errors@,
            i <= es.len(),
            ranked(entries_view(error_entries@)),
            entries_view(error_entries@).to_multiset() == error_keys(es).take(i as int).to_multiset(),
            forall|k: int| 0 <= k < error_entries@.len() ==> (#[trigger] error_entries@[k]).2 < es.len(),
        decreases es.len() - i,
    {
        let error = &errors[i].1;
        let mut texts: Vec<Vec<char>> = Vec::new();
        texts.push(chars_of(error.method.text()));
        texts.push(chars_of(error.name.as_str()));
        texts.push(chars_of(error.error.as_str()));
        let ghost old_entries = error_entries@;
        let ghost e = (error.occurrences, texts, i);
        let p = insert_ranked(&mut error_entries, (error.occurrences, texts, i));
        proof {
            broadcast use vstd::seq_lib::group_to_multiset_ensures;

            assert(texts_view(e.1@) =~= seq![method_text(error.method), error.name@, error.error@]);
            assert((e.0, texts_view(e.1@), e.2) == error_key(es, i as int));
            assert(error_keys(es).take(i + 1) =~= error_keys(es).take(i as int).push(error_key(es, i as int)));
            assert forall|k: int| 0 <= k < error_entries@.len() implies (#[trigger] error_entries@[k]).2 < es.len() by {
                if k < p {
                    assert(error_entries@[k] == old_entries[k]);
                } else if k > p {
                    assert(error_entries@[k] == old_entries[k - 1]);
                }
            }
        }
        i = i + 1;
    }
    proof {
        broadcast use vstd::seq_lib::group_to_multiset_ensures;

        assert(error_keys(es).take(es.len() as int) =~= error_keys(es));
        vstd::seq_lib::to_multiset_len(entries_view(error_entries@));
        vstd::seq_lib::to_multiset_len(error_keys(es));
        assert(entries_view(error_entries@).len() == es.len());
    }
    let errors_truncated = error_entries.len() > MAX_ERROR_ROWS;
    let shown_errors = if errors_truncated {
        MAX_ERROR_ROWS
    } else {
        error_entries.len()
    };
    let ghost error_order = entries_view(error_entries@);
    let mut error_rows: Vec<DashboardErrorRow> = Vec::new();
    let mut k: usize = 0;
    while k < shown_errors
        invariant
            es == errors@,
            shown_errors <= error_entries@.len(),
            error_order == entries_view(error_entries@),
            forall|k: int| 0 <= k < error_entries@.len() ==> (#[trigger] error_entries@[k]).2 < es.len(),
            k <= shown_errors,
            error_rows@.len() == k,
            forall|j: int| 0 <= j < k ==> error_row_of(#[trigger] error_rows@[j], es[error_order[j].2 as int].1),
        decreases shown_errors - k,
    {
        let index = error_entries[k].2;
        proof {
            assert(error_order[k as int].2 == index);
        }
        let row = error_row(&errors[index].1);
        error_rows.push(row);
        k = k + 1;
    }
    let percentiles = timing_percentiles(&aggregate.times, aggregate.counter, aggregate.min, aggregate.max);
    DashboardRows {
        requests: request_rows,
        errors: error_rows,
        requests_truncated,
        errors_truncated,
        total_requests,
        total_failures,
        response_time_total: aggregate.total,
        response_time_counter: aggregate.counter,
        response_time_min: aggregate.min,
        response_time_max: aggregate.max,
        percentiles,
        metrics_disabled: false,
        co_active: co_has_events,
        include_series: true,
        series_seconds: series_window_secs,
    }
}

} // verus!
