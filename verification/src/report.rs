//! The html report of a load test: its tables, their rows, and the page around them.

use std::collections::BTreeMap;
use vstd::prelude::*;

use crate::goose::GooseMethod;
use crate::histogram::{
    lemma_running_totals_fit_below, percentile_rank, running_totals_fit, sorted_keys, time_at_rank,
};
use crate::metrics::delta::{value_text_of, ApplyBaseline, DeltaTo, DeltaValue, Value};
use crate::metrics::GooseErrorMetricAggregate;
use crate::stats::calculate_response_time_percentile;
use crate::text::{decimal, format_number, grouped_decimal, unsigned_text};

verus! {

/// The parts that are needed to build an html-formatted summary report.
#[derive(Debug)]
pub struct GooseReportTemplates<'a> {
    pub raw_requests_template: &'a str,
    pub raw_responses_template: &'a str,
    pub co_requests_template: &'a str,
    pub co_responses_template: &'a str,
    pub transactions_template: &'a str,
    pub scenarios_template: &'a str,
    pub status_codes_template: &'a str,
    pub errors_template: &'a str,
    pub graph_rps_template: &'a str,
    pub graph_average_response_time_template: &'a str,
    pub graph_users_per_second: &'a str,
}

/// Which optional tables a report leaves out.
#[derive(Clone, Copy, Debug, PartialEq, Eq, Structural)]
pub struct ReportOptions {
    pub no_transaction_metrics: bool,
    pub no_scenario_metrics: bool,
    pub no_status_codes: bool,
}

/// Defines the metrics reported about requests.
#[derive(Debug)]
pub struct RequestMetric {
    pub method: String,
    pub name: String,
    pub number_of_requests: usize,
    pub number_of_failures: usize,
    pub response_time_average: String,
    pub response_time_minimum: usize,
    pub response_time_maximum: usize,
    pub requests_per_second: String,
    pub failures_per_second: String,
}

/// Defines the metrics reported about Coordinated Omission requests.
#[derive(Debug)]
pub struct CORequestMetric {
    pub method: String,
    pub name: String,
    pub response_time_average: String,
    pub response_time_standard_deviation: String,
    pub response_time_maximum: usize,
}

/// Defines the metrics reported about responses.
#[derive(Debug)]
pub struct ResponseMetric {
    pub method: String,
    pub name: String,
    pub percentile_50: String,
    pub percentile_60: String,
    pub percentile_70: String,
    pub percentile_80: String,
    pub percentile_90: String,
    pub percentile_95: String,
    pub percentile_99: String,
    pub percentile_100: String,
}

/// Defines the metrics reported about transactions.
#[derive(Debug)]
pub struct TransactionMetric {
    pub is_scenario: bool,
    pub transaction: String,
    pub name: String,
    pub number_of_requests: usize,
    pub number_of_failures: usize,
    pub response_time_average: String,
    pub response_time_minimum: usize,
    pub response_time_maximum: usize,
    pub requests_per_second: String,
    pub failures_per_second: String,
}

/// Defines the metrics reported about scenarios.
#[derive(Debug)]
pub struct ScenarioMetric {
    pub name: String,
    pub users: usize,
    pub count: usize,
    pub response_time_average: String,
    pub response_time_minimum: usize,
    pub response_time_maximum: usize,
    pub count_per_second: String,
    pub iterations: String,
}

/// Defines the metrics reported about status codes.
#[derive(Debug)]
pub struct StatusCodeMetric {
    pub method: String,
    pub name: String,
    pub status_codes: String,
}

/// Defines the metrics reported about errors.
#[derive(Debug)]
pub struct ErrorMetric {
    pub method: GooseMethod,
    pub name: String,
    pub error: String,
    pub occurrences: Value<usize>,
}

impl DeltaTo for ErrorMetric {
    /// Only the number of occurrences takes a delta; the rest stays.
    open spec fn delta_applied(self, other: Self) -> Self {
        ErrorMetric { occurrences: self.occurrences.evaluated(other.occurrences), ..self }
    }

    fn delta_to(&mut self, other: &Self) {
        self.occurrences.eval(other.occurrences);
    }
}

/// A value that may be missing: shown as the value, or as nothing at all.
#[derive(Debug)]
pub struct OrEmpty<T>(pub Option<T>);

impl<T: DeltaValue> OrEmpty<Value<T>> {
    /// The text of the value, or the empty text when there is none.
    pub fn to_text(&self) -> (s: String)
        ensures
            s@ == match self.0 {
                Some(v) => value_text_of(v),
                None => Seq::<char>::empty(),
            },
    {
        match &self.0 {
            Some(value) => value.to_text(),
            None => String::new(),
        }
    }
}

/// The formatted response time that `per_myriad` ten-thousandths of the requests
/// finished within.
pub open spec fn percentile_text(
    response_times: Map<usize, usize>,
    total: usize,
    min: usize,
    max: usize,
    per_myriad: nat,
) -> Seq<char> {
    grouped_decimal(time_at_rank(response_times, percentile_rank(total as nat, per_myriad), min, max) as nat)
}

fn formatted_percentile(
    response_times: &BTreeMap<usize, usize>,
    total: usize,
    min: usize,
    max: usize,
    per_myriad: u32,
) -> (s: String)
    requires
        per_myriad <= 10000,
        running_totals_fit(response_times@, sorted_keys(response_times@.dom()), total as nat, 0),
    ensures
        s@ == percentile_text(response_times@, total, min, max, per_myriad as nat),
{
    proof {
        assert(percentile_rank(total as nat, per_myriad as nat) <= total) by (nonlinear_arith)
            requires
                per_myriad <= 10000,
        ;
        lemma_running_totals_fit_below(
            response_times@,
            sorted_keys(response_times@.dom()),
            percentile_rank(total as nat, per_myriad as nat),
            total as nat,
            0,
        );
    }
    let t = calculate_response_time_percentile(response_times, total, min, max, per_myriad);
    format_number(t)
}

/// Helper to generate a single response metric: the response times within which
/// 50, 60, 70, 80, 90, 95, 99 and 100 percent of the requests finished, grouped by
/// thousands.
pub fn get_response_metric(
    method: &str,
    name: &str,
    response_times: &BTreeMap<usize, usize>,
    total_request_count: usize,
    response_time_minimum: usize,
    response_time_maximum: usize,
) -> (r: ResponseMetric)
    requires
        running_totals_fit(
            response_times@,
            sorted_keys(response_times@.dom()),
            total_request_count as nat,
            0,
        ),
    ensures
        r.method@ == method@,
        r.name@ == name@,
        r.percentile_50@ == percentile_text(response_times@, total_request_count, response_time_minimum, response_time_maximum, 5000),
        r.percentile_60@ == percentile_text(response_times@, total_request_count, response_time_minimum, response_time_maximum, 6000),
        r.percentile_70@ == percentile_text(response_times@, total_request_count, response_time_minimum, response_time_maximum, 7000),
        r.percentile_80@ == percentile_text(response_times@, total_request_count, response_time_minimum, response_time_maximum, 8000),
        r.percentile_90@ == percentile_text(response_times@, total_request_count, response_time_minimum, response_time_maximum, 9000),
        r.percentile_95@ == percentile_text(response_times@, total_request_count, response_time_minimum, response_time_maximum, 9500),
        r.percentile_99@ == percentile_text(response_times@, total_request_count, response_time_minimum, response_time_maximum, 9900),
        r.percentile_100@ == percentile_text(response_times@, total_request_count, response_time_minimum, response_time_maximum, 10000),
{
    let (min, max) = (response_time_minimum, response_time_maximum);
    ResponseMetric {
        method: String::from_str(method),
        name: String::from_str(name),
        percentile_50: formatted_percentile(response_times, total_request_count, min, max, 5000),
        percentile_60: formatted_percentile(response_times, total_request_count, min, max, 6000),
        percentile_70: formatted_percentile(response_times, total_request_count, min, max, 7000),
        percentile_80: formatted_percentile(response_times, total_request_count, min, max, 8000),
        percentile_90: formatted_percentile(response_times, total_request_count, min, max, 9000),
        percentile_95: formatted_percentile(response_times, total_request_count, min, max, 9500),
        percentile_99: formatted_percentile(response_times, total_request_count, min, max, 9900),
        percentile_100: formatted_percentile(response_times, total_request_count, min, max, 10000),
    }
}

/// The html row of one request in the request metrics table.
pub open spec fn raw_request_row_text(metric: RequestMetric) -> Seq<char> {
    "<tr>\n        <td>"@
    + metric.method@
    + "</td>\n        <td>"@
    + metric.name@
    + "</td>\n        <td>"@
    + decimal(metric.number_of_requests as nat)
    + "</td>\n        <td>"@
    + decimal(metric.number_of_failures as nat)
    + "</td>\n        <td>"@
    + metric.response_time_average@
    + "</td>\n        <td>"@
    + decimal(metric.response_time_minimum as nat)
    + "</td>\n        <td>"@
    + decimal(metric.response_time_maximum as nat)
    + "</td>\n        <td>"@
    + metric.requests_per_second@
    + "</td>\n        <td>"@
    + metric.failures_per_second@
    + "</td>\n    </tr>"@
}

/// Build an individual row of raw request metrics in the html report.
pub fn raw_request_metrics_row(metric: RequestMetric) -> (s: String)
    ensures
        s@ == raw_request_row_text(metric),
{
    let mut s = String::from_str("<tr>\n        <td>");
    s.append(metric.method.as_str());
    s.append("</td>\n        <td>");
    s.append(metric.name.as_str());
    s.append("</td>\n        <td>");
    let t1 = unsigned_text(metric.number_of_requests as u128);
    s.append(t1.as_str());
    s.append("</td>\n        <td>");
    let t2 = unsigned_text(metric.number_of_failures as u128);
    s.append(t2.as_str());
    s.append("</td>\n        <td>");
    s.append(metric.response_time_average.as_str());
    s.append("</td>\n        <td>");
    let t3 = unsigned_text(metric.response_time_minimum as u128);
    s.append(t3.as_str());
    s.append("</td>\n        <td>");
    let t4 = unsigned_text(metric.response_time_maximum as u128);
    s.append(t4.as_str());
    s.append("</td>\n        <td>");
    s.append(metric.requests_per_second.as_str());
    s.append("</td>\n        <td>");
    s.append(metric.failures_per_second.as_str());
    s.append("</td>\n    </tr>");
    s
}

/// The html row of one request in the response time table.
pub open spec fn response_row_text(metric: ResponseMetric) -> Seq<char> {
    "<tr>\n            <td>"@
    + metric.method@
    + "</td>\n            <td>"@
    + metric.name@
    + "</td>\n            <td>"@
    + metric.percentile_50@
    + "</td>\n            <td>"@
    + metric.percentile_60@
    + "</td>\n            <td>"@
    + metric.percentile_70@
    + "</td>\n            <td>"@
    + metric.percentile_80@
    + "</td>\n            <td>"@
    + metric.percentile_90@
    + "</td>\n            <td>"@
    + metric.percentile_95@
    + "</td>\n            <td>"@
    + metric.percentile_99@
    + "</td>\n            <td>"@
    + metric.percentile_100@
    + "</td>\n        </tr>"@
}

/// Build an individual row of response metrics in the html report.
pub fn response_metrics_row(metric: ResponseMetric) -> (s: String)
    ensures
        s@ == response_row_text(metric),
{
    let mut s = String::from_str("<tr>\n            <td>");
    s.append(metric.method.as_str());
    s.append("</td>\n            <td>");
    s.append(metric.name.as_str());
    s.append("</td>\n            <td>");
    s.append(metric.percentile_50.as_str());
    s.append("</td>\n            <td>");
    s.append(metric.percentile_60.as_str());
    s.append("</td>\n            <td>");
    s.append(metric.percentile_70.as_str());
    s.append("</td>\n            <td>");
    s.append(metric.percentile_80.as_str());
    s.append("</td>\n            <td>");
    s.append(metric.percentile_90.as_str());
    s.append("</td>\n            <td>");
    s.append(metric.percentile_95.as_str());
    s.append("</td>\n            <td>");
    s.append(metric.percentile_99.as_str());
    s.append("</td>\n            <td>");
    s.append(metric.percentile_100.as_str());
    s.append("</td>\n        </tr>");
    s
}

/// The html table of request metrics with Coordinated Omission Mitigation, around its rows.
pub open spec fn co_requests_table_text(co_requests_rows: Seq<char>) -> Seq<char> {
    "<div class=\"CO requests\">\n        <h2>Request Metrics With Coordinated Omission Mitigation</h2>\n        <table>\n            <thead>\n                <tr>\n                    <th>Method</th>\n                    <th>Name</th>\n                    <th>Average (ms)</th>\n                    <th>Standard deviation (ms)</th>\n                    <th>Max (ms)</th>\n                </tr>\n            </thead>\n            <tbody>\n                "@
    + co_requests_rows
    + "\n            </tbody>\n        </table>\n    </div>"@
}

/// If Coordinated Omission Mitigation is triggered, add a relevant request table to the
/// html report.
pub fn coordinated_omission_request_metrics_template(co_requests_rows: &str) -> (s: String)
    ensures
        s@ == co_requests_table_text(co_requests_rows@),
{
    let mut s = String::from_str("<div class=\"CO requests\">\n        <h2>Request Metrics With Coordinated Omission Mitigation</h2>\n        <table>\n            <thead>\n                <tr>\n                    <th>Method</th>\n                    <th>Name</th>\n                    <th>Average (ms)</th>\n                    <th>Standard deviation (ms)</th>\n                    <th>Max (ms)</th>\n                </tr>\n            </thead>\n            <tbody>\n                ");
    s.append(co_requests_rows);
    s.append("\n            </tbody>\n        </table>\n    </div>");
    s
}

/// The html row of one request in the Coordinated Omission request table.
pub open spec fn co_request_row_text(metric: CORequestMetric) -> Seq<char> {
    "<tr>\n            <td>"@
    + metric.method@
    + "</td>\n            <td>"@
    + metric.name@
    + "</td>\n            <td>"@
    + metric.response_time_average@
    + ")</td>\n            <td>"@
    + metric.response_time_standard_deviation@
    + "</td>\n            <td>"@
    + decimal(metric.response_time_maximum as nat)
    + "</td>\n        </tr>"@
}

/// Build an individual row of Coordinated Omission Mitigation request metrics in
/// the html report.
pub fn coordinated_omission_request_metrics_row(metric: CORequestMetric) -> (s: String)
    ensures
        s@ == co_request_row_text(metric),
{
    let mut s = String::from_str("<tr>\n            <td>");
    s.append(metric.method.as_str());
    s.append("</td>\n            <td>");
    s.append(metric.name.as_str());
    s.append("</td>\n            <td>");
    s.append(metric.response_time_average.as_str());
    s.append(")</td>\n            <td>");
    s.append(metric.response_time_standard_deviation.as_str());
    s.append("</td>\n            <td>");
    let t1 = unsigned_text(metric.response_time_maximum as u128);
    s.append(t1.as_str());
    s.append("</td>\n        </tr>");
    s
}

/// The html table of response times with Coordinated Omission Mitigation, around its rows.
pub open spec fn co_responses_table_text(co_responses_rows: Seq<char>) -> Seq<char> {
    "<div class=\"responses\">\n        <h2>Response Time Metrics With Coordinated Omission Mitigation</h2>\n        <table>\n            <thead>\n                <tr>\n                    <th>Method</th>\n                    <th>Name</th>\n                    <th>50%ile (ms)</th>\n                    <th>60%ile (ms)</th>\n                    <th>70%ile (ms)</th>\n                    <th>80%ile (ms)</th>\n                    <th>90%ile (ms)</th>\n                    <th>95%ile (ms)</th>\n                    <th>99%ile (ms)</th>\n                    <th>100%ile (ms)</th>\n                </tr>\n            </thead>\n            <tbody>\n                "@
    + co_responses_rows
    + "\n            </tbody>\n        </table>\n    </div>"@
}

/// If Coordinated Omission Mitigation is triggered, add a relevant response table to the
/// html report.
pub fn coordinated_omission_response_metrics_template(co_responses_rows: &str) -> (s: String)
    ensures
        s@ == co_responses_table_text(co_responses_rows@),
{
    let mut s = String::from_str("<div class=\"responses\">\n        <h2>Response Time Metrics With Coordinated Omission Mitigation</h2>\n        <table>\n            <thead>\n                <tr>\n                    <th>Method</th>\n                    <th>Name</th>\n                    <th>50%ile (ms)</th>\n                    <th>60%ile (ms)</th>\n                    <th>70%ile (ms)</th>\n                    <th>80%ile (ms)</th>\n                    <th>90%ile (ms)</th>\n                    <th>95%ile (ms)</th>\n                    <th>99%ile (ms)</th>\n                    <th>100%ile (ms)</th>\n                </tr>\n            </thead>\n            <tbody>\n                ");
    s.append(co_responses_rows);
    s.append("\n            </tbody>\n        </table>\n    </div>");
    s
}

/// The html row of one request in the Coordinated Omission response table.
pub open spec fn co_response_row_text(metric: ResponseMetric) -> Seq<char> {
    "<tr>\n            <td>"@
    + metric.method@
    + "</td>\n            <td>"@
    + metric.name@
    + "</td>\n            <td>"@
    + metric.percentile_50@
    + "</td>\n            <td>"@
    + metric.percentile_60@
    + "</td>\n            <td>"@
    + metric.percentile_70@
    + "</td>\n            <td>"@
    + metric.percentile_80@
    + "</td>\n            <td>"@
    + metric.percentile_90@
    + "</td>\n            <td>"@
    + metric.percentile_95@
    + "</td>\n            <td>"@
    + metric.percentile_99@
    + "</td>\n            <td>"@
    + metric.percentile_100@
    + "</td>\n        </tr>"@
}

/// Build an individual row of Coordinated Omission Mitigation response metrics in
/// the html report.
pub fn coordinated_omission_response_metrics_row(metric: ResponseMetric) -> (s: String)
    ensures
        s@ == co_response_row_text(metric),
{
    let mut s = String::from_str("<tr>\n            <td>");
    s.append(metric.method.as_str());
    s.append("</td>\n            <td>");
    s.append(metric.name.as_str());
    s.append("</td>\n            <td>");
    s.append(metric.percentile_50.as_str());
    s.append("</td>\n            <td>");
    s.append(metric.percentile_60.as_str());
    s.append("</td>\n            <td>");
    s.append(metric.percentile_70.as_str());
    s.append("</td>\n            <td>");
    s.append(metric.percentile_80.as_str());
    s.append("</td>\n            <td>");
    s.append(metric.percentile_90.as_str());
    s.append("</td>\n            <td>");
    s.append(metric.percentile_95.as_str());
    s.append("</td>\n            <td>");
    s.append(metric.percentile_99.as_str());
    s.append("</td>\n            <td>");
    s.append(metric.percentile_100.as_str());
    s.append("</td>\n        </tr>");
    s
}

/// The html table of status codes, around its rows.
pub open spec fn status_codes_table_text(status_code_rows: Seq<char>) -> Seq<char> {
    "<div class=\"status_codes\">\n        <h2>Status Code Metrics</h2>\n        <table>\n            <thead>\n                <tr>\n                    <th>Method</th>\n                    <th colspan=\"2\">Name</th>\n                    <th colspan=\"3\">Status Codes</th>\n                </tr>\n            </thead>\n            <tbody>\n                "@
    + status_code_rows
    + "\n            </tbody>\n        </table>\n    </div>"@
}

/// If status code metrics are enabled, add a status code metrics table to the
/// html report.
pub fn status_code_metrics_template(status_code_rows: &str) -> (s: String)
    ensures
        s@ == status_codes_table_text(status_code_rows@),
{
    let mut s = String::from_str("<div class=\"status_codes\">\n        <h2>Status Code Metrics</h2>\n        <table>\n            <thead>\n                <tr>\n                    <th>Method</th>\n                    <th colspan=\"2\">Name</th>\n                    <th colspan=\"3\">Status Codes</th>\n                </tr>\n            </thead>\n            <tbody>\n                ");
    s.append(status_code_rows);
    s.append("\n            </tbody>\n        </table>\n    </div>");
    s
}

/// The html row of one request in the status code table.
pub open spec fn status_code_row_text(metric: StatusCodeMetric) -> Seq<char> {
    "<tr>\n        <td>"@
    + metric.method@
    + "</td>\n        <td colspan=\"2\">"@
    + metric.name@
    + "</td>\n        <td colspan=\"3\">"@
    + metric.status_codes@
    + "</td>\n    </tr>"@
}

/// Build an individual row of status code metrics in the html report.
pub fn status_code_metrics_row(metric: StatusCodeMetric) -> (s: String)
    ensures
        s@ == status_code_row_text(metric),
{
    let mut s = String::from_str("<tr>\n        <td>");
    s.append(metric.method.as_str());
    s.append("</td>\n        <td colspan=\"2\">");
    s.append(metric.name.as_str());
    s.append("</td>\n        <td colspan=\"3\">");
    s.append(metric.status_codes.as_str());
    s.append("</td>\n    </tr>");
    s
}

/// The html table of transactions, around its graph and rows.
pub open spec fn transactions_table_text(transaction_rows: Seq<char>, graph: Seq<char>) -> Seq<char> {
    "<div class=\"transactions\">\n        <h2>Transaction Metrics</h2>\n\n        "@
    + graph
    + "\n\n        <table>\n            <thead>\n                <tr>\n                    <th colspan=\"2\">Transaction</th>\n                    <th># Times Run</th>\n                    <th># Fails</th>\n                    <th>Average (ms)</th>\n                    <th>Min (ms)</th>\n                    <th>Max (ms)</th>\n                    <th>RPS</th>\n                    <th>Failures/s</th>\n                </tr>\n            </thead>\n            <tbody>\n                "@
    + transaction_rows
    + "\n            </tbody>\n        </table>\n    </div>"@
}

/// If transaction metrics are enabled, add a transaction metrics table to the html report.
pub fn transaction_metrics_template(transaction_rows: &str, graph: String) -> (s: String)
    ensures
        s@ == transactions_table_text(transaction_rows@, graph@),
{
    let mut s = String::from_str("<div class=\"transactions\">\n        <h2>Transaction Metrics</h2>\n\n        ");
    s.append(graph.as_str());
    s.append("\n\n        <table>\n            <thead>\n                <tr>\n                    <th colspan=\"2\">Transaction</th>\n                    <th># Times Run</th>\n                    <th># Fails</th>\n                    <th>Average (ms)</th>\n                    <th>Min (ms)</th>\n                    <th>Max (ms)</th>\n                    <th>RPS</th>\n                    <th>Failures/s</th>\n                </tr>\n            </thead>\n            <tbody>\n                ");
    s.append(transaction_rows);
    s.append("\n            </tbody>\n        </table>\n    </div>");
    s
}

/// The html table of scenarios, around its graph and rows.
pub open spec fn scenarios_table_text(scenario_rows: Seq<char>, graph: Seq<char>) -> Seq<char> {
    "<div class=\"scenarios\">\n        <h2>Scenario Metrics</h2>\n\n        "@
    + graph
    + "\n\n        <table>\n            <thead>\n                <tr>\n                    <th colspan=\"2\">Scenario</th>\n                    <th># Users</th>\n                    <th># Times Run</th>\n                    <th>Average (ms)</th>\n                    <th>Min (ms)</th>\n                    <th>Max (ms)</th>\n                    <th>Scenarios/s</th>\n                    <th>Iterations</th>\n                </tr>\n            </thead>\n            <tbody>\n                "@
    + scenario_rows
    + "\n            </tbody>\n        </table>\n    </div>"@
}

/// If scenario metrics are enabled, add a scenario metrics table to the html report.
pub fn scenario_metrics_template(scenario_rows: &str, graph: String) -> (s: String)
    ensures
        s@ == scenarios_table_text(scenario_rows@, graph@),
{
    let mut s = String::from_str("<div class=\"scenarios\">\n        <h2>Scenario Metrics</h2>\n\n        ");
    s.append(graph.as_str());
    s.append("\n\n        <table>\n            <thead>\n                <tr>\n                    <th colspan=\"2\">Scenario</th>\n                    <th># Users</th>\n                    <th># Times Run</th>\n                    <th>Average (ms)</th>\n                    <th>Min (ms)</th>\n                    <th>Max (ms)</th>\n                    <th>Scenarios/s</th>\n                    <th>Iterations</th>\n                </tr>\n            </thead>\n            <tbody>\n                ");
    s.append(scenario_rows);
    s.append("\n            </tbody>\n        </table>\n    </div>");
    s
}

/// The html row of one scenario; user and run counts are grouped by thousands.
pub open spec fn scenario_row_text(metric: ScenarioMetric) -> Seq<char> {
    "<tr>\n            <td colspan=\"2\">"@
    + metric.name@
    + "</strong></td>\n            <td>"@
    + grouped_decimal(metric.users as nat)
    + "</td>\n            <td>"@
    + grouped_decimal(metric.count as nat)
    + "</td>\n            <td>"@
    + metric.response_time_average@
    + "</td>\n            <td>"@
    + decimal(metric.response_time_minimum as nat)
    + "</td>\n            <td>"@
    + decimal(metric.response_time_maximum as nat)
    + "</td>\n            <td>"@
    + metric.count_per_second@
    + "</td>\n            <td>"@
    + metric.iterations@
    + "</td>\n        </tr>"@
}

/// Build an individual row of scenario metrics in the html report.
pub fn scenario_metrics_row(metric: ScenarioMetric) -> (s: String)
    ensures
        s@ == scenario_row_text(metric),
{
    let mut s = String::from_str("<tr>\n            <td colspan=\"2\">");
    s.append(metric.name.as_str());
    s.append("</strong></td>\n            <td>");
    let t1 = format_number(metric.users);
    s.append(t1.as_str());
    s.append("</td>\n            <td>");
    let t2 = format_number(metric.count);
    s.append(t2.as_str());
    s.append("</td>\n            <td>");
    s.append(metric.response_time_average.as_str());
    s.append("</td>\n            <td>");
    let t3 = unsigned_text(metric.response_time_minimum as u128);
    s.append(t3.as_str());
    s.append("</td>\n            <td>");
    let t4 = unsigned_text(metric.response_time_maximum as u128);
    s.append(t4.as_str());
    s.append("</td>\n            <td>");
    s.append(metric.count_per_second.as_str());
    s.append("</td>\n            <td>");
    s.append(metric.iterations.as_str());
    s.append("</td>\n        </tr>");
    s
}

/// The html table of errors, around its graph and rows.
pub open spec fn errors_table_text(error_rows: Seq<char>, graph: Seq<char>) -> Seq<char> {
    "<div class=\"errors\">\n        <h2>Errors</h2>\n\n        "@
    + graph
    + "\n\n        <table>\n            <thead>\n                <tr>\n                    <th>#</th>\n                    <th colspan=\"3\">Error</th>\n                </tr>\n            </thead>\n            <tbody>\n                "@
    + error_rows
    + "\n            </tbody>\n        </table>\n    </div>"@
}

/// If there are errors, add an errors table to the html report.
pub fn errors_template(error_rows: &str, graph: String) -> (s: String)
    ensures
        s@ == errors_table_text(error_rows@, graph@),
{
    let mut s = String::from_str("<div class=\"errors\">\n        <h2>Errors</h2>\n\n        ");
    s.append(graph.as_str());
    s.append("\n\n        <table>\n            <thead>\n                <tr>\n                    <th>#</th>\n                    <th colspan=\"3\">Error</th>\n                </tr>\n            </thead>\n            <tbody>\n                ");
    s.append(error_rows);
    s.append("\n            </tbody>\n        </table>\n    </div>");
    s
}

/// The html row of one error: how often it occurred, and its text.
pub open spec fn error_row_text(error: GooseErrorMetricAggregate) -> Seq<char> {
    "<tr>\n        <td>"@
    + decimal(error.occurrences as nat)
    + "</td>\n        <td colspan=\"4\">"@
    + error.error@
    + "</strong></td>\n    </tr>"@
}

/// Build an individual error row in the html report.
pub fn error_row(error: &GooseErrorMetricAggregate) -> (s: String)
    ensures
        s@ == error_row_text(*error),
{
    let mut s = String::from_str("<tr>\n        <td>");
    let t1 = unsigned_text(error.occurrences as u128);
    s.append(t1.as_str());
    s.append("</td>\n        <td colspan=\"4\">");
    s.append(error.error.as_str());
    s.append("</strong></td>\n    </tr>");
    s
}

/// The html row of one transaction, or the heading row of a scenario; run and
/// failure counts are grouped by thousands.
pub open spec fn transaction_row_text(metric: TransactionMetric) -> Seq<char> {
    if metric.is_scenario {
        "<tr>\n            <td colspan=\"10\" align=\"left\"><strong>"@
        + metric.name@
        + "</strong></td>\n        </tr>"@
    } else {
        "<tr>\n            <td colspan=\"2\">"@
        + metric.transaction@
        + " "@
        + metric.name@
        + "</strong></td>\n            <td>"@
        + grouped_decimal(metric.number_of_requests as nat)
        + "</td>\n            <td>"@
        + grouped_decimal(metric.number_of_failures as nat)
        + "</td>\n            <td>"@
        + metric.response_time_average@
        + "</td>\n            <td>"@
        + decimal(metric.response_time_minimum as nat)
        + "</td>\n            <td>"@
        + decimal(metric.response_time_maximum as nat)
        + "</td>\n            <td>"@
        + metric.requests_per_second@
        + "</td>\n            <td>"@
        + metric.failures_per_second@
        + "</td>\n        </tr>"@
    }
}

/// Build an individual row of transaction metrics in the html report.
pub fn transaction_metrics_row(metric: TransactionMetric) -> (s: String)
    ensures
        s@ == transaction_row_text(metric),
{
    if metric.is_scenario {
        let mut s = String::from_str("<tr>\n            <td colspan=\"10\" align=\"left\"><strong>");
        s.append(metric.name.as_str());
        s.append("</strong></td>\n        </tr>");
        s
    } else {
        let mut s = String::from_str("<tr>\n            <td colspan=\"2\">");
        s.append(metric.transaction.as_str());
        s.append(" ");
        s.append(metric.name.as_str());
        s.append("</strong></td>\n            <td>");
        let t1 = format_number(metric.number_of_requests);
        s.append(t1.as_str());
        s.append("</td>\n            <td>");
        let t2 = format_number(metric.number_of_failures);
        s.append(t2.as_str());
        s.append("</td>\n            <td>");
        s.append(metric.response_time_average.as_str());
        s.append("</td>\n            <td>");
        let t3 = unsigned_text(metric.response_time_minimum as u128);
        s.append(t3.as_str());
        s.append("</td>\n            <td>");
        let t4 = unsigned_text(metric.response_time_maximum as u128);
        s.append(t4.as_str());
        s.append("</td>\n            <td>");
        s.append(metric.requests_per_second.as_str());
        s.append("</td>\n            <td>");
        s.append(metric.failures_per_second.as_str());
        s.append("</td>\n        </tr>");
        s
    }
}

/// The whole html report around its parts.
pub open spec fn report_text(
    users: &str,
    steps_rows: &str,
    hosts: &str,
    templates: GooseReportTemplates,
    pkg_name: &str,
    pkg_version: &str,
) -> Seq<char> {
    "<!DOCTYPE html>\n<html>\n<head>\n    <meta charset=\"utf-8\">\n    <title>Goose Attack Report</title>\n    <style>\n        .container {\n            width: 1000px;\n            margin: 0 auto;\n            padding: 10px;\n            background: #173529;\n            font-family: Arial, Helvetica, sans-serif;\n            font-size: 14px;\n            color: #fff;\n        }\n\n        .info span{\n            color: #b3c3bc;\n        }\n\n        table {\n            border-collapse: collapse;\n            text-align: center;\n            width: 100%;\n        }\n\n        td, th {\n            border: 1px solid #cad9ea;\n            color: #666;\n            height: 30px;\n        }\n\n        thead th {\n            background-color: #cce8eb;\n            width: 100px;\n        }\n\n        tr:nth-child(odd) {\n            background: #fff;\n        }\n\n        tr:nth-child(even) {\n            background: #f5fafa;\n        }\n\n        .charts-container .chart {\n            width: 100%;\n            height: 350px;\n            margin-bottom: 30px;\n        }\n\n        .download {\n            float: right;\n        }\n\n        .download a {\n            color: #00ca5a;\n        }\n\n        .graph {\n            margin-bottom: 1em;\n        }\n    </style>\n    <script src=\"https://cdn.jsdelivr.net/npm/echarts@5.2.2/dist/echarts.min.js\"></script>\n</head>\n<body>\n    <div class=\"container\">\n        <h1>Goose Attack Report</h1>\n\n        <div class=\"info\">\n            <p>Users: <span>"@
    + users@
    + "</span> </p>\n            <p>Target Host: <span>"@
    + hosts@
    + "</span></p>\n            <p><span><small><em>"@
    + pkg_name@
    + " v"@
    + pkg_version@
    + "</em></small></span></p>\n            <h2>Plan overview</h2>\n                <table>\n                    <thead>\n                        <tr>\n                            <th>Action</th>\n                            <th>Started</th>\n                            <th>Stopped</th>\n                            <th>Elapsed</th>\n                            <th>Users</th>\n                        </tr>\n                    </thead>\n                    <tbody>\n                        "@
    + steps_rows@
    + "\n                    </tbody>\n                </table>\n        </div>\n\n        <div class=\"requests\">\n            <h2>Request Metrics</h2>\n\n            "@
    + templates.graph_rps_template@
    + "\n\n            <table>\n                <thead>\n                    <tr>\n                        <th>Method</th>\n                        <th>Name</th>\n                        <th># Requests</th>\n                        <th># Fails</th>\n                        <th>Average (ms)</th>\n                        <th>Min (ms)</th>\n                        <th>Max (ms)</th>\n                        <th>RPS</th>\n                        <th>Failures/s</th>\n                    </tr>\n                </thead>\n                <tbody>\n                    "@
    + templates.raw_requests_template@
    + "\n                </tbody>\n            </table>\n        </div>\n\n        "@
    + templates.co_requests_template@
    + "\n\n        <div class=\"responses\">\n            <h2>Response Time Metrics</h2>\n\n            "@
    + templates.graph_average_response_time_template@
    + "\n\n            <table>\n                <thead>\n                    <tr>\n                        <th>Method</th>\n                        <th>Name</th>\n                        <th>50%ile (ms)</th>\n                        <th>60%ile (ms)</th>\n                        <th>70%ile (ms)</th>\n                        <th>80%ile (ms)</th>\n                        <th>90%ile (ms)</th>\n                        <th>95%ile (ms)</th>\n                        <th>99%ile (ms)</th>\n                        <th>100%ile (ms)</th>\n                    </tr>\n                </thead>\n                <tbody>\n                    "@
    + templates.raw_responses_template@
    + "\n                </tbody>\n            </table>\n        </div>\n\n        "@
    + templates.co_responses_template@
    + "\n\n        "@
    + templates.status_codes_template@
    + "\n\n        "@
    + templates.transactions_template@
    + "\n\n        "@
    + templates.scenarios_template@
    + "\n\n        <div class=\"users\">\n        <h2>User Metrics</h2>\n            "@
    + templates.graph_users_per_second@
    + "\n        </div>\n\n        "@
    + templates.errors_template@
    + "\n\n    </div>\n</body>\n</html>"@
}

/// Build the html report, naming the package and its version at its head.
pub fn build_report(
    users: &str,
    steps_rows: &str,
    hosts: &str,
    templates: GooseReportTemplates,
    pkg_name: &str,
    pkg_version: &str,
) -> (s: String)
    ensures
        s@ == report_text(users, steps_rows, hosts, templates, pkg_name, pkg_version),
{
    let mut s = String::from_str("<!DOCTYPE html>\n<html>\n<head>\n    <meta charset=\"utf-8\">\n    <title>Goose Attack Report</title>\n    <style>\n        .container {\n            width: 1000px;\n            margin: 0 auto;\n            padding: 10px;\n            background: #173529;\n            font-family: Arial, Helvetica, sans-serif;\n            font-size: 14px;\n            color: #fff;\n        }\n\n        .info span{\n            color: #b3c3bc;\n        }\n\n        table {\n            border-collapse: collapse;\n            text-align: center;\n            width: 100%;\n        }\n\n        td, th {\n            border: 1px solid #cad9ea;\n            color: #666;\n            height: 30px;\n        }\n\n        thead th {\n            background-color: #cce8eb;\n            width: 100px;\n        }\n\n        tr:nth-child(odd) {\n            background: #fff;\n        }\n\n        tr:nth-child(even) {\n            background: #f5fafa;\n        }\n\n        .charts-container .chart {\n            width: 100%;\n            height: 350px;\n            margin-bottom: 30px;\n        }\n\n        .download {\n            float: right;\n        }\n\n        .download a {\n            color: #00ca5a;\n        }\n\n        .graph {\n            margin-bottom: 1em;\n        }\n    </style>\n    <script src=\"https://cdn.jsdelivr.net/npm/echarts@5.2.2/dist/echarts.min.js\"></script>\n</head>\n<body>\n    <div class=\"container\">\n        <h1>Goose Attack Report</h1>\n\n        <div class=\"info\">\n            <p>Users: <span>");
    s.append(users);
    s.append("</span> </p>\n            <p>Target Host: <span>");
    s.append(hosts);
    s.append("</span></p>\n            <p><span><small><em>");
    s.append(pkg_name);
    s.append(" v");
    s.append(pkg_version);
    s.append("</em></small></span></p>\n            <h2>Plan overview</h2>\n                <table>\n                    <thead>\n                        <tr>\n                            <th>Action</th>\n                            <th>Started</th>\n                            <th>Stopped</th>\n                            <th>Elapsed</th>\n                            <th>Users</th>\n                        </tr>\n                    </thead>\n                    <tbody>\n                        ");
    s.append(steps_rows);
    s.append("\n                    </tbody>\n                </table>\n        </div>\n\n        <div class=\"requests\">\n            <h2>Request Metrics</h2>\n\n            ");
    s.append(templates.graph_rps_template);
    s.append("\n\n            <table>\n                <thead>\n                    <tr>\n                        <th>Method</th>\n                        <th>Name</th>\n                        <th># Requests</th>\n                        <th># Fails</th>\n                        <th>Average (ms)</th>\n                        <th>Min (ms)</th>\n                        <th>Max (ms)</th>\n                        <th>RPS</th>\n                        <th>Failures/s</th>\n                    </tr>\n                </thead>\n                <tbody>\n                    ");
    s.append(templates.raw_requests_template);
    s.append("\n                </tbody>\n            </table>\n        </div>\n\n        ");
    s.append(templates.co_requests_template);
    s.append("\n\n        <div class=\"responses\">\n            <h2>Response Time Metrics</h2>\n\n            ");
    s.append(templates.graph_average_response_time_template);
    s.append("\n\n            <table>\n                <thead>\n                    <tr>\n                        <th>Method</th>\n                        <th>Name</th>\n                        <th>50%ile (ms)</th>\n                        <th>60%ile (ms)</th>\n                        <th>70%ile (ms)</th>\n                        <th>80%ile (ms)</th>\n                        <th>90%ile (ms)</th>\n                        <th>95%ile (ms)</th>\n                        <th>99%ile (ms)</th>\n                        <th>100%ile (ms)</th>\n                    </tr>\n                </thead>\n                <tbody>\n                    ");
    s.append(templates.raw_responses_template);
    s.append("\n                </tbody>\n            </table>\n        </div>\n\n        ");
    s.append(templates.co_responses_template);
    s.append("\n\n        ");
    s.append(templates.status_codes_template);
    s.append("\n\n        ");
    s.append(templates.transactions_template);
    s.append("\n\n        ");
    s.append(templates.scenarios_template);
    s.append("\n\n        <div class=\"users\">\n        <h2>User Metrics</h2>\n            ");
    s.append(templates.graph_users_per_second);
    s.append("\n        </div>\n\n        ");
    s.append(templates.errors_template);
    s.append("\n\n    </div>\n</body>\n</html>");
    s
}

} // verus!
