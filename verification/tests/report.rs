use std::collections::BTreeMap;

use goose::goose::GooseMethod;
use goose::metrics::GooseErrorMetricAggregate;
use goose::report::{
    build_report, coordinated_omission_request_metrics_row, error_row, errors_template,
    get_response_metric, raw_request_metrics_row, scenario_metrics_row, status_code_metrics_row,
    transaction_metrics_row, CORequestMetric, GooseReportTemplates, RequestMetric, ScenarioMetric,
    StatusCodeMetric, TransactionMetric,
};

#[test]
fn error_row_shows_occurrences_and_error() {
    let mut error = GooseErrorMetricAggregate::new(
        GooseMethod::Get,
        "/".to_string(),
        "503 Service Unavailable".to_string(),
    );
    error.occurrences = 1234;
    let expected = format!(
        r#"<tr>
        <td>{occurrences}</td>
        <td colspan="4">{error}</strong></td>
    </tr>"#,
        occurrences = 1234,
        error = "503 Service Unavailable",
    );
    assert_eq!(error_row(&error), expected);
}

#[test]
fn raw_request_row() {
    let metric = RequestMetric {
        method: "GET".to_string(),
        name: "/".to_string(),
        number_of_requests: 200,
        number_of_failures: 5,
        response_time_average: "50.00".to_string(),
        response_time_minimum: 10,
        response_time_maximum: 5000,
        requests_per_second: "20.00".to_string(),
        failures_per_second: "0.50".to_string(),
    };
    let expected = format!(
        r#"<tr>
        <td>{method}</td>
        <td>{name}</td>
        <td>{number_of_requests}</td>
        <td>{number_of_failures}</td>
        <td>{response_time_average}</td>
        <td>{response_time_minimum}</td>
        <td>{response_time_maximum}</td>
        <td>{requests_per_second}</td>
        <td>{failures_per_second}</td>
    </tr>"#,
        method = "GET",
        name = "/",
        number_of_requests = 200,
        number_of_failures = 5,
        response_time_average = "50.00",
        response_time_minimum = 10,
        response_time_maximum = 5000,
        requests_per_second = "20.00",
        failures_per_second = "0.50",
    );
    assert_eq!(raw_request_metrics_row(metric), expected);
}

fn transaction(is_scenario: bool) -> TransactionMetric {
    TransactionMetric {
        is_scenario,
        transaction: "0.1".to_string(),
        name: "front page".to_string(),
        number_of_requests: 1234567,
        number_of_failures: 12,
        response_time_average: "7.50".to_string(),
        response_time_minimum: 3,
        response_time_maximum: 1200,
        requests_per_second: "1.00".to_string(),
        failures_per_second: "0.00".to_string(),
    }
}

#[test]
fn transaction_rows_group_counts() {
    let expected = format!(
        r#"<tr>
            <td colspan="2">{transaction} {name}</strong></td>
            <td>{number_of_requests}</td>
            <td>{number_of_failures}</td>
            <td>{response_time_average}</td>
            <td>{response_time_minimum}</td>
            <td>{response_time_maximum}</td>
            <td>{requests_per_second}</td>
            <td>{failures_per_second}</td>
        </tr>"#,
        transaction = "0.1",
        name = "front page",
        number_of_requests = "1,234,567",
        number_of_failures = "12",
        response_time_average = "7.50",
        response_time_minimum = 3,
        response_time_maximum = 1200,
        requests_per_second = "1.00",
        failures_per_second = "0.00",
    );
    assert_eq!(transaction_metrics_row(transaction(false)), expected);
    let heading = format!(r#"<tr>
            <td colspan="10" align="left"><strong>{name}</strong></td>
        </tr>"#, name = "front page");
    assert_eq!(transaction_metrics_row(transaction(true)), heading);
}

#[test]
fn scenario_row_groups_counts() {
    let metric = ScenarioMetric {
        name: "LoadTest".to_string(),
        users: 1000,
        count: 999,
        response_time_average: "12.00".to_string(),
        response_time_minimum: 1,
        response_time_maximum: 2,
        count_per_second: "3.00".to_string(),
        iterations: "4.00".to_string(),
    };
    let row = scenario_metrics_row(metric);
    assert!(row.contains("<td>1,000</td>"));
    assert!(row.contains("<td>999</td>"));
    assert!(row.contains("<td colspan=\"2\">LoadTest</strong></td>"));
}

#[test]
fn co_request_row_and_status_code_row() {
    let row = coordinated_omission_request_metrics_row(CORequestMetric {
        method: "POST".to_string(),
        name: "/api".to_string(),
        response_time_average: "80.00".to_string(),
        response_time_standard_deviation: "1.50".to_string(),
        response_time_maximum: 800,
    });
    assert!(row.contains("<td>80.00)</td>"));
    assert!(row.contains("<td>800</td>"));
    let row = status_code_metrics_row(StatusCodeMetric {
        method: "GET".to_string(),
        name: "/".to_string(),
        status_codes: "3 [200]".to_string(),
    });
    assert!(row.contains("<td colspan=\"3\">3 [200]</td>"));
}

#[test]
fn errors_table_wraps_rows_and_graph() {
    let table = errors_template("<tr>row</tr>", "<div>graph</div>".to_string());
    assert!(table.starts_with("<div class=\"errors\">"));
    let graph_at = table.find("<div>graph</div>").unwrap();
    let rows_at = table.find("<tr>row</tr>").unwrap();
    assert!(graph_at < rows_at);
}

#[test]
fn response_metric_percentiles() {
    let mut times: BTreeMap<usize, usize> = BTreeMap::new();
    times.insert(10, 50);
    times.insert(20, 30);
    times.insert(1500, 20);
    let metric = get_response_metric("GET", "/", &times, 100, 5, 2000);
    assert_eq!(metric.method, "GET");
    assert_eq!(metric.name, "/");
    assert_eq!(metric.percentile_50, "10");
    assert_eq!(metric.percentile_60, "20");
    assert_eq!(metric.percentile_70, "20");
    assert_eq!(metric.percentile_80, "20");
    assert_eq!(metric.percentile_90, "1,500");
    assert_eq!(metric.percentile_95, "1,500");
    assert_eq!(metric.percentile_99, "1,500");
    assert_eq!(metric.percentile_100, "1,500");
}

#[test]
fn report_places_its_parts() {
    let templates = GooseReportTemplates {
        raw_requests_template: "RAWREQ",
        raw_responses_template: "RAWRESP",
        co_requests_template: "COREQ",
        co_responses_template: "CORESP",
        transactions_template: "TRANS",
        scenarios_template: "SCEN",
        status_codes_template: "CODES",
        errors_template: "ERRS",
        graph_rps_template: "GRAPHRPS",
        graph_average_response_time_template: "GRAPHAVG",
        graph_users_per_second: "GRAPHUSERS",
    };
    let report = build_report("42", "STEPS", "http://example.com", templates, "goose", "1.2.3");
    assert!(report.starts_with("<!DOCTYPE html>"));
    assert!(report.ends_with("</html>"));
    assert!(report.contains("<p>Users: <span>42</span> </p>"));
    assert!(report.contains("<p>Target Host: <span>http://example.com</span></p>"));
    assert!(report.contains("<em>goose v1.2.3</em>"));
    assert!(report.contains(".container {\n"));
    let order = [
        "STEPS", "GRAPHRPS", "RAWREQ", "COREQ", "GRAPHAVG", "RAWRESP", "CORESP", "CODES", "TRANS",
        "SCEN", "GRAPHUSERS", "ERRS",
    ];
    let mut last = 0;
    for part in order {
        let at = report.find(part).unwrap();
        assert!(at >= last);
        last = at;
    }
}
