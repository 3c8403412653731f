use goose::goose::GooseMethod;
use goose::metrics::dashboard::dashboard_rows;
use goose::metrics::{GooseErrorMetricAggregate, GooseRequestMetricAggregate};

fn request(path: &str, method: GooseMethod, successes: usize, failures: usize, times: &[u64]) -> GooseRequestMetricAggregate {
    let mut r = GooseRequestMetricAggregate::new(path, method, 0);
    r.success_count = successes;
    r.fail_count = failures;
    for t in times {
        r.record_time(*t, false);
    }
    r
}

fn error(method: GooseMethod, name: &str, message: &str, occurrences: usize) -> GooseErrorMetricAggregate {
    let mut e = GooseErrorMetricAggregate::new(method, name.to_string(), message.to_string());
    e.occurrences = occurrences;
    e
}

#[test]
fn dashboard_ranks_requests_by_count_then_method_and_path() {
    let mut b = request("/b", GooseMethod::Get, 5, 0, &[40, 40]);
    b.set_status_code(404);
    b.set_status_code(200);
    b.set_status_code(200);
    let requests = vec![
        ("GET /a".to_string(), request("/a", GooseMethod::Get, 8, 2, &[20, 30])),
        ("GET /b".to_string(), b),
        ("POST /a".to_string(), request("/a", GooseMethod::Post, 5, 0, &[])),
    ];
    let errors = vec![
        ("a".to_string(), error(GooseMethod::Get, "/a", "timeout", 2)),
        ("b".to_string(), error(GooseMethod::Get, "/a", "refused", 2)),
        ("c".to_string(), error(GooseMethod::Post, "/c", "reset", 7)),
    ];
    let rows = dashboard_rows(&requests, &errors, false, false, true, 300);
    let names: Vec<(GooseMethod, &str)> = rows.requests.iter().map(|r| (r.method, r.name.as_str())).collect();
    assert_eq!(names, vec![(GooseMethod::Get, "/a"), (GooseMethod::Get, "/b"), (GooseMethod::Post, "/a")]);
    assert_eq!(rows.requests[0].request_count, 10);
    assert_eq!(rows.requests[0].failure_count, 2);
    assert_eq!(rows.requests[0].percentiles, (20, 30, 30));
    assert_eq!(rows.requests[1].status_codes, vec![(200, 2), (404, 1)]);
    assert_eq!(rows.requests[2].percentiles, (0, 0, 0));
    assert!(!rows.requests_truncated);
    let errors_shown: Vec<&str> = rows.errors.iter().map(|e| e.error.as_str()).collect();
    assert_eq!(errors_shown, vec!["reset", "refused", "timeout"]);
    assert_eq!(rows.total_requests, 20);
    assert_eq!(rows.total_failures, 2);
    assert_eq!(rows.response_time_counter, 4);
    assert_eq!(rows.response_time_total, 130);
    assert_eq!(rows.response_time_min, 20);
    assert_eq!(rows.response_time_max, 40);
    assert_eq!(rows.percentiles, (30, 40, 40));
    assert!(rows.co_active && rows.include_series && !rows.metrics_disabled);
    assert_eq!(rows.series_seconds, 300);
}

#[test]
fn dashboard_caps_rows() {
    let requests: Vec<(String, GooseRequestMetricAggregate)> = (0..101)
        .map(|i| (format!("GET /{i:03}"), request(&format!("/{i:03}"), GooseMethod::Get, i, 0, &[])))
        .collect();
    let errors: Vec<(String, GooseErrorMetricAggregate)> = (0..51)
        .map(|i| (format!("{i:03}"), error(GooseMethod::Get, "/", &format!("{i:03}"), 1)))
        .collect();
    let rows = dashboard_rows(&requests, &errors, false, true, false, 300);
    assert_eq!(rows.requests.len(), 100);
    assert!(rows.requests_truncated);
    assert_eq!(rows.requests[0].name, "/100");
    assert_eq!(rows.requests[99].name, "/001");
    assert!(rows.requests[0].status_codes.is_empty());
    assert_eq!(rows.errors.len(), 50);
    assert!(rows.errors_truncated);
    assert_eq!(rows.errors[0].error, "000");
}

#[test]
fn dashboard_is_empty_when_metrics_are_disabled() {
    let requests = vec![("GET /a".to_string(), request("/a", GooseMethod::Get, 8, 2, &[20]))];
    let errors = vec![("a".to_string(), error(GooseMethod::Get, "/a", "timeout", 2))];
    let rows = dashboard_rows(&requests, &errors, true, false, true, 120);
    assert!(rows.requests.is_empty());
    assert!(rows.errors.is_empty());
    assert!(!rows.requests_truncated && !rows.errors_truncated);
    assert_eq!(rows.total_requests, 0);
    assert_eq!(rows.percentiles, (0, 0, 0));
    assert!(rows.metrics_disabled && !rows.co_active && !rows.include_series);
    assert_eq!(rows.series_seconds, 120);
}
