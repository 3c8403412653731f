use goose::goose::{GooseMethod, Scenario, Transaction};
use goose::metrics::goose_metrics::{
    report_co_response_metrics, report_response_metrics, report_status_code_metrics, request_count_rows,
    transaction_count_rows, transaction_time_rows, GooseMetrics,
};
use goose::metrics::{GooseErrorMetricAggregate, GooseRequestMetricAggregate, TransactionMetricAggregate};

const LINE: &str = " ------------------------------------------------------------------------------";

fn row(name: &str, cells: [&str; 6]) -> String {
    format!(
        " {:<24} | {:>6} | {:>6} | {:>6} | {:>6} | {:>6} | {:>6}\n",
        name, cells[0], cells[1], cells[2], cells[3], cells[4], cells[5]
    )
}

fn head(title: &str) -> String {
    format!(
        "{LINE}\n {title}\n{LINE}\n{}{LINE}\n",
        row("Name", ["50%", "75%", "98%", "99%", "99.9%", "99.99%"])
    )
}

#[test]
fn percentiles_only_in_final_metrics() {
    let mut metrics = GooseMetrics::new(1);
    let mut a = GooseRequestMetricAggregate::new("/a", GooseMethod::Get, 1);
    a.record_time(10, false);
    metrics.insert_request("GET /a".to_string(), a);
    assert_eq!(metrics.fmt_percentiles(), "");
}

#[test]
fn percentiles_with_raw_and_adjusted_data() {
    let mut metrics = GooseMetrics::new(1);
    metrics.final_metrics = true;
    let mut a = GooseRequestMetricAggregate::new("/a", GooseMethod::Get, 1);
    a.record_time(10, false);
    a.record_time(20, false);
    a.record_time(1500, false);
    let mut b = GooseRequestMetricAggregate::new("/b", GooseMethod::Get, 1);
    b.record_time(30, false);
    b.record_time(40, true);
    metrics.insert_request("GET /b".to_string(), b);
    metrics.insert_request("GET /a".to_string(), a);

    let mut expected = head("Slowest page load within specified percentile of requests (in ms):");
    expected.push_str(&row("GET /a", ["20", "20", "1,500", "1,500", "1,500", "1,500"]));
    expected.push_str(&row("GET /b", ["30", "30", "30", "30", "30", "30"]));
    expected.push_str(" -------------------------+--------+--------+--------+--------+--------+-------\n");
    expected.push_str(&row("Aggregated", ["20", "30", "1,500", "1,500", "1,500", "1,500"]));
    expected.push_str(&head("Adjusted for Coordinated Omission:"));
    expected.push_str(&row("GET /a", ["-", "-", "-", "-", "-", "-"]));
    expected.push_str(&row("GET /b", ["30", "40", "40", "40", "40", "40"]));
    expected.push_str(" -------------------------+--------+--------+--------+--------+--------+-------\n");
    expected.push_str(&row("Aggregated", ["30", "40", "40", "40", "40", "40"]));
    assert_eq!(metrics.fmt_percentiles(), expected);
}

#[test]
fn metrics_status_codes_table() {
    let mut metrics = GooseMetrics::new(1);
    let mut a = GooseRequestMetricAggregate::new("/a", GooseMethod::Get, 1);
    a.set_status_code(200);
    a.set_status_code(200);
    let mut b = GooseRequestMetricAggregate::new("/b", GooseMethod::Post, 1);
    b.set_status_code(200);
    metrics.insert_request("POST /b".to_string(), b);
    metrics.insert_request("GET /a".to_string(), a);
    assert_eq!(metrics.fmt_status_codes(), "");
    metrics.display_status_codes = true;
    let mut expected = String::new();
    expected.push_str(&format!("{LINE}\n"));
    expected.push_str(&format!(" {:<24} | {:>51} \n", "Name", "Status codes"));
    expected.push_str(&format!("{LINE}\n"));
    expected.push_str(&format!(" {:<24} | {:>51}\n", "GET /a", "2 [200]"));
    expected.push_str(&format!(" {:<24} | {:>51}\n", "POST /b", "1 [200]"));
    expected.push_str(" -------------------------+----------------------------------------------------\n");
    expected.push_str(&format!(" {:<24} | {:>51} \n", "Aggregated", "3 [200]"));
    assert_eq!(metrics.fmt_status_codes(), expected);
}

#[test]
fn worker_metrics_merge_into_the_manager() {
    let mut metrics = GooseMetrics::new(1);
    let mut a = GooseRequestMetricAggregate::new("/a", GooseMethod::Get, 1);
    a.record_time(10, false);
    metrics.insert_request("GET /a".to_string(), a);
    let mut keep = GooseRequestMetricAggregate::new("/k", GooseMethod::Get, 1);
    keep.record_time(7, false);
    metrics.insert_request("GET /k".to_string(), keep);

    let mut worker_a = GooseRequestMetricAggregate::new("/a", GooseMethod::Get, 1);
    worker_a.record_time(30, false);
    worker_a.set_status_code(200);
    let mut worker_b = GooseRequestMetricAggregate::new("/b", GooseMethod::Get, 1);
    worker_b.record_time(5, false);
    metrics.merge_request_metrics(
        vec![("GET /a".to_string(), worker_a), ("GET /b".to_string(), worker_b)],
        true,
    );
    let names: Vec<&str> = metrics.requests.iter().map(|(n, _)| n.as_str()).collect();
    assert_eq!(names, vec!["GET /a", "GET /b", "GET /k"]);
    let merged = &metrics.requests[0].1;
    assert_eq!(merged.raw_data.counter, 2);
    assert_eq!(merged.raw_data.total_time, 40);
    assert_eq!(merged.raw_data.minimum_time, 10);
    assert_eq!(merged.raw_data.maximum_time, 30);
    assert_eq!(merged.status_code_counts[&200], 1);
    assert_eq!(metrics.requests[1].1.raw_data.total_time, 5);
    assert_eq!(metrics.requests[2].1.raw_data.total_time, 7);

    let mut e = GooseErrorMetricAggregate::new(GooseMethod::Get, "/a".to_string(), "boom".to_string());
    e.occurrences = 2;
    metrics.merge_error_metrics(vec![("boom".to_string(), e)]);
    let mut again = GooseErrorMetricAggregate::new(GooseMethod::Get, "/a".to_string(), "boom".to_string());
    again.occurrences = 5;
    metrics.merge_error_metrics(vec![("boom".to_string(), again)]);
    assert_eq!(metrics.errors.len(), 1);
    assert_eq!(metrics.errors[0].1.occurrences, 7);
}

#[test]
fn worker_transactions_merge_into_their_cells() {
    let mut metrics = GooseMetrics::new(1);
    let mut t00 = TransactionMetricAggregate::new(0, "s0", 0, "t0");
    t00.set_time(10, true);
    let t01 = TransactionMetricAggregate::new(0, "s0", 1, "t1");
    let mut t10 = TransactionMetricAggregate::new(1, "s1", 0, "u0");
    t10.set_time(7, false);
    metrics.transactions = vec![vec![t00, t01], vec![t10]];

    let mut w01 = TransactionMetricAggregate::new(0, "s0", 1, "t1");
    w01.set_time(30, true);
    let mut w10a = TransactionMetricAggregate::new(1, "s1", 0, "u0");
    w10a.set_time(3, true);
    let mut w10b = TransactionMetricAggregate::new(1, "s1", 0, "u0");
    w10b.set_time(9, false);
    metrics.merge_transaction_metrics(vec![vec![w01], vec![w10a, w10b]]);

    let t = &metrics.transactions;
    assert_eq!(t[0][0].counter, 1);
    assert_eq!(t[0][0].total_time, 10);
    assert_eq!(t[0][1].counter, 1);
    assert_eq!(t[0][1].min_time, 30);
    assert_eq!(t[0][1].max_time, 30);
    assert_eq!(t[0][1].success_count, 1);
    assert_eq!(t[1][0].counter, 3);
    assert_eq!(t[1][0].total_time, 19);
    assert_eq!(t[1][0].min_time, 3);
    assert_eq!(t[1][0].max_time, 9);
    assert_eq!(t[1][0].success_count, 1);
    assert_eq!(t[1][0].fail_count, 2);
    assert_eq!(t[1][0].times.get(&3), Some(&1));
    assert_eq!(t[1][0].times.get(&7), Some(&1));
    assert_eq!(t[1][0].times.get(&9), Some(&1));
    assert_eq!(t[1][0].transaction_name, "u0");
}

fn error(method: GooseMethod, name: &str, message: &str, occurrences: usize) -> GooseErrorMetricAggregate {
    let mut e = GooseErrorMetricAggregate::new(method, name.to_string(), message.to_string());
    e.occurrences = occurrences;
    e
}

#[test]
fn errors_table_most_frequent_first() {
    let mut metrics = GooseMetrics::new(1);
    metrics.errors = vec![
        ("a".to_string(), error(GooseMethod::Get, "/a", "timeout", 3)),
        ("b".to_string(), error(GooseMethod::Post, "/b", "refused", 1200)),
        ("c".to_string(), error(GooseMethod::Put, "/c", "reset", 3)),
    ];
    assert_eq!(metrics.fmt_errors(), "");
    metrics.final_metrics = true;
    let mut expected = String::from("\n === ERRORS ===\n");
    expected.push_str(LINE);
    expected.push_str("\n Count       | Error\n");
    expected.push_str(LINE);
    expected.push('\n');
    expected.push_str(" 1,200         POST /b: refused\n");
    expected.push_str(" 3             PUT /c: reset\n");
    expected.push_str(" 3             GET /a: timeout\n");
    expected.push_str(LINE);
    expected.push('\n');
    assert_eq!(metrics.fmt_errors(), expected);
}

#[test]
fn no_errors_table_without_errors() {
    let mut metrics = GooseMetrics::new(1);
    metrics.final_metrics = true;
    assert_eq!(metrics.fmt_errors(), "");
}

fn transaction(index: usize, name: &str) -> Transaction {
    Transaction {
        transactions_index: index,
        name: name.to_string(),
        weight: 1,
        sequence: 0,
        on_start: false,
        on_stop: false,
    }
}

#[test]
fn transaction_table_starts_fresh() {
    let scenarios = vec![
        Scenario {
            name: "First".to_string(),
            machine_name: "first".to_string(),
            scenarios_index: 0,
            weight: 1,
            host: None,
            transactions: vec![transaction(0, "login"), transaction(1, "browse")],
        },
        Scenario {
            name: "Second".to_string(),
            machine_name: "second".to_string(),
            scenarios_index: 1,
            weight: 1,
            host: None,
            transactions: vec![],
        },
    ];
    let mut metrics = GooseMetrics::new(1);
    metrics.initialize_transaction_metrics(&scenarios, false, false);
    assert_eq!(metrics.transactions.len(), 2);
    assert_eq!(metrics.transactions[0].len(), 2);
    assert_eq!(metrics.transactions[1].len(), 0);
    assert_eq!(metrics.transactions[0][1].scenario_name, "First");
    assert_eq!(metrics.transactions[0][1].transaction_name, "browse");
    assert_eq!(metrics.transactions[0][1].transaction_index, 1);
    assert_eq!(metrics.transactions[0][1].counter, 0);
    metrics.initialize_transaction_metrics(&scenarios, false, true);
    assert!(metrics.transactions.is_empty());
    metrics.initialize_transaction_metrics(&scenarios, true, false);
    assert!(metrics.transactions.is_empty());
}

#[test]
fn methods_are_named_in_capitals() {
    assert_eq!(GooseMethod::Delete.text(), "DELETE");
    assert_eq!(GooseMethod::Get.text(), "GET");
    assert_eq!(GooseMethod::Patch.text(), "PATCH");
    assert_eq!(GooseMethod::Put.text(), "PUT");
}

#[test]
fn response_times_table_with_given_averages() {
    let mut metrics = GooseMetrics::new(1);
    let mut a = GooseRequestMetricAggregate::new("/a", GooseMethod::Get, 1);
    a.record_time(10, false);
    a.record_time(30, false);
    let mut b = GooseRequestMetricAggregate::new("/b", GooseMethod::Post, 1);
    b.record_time(1200, false);
    metrics.insert_request("GET /a".to_string(), a);
    metrics.insert_request("POST /b".to_string(), b);
    let table = metrics.fmt_response_times(&vec!["20.00".to_string(), "1200".to_string()], "413.33");
    let mut expected = String::new();
    expected.push_str(LINE);
    expected.push_str("\n Name                     |    Avg (ms) |        Min |         Max |     Median\n");
    expected.push_str(LINE);
    expected.push('\n');
    expected.push_str(" GET /a                   |       20.00 |         10 |          30 |         10\n");
    expected.push_str(" POST /b                  |        1200 |      1,200 |       1,200 |      1,200\n");
    expected.push_str(" -------------------------+-------------+------------+-------------+-----------\n");
    expected.push_str(" Aggregated               |      413.33 |         10 |       1,200 |         30\n");
    assert_eq!(table, expected);
    assert_eq!(GooseMetrics::new(1).fmt_response_times(&vec![], "0.00"), "");
}

#[test]
fn report_response_rows_per_request_and_aggregated() {
    let mut metrics = GooseMetrics::new(1);
    let mut a = GooseRequestMetricAggregate::new("/a", GooseMethod::Get, 1);
    a.success_count = 2;
    a.record_time(10, false);
    a.record_time(30, false);
    metrics.insert_request("GET /a".to_string(), a);
    let rows = report_response_metrics(&metrics.requests);
    assert_eq!(rows.len(), 2);
    assert_eq!(rows[0].method, "GET");
    assert_eq!(rows[0].name, "/a");
    assert_eq!(rows[0].percentile_50, "10");
    assert_eq!(rows[0].percentile_100, "30");
    assert_eq!(rows[1].method, "");
    assert_eq!(rows[1].name, "Aggregated");
    assert_eq!(rows[1].percentile_50, "10");
    assert_eq!(rows[1].percentile_100, "30");
}

#[test]
fn report_status_code_rows_per_request_and_aggregated() {
    let mut metrics = GooseMetrics::new(1);
    let mut a = GooseRequestMetricAggregate::new("/a", GooseMethod::Get, 1);
    a.set_status_code(200);
    a.set_status_code(200);
    let mut b = GooseRequestMetricAggregate::new("/b", GooseMethod::Post, 1);
    b.set_status_code(200);
    metrics.insert_request("GET /a".to_string(), a);
    metrics.insert_request("POST /b".to_string(), b);
    let rows = report_status_code_metrics(&metrics.requests);
    assert_eq!(rows.len(), 3);
    assert_eq!((rows[0].method.as_str(), rows[0].name.as_str(), rows[0].status_codes.as_str()), ("GET", "/a", "2 [200]"));
    assert_eq!((rows[1].method.as_str(), rows[1].name.as_str(), rows[1].status_codes.as_str()), ("POST", "/b", "1 [200]"));
    assert_eq!((rows[2].method.as_str(), rows[2].name.as_str(), rows[2].status_codes.as_str()), ("", "Aggregated", "3 [200]"));
}

#[test]
fn report_adjusted_response_rows_only_for_adjusted_requests() {
    let mut metrics = GooseMetrics::new(1);
    let mut a = GooseRequestMetricAggregate::new("/a", GooseMethod::Get, 1);
    a.success_count = 2;
    a.record_time(10, false);
    a.record_time(50, true);
    let mut b = GooseRequestMetricAggregate::new("/b", GooseMethod::Get, 1);
    b.success_count = 1;
    b.record_time(20, false);
    metrics.insert_request("GET /a".to_string(), a);
    metrics.insert_request("GET /b".to_string(), b);
    let rows = report_co_response_metrics(&metrics.requests);
    assert_eq!(rows.len(), 2);
    assert_eq!(rows[0].name, "/a");
    assert_eq!(rows[0].percentile_50, "10");
    assert_eq!(rows[0].percentile_100, "50");
    assert_eq!(rows[1].name, "Aggregated");
    // Three requests were made in all, so the median is the second adjusted time.
    assert_eq!(rows[1].percentile_50, "50");
    // The adjusted histogram counts two times, fewer than the three requests made,
    // so the walk never reaches all of them.
    assert_eq!(rows[1].percentile_100, "0");
}

#[test]
fn adjusted_response_times_table() {
    let mut metrics = GooseMetrics::new(1);
    let mut a = GooseRequestMetricAggregate::new("/a", GooseMethod::Get, 1);
    a.record_time(10, false);
    a.record_time(50, true);
    let mut b = GooseRequestMetricAggregate::new("/b", GooseMethod::Get, 1);
    b.record_time(20, false);
    metrics.insert_request("GET /a".to_string(), a);
    metrics.insert_request("GET /b".to_string(), b);
    let table = metrics.fmt_co_response_times(
        &vec!["30.00".to_string(), String::new()],
        &vec!["10.00".to_string(), String::new()],
        "30.00",
        "2.50",
    );
    let mut expected = String::new();
    expected.push_str(LINE);
    expected.push_str("\n Adjusted for Coordinated Omission:\n");
    expected.push_str(LINE);
    expected.push_str("\n Name                     |    Avg (ms) |    Std Dev |         Max |     Median\n");
    expected.push_str(LINE);
    expected.push('\n');
    expected.push_str(" GET /a                   |       30.00 |      10.00 |          50 |         10\n");
    expected.push_str(" GET /b                   |           - |          - |           - |          -\n");
    expected.push_str(" -------------------------+-------------+------------+-------------+-----------\n");
    expected.push_str(" Aggregated               |       30.00 |       2.50 |          50 |         10\n");
    assert_eq!(table, expected);

    let mut plain = GooseMetrics::new(1);
    let mut c = GooseRequestMetricAggregate::new("/c", GooseMethod::Get, 1);
    c.record_time(10, false);
    plain.insert_request("GET /c".to_string(), c);
    assert_eq!(plain.fmt_co_response_times(&vec![String::new()], &vec![String::new()], "", ""), "");
}

#[test]
fn transaction_count_rows_per_scenario() {
    let mut t00 = TransactionMetricAggregate::new(0, "AnonBrowsingUser", 0, "(Anon) front page");
    t00.success_count = 440;
    let mut t01 = TransactionMetricAggregate::new(0, "AnonBrowsingUser", 1, "(Anon) node page with a long name");
    t01.success_count = 296;
    t01.fail_count = 4;
    let t10 = TransactionMetricAggregate::new(1, "AuthBrowsingUser", 0, "(Auth) login");
    let transactions = vec![vec![t00, t01], vec![t10]];
    let rows = transaction_count_rows(&transactions, true);
    let expected: Vec<(String, Option<(usize, usize)>)> = vec![
        ("1: AnonBrowsingUser".to_string(), None),
        ("  1: (Anon) front page".to_string(), Some((440, 0))),
        ("  2: (Anon) node page ..".to_string(), Some((300, 4))),
        ("2: AuthBrowsingUser".to_string(), None),
        ("  1: (Auth) login".to_string(), Some((0, 0))),
        ("Aggregated".to_string(), Some((740, 4))),
    ];
    assert_eq!(rows, expected);
    assert!(transaction_count_rows(&transactions, false).is_empty());
    let one = vec![vec![TransactionMetricAggregate::new(0, "S", 0, "t")]];
    assert_eq!(transaction_count_rows(&one, true).len(), 2);
}

#[test]
fn request_count_rows_with_aggregate() {
    let mut metrics = GooseMetrics::new(1);
    let mut a = GooseRequestMetricAggregate::new("/a", GooseMethod::Get, 1);
    a.success_count = 1500;
    a.fail_count = 10;
    let mut b = GooseRequestMetricAggregate::new("/b", GooseMethod::Get, 1);
    b.success_count = 5;
    metrics.insert_request("GET /a".to_string(), a);
    metrics.insert_request("GET /b".to_string(), b);
    let rows = request_count_rows(&metrics.requests);
    assert_eq!(
        rows,
        vec![
            ("GET /a".to_string(), (1510, 10)),
            ("GET /b".to_string(), (5, 0)),
            ("Aggregated".to_string(), (1515, 10)),
        ]
    );
}

#[test]
fn transaction_time_rows_per_scenario() {
    let mut t00 = TransactionMetricAggregate::new(0, "First", 0, "login");
    t00.set_time(10, true);
    t00.set_time(30, true);
    let mut t10 = TransactionMetricAggregate::new(1, "Second", 0, "browse");
    t10.set_time(20, true);
    let transactions = vec![vec![t00], vec![t10]];
    let rows = transaction_time_rows(&transactions, true);
    let expected: Vec<(String, Option<(usize, usize, usize)>)> = vec![
        ("1: First".to_string(), None),
        ("  1: login".to_string(), Some((10, 30, 10))),
        ("2: Second".to_string(), None),
        ("  1: browse".to_string(), Some((20, 20, 20))),
        ("Aggregated".to_string(), Some((10, 30, 20))),
    ];
    assert_eq!(rows, expected);
    assert!(transaction_time_rows(&transactions, false).is_empty());
}
