use std::collections::BTreeMap;

use goose::goose::GooseMethod;
use goose::histogram::merge_times;
use goose::metrics::{
    round_time, update_max_time, update_min_time, GooseErrorMetricAggregate, GooseRawRequest,
    GooseRequestMetric, GooseRequestMetricAggregate, GooseRequestMetricTimingData,
    TransactionMetricAggregate,
};

#[test]
fn metrics_max_response_time() {
    let mut max_response_time = 99;
    // Update max response time to a higher value.
    max_response_time = update_max_time(max_response_time, 101);
    assert_eq!(max_response_time, 101);
    // Max response time doesn't update when updating with a lower value.
    max_response_time = update_max_time(max_response_time, 1);
    assert_eq!(max_response_time, 101);
}

#[test]
fn metrics_min_response_time() {
    let mut min_response_time = 11;
    // Update min response time to a lower value.
    min_response_time = update_min_time(min_response_time, 9);
    assert_eq!(min_response_time, 9);
    // Min response time doesn't update when updating with a lower value.
    min_response_time = update_min_time(min_response_time, 22);
    assert_eq!(min_response_time, 9);
    // Min response time doesn't update when updating with a 0 value.
    min_response_time = update_min_time(min_response_time, 0);
    assert_eq!(min_response_time, 9);
}

#[test]
fn metrics_response_time_merge() {
    let mut global_response_times: BTreeMap<usize, usize> = BTreeMap::new();
    let local_response_times: BTreeMap<usize, usize> = BTreeMap::new();
    global_response_times = merge_times(global_response_times, local_response_times.clone());
    assert_eq!(&global_response_times, &local_response_times);
}

#[test]
fn rounding_of_times() {
    assert_eq!(round_time(0), 0);
    assert_eq!(round_time(99), 99);
    assert_eq!(round_time(100), 100);
    assert_eq!(round_time(101), 100);
    assert_eq!(round_time(105), 110);
    assert_eq!(round_time(155), 160);
    assert_eq!(round_time(499), 500);
    assert_eq!(round_time(500), 500);
    assert_eq!(round_time(549), 500);
    assert_eq!(round_time(550), 600);
    assert_eq!(round_time(2345), 2000);
    assert_eq!(round_time(2500), 3000);
    assert_eq!(round_time(987654321), 987654000);
}

#[test]
fn goose_request() {
    let mut request = GooseRequestMetricAggregate::new("/", GooseMethod::Get, 0);
    assert_eq!(request.path, "/".to_string());
    assert_eq!(request.method, GooseMethod::Get);
    assert_eq!(request.raw_data.times.len(), 0);
    assert_eq!(request.raw_data.minimum_time, 0);
    assert_eq!(request.raw_data.maximum_time, 0);
    assert_eq!(request.raw_data.total_time, 0);
    assert_eq!(request.raw_data.counter, 0);
    assert_eq!(request.status_code_counts.len(), 0);
    assert_eq!(request.success_count, 0);
    assert_eq!(request.fail_count, 0);

    // Tracking a response time updates several fields.
    request.record_time(1, false);
    // We've seen only one response time so far.
    assert_eq!(request.raw_data.times.len(), 1);
    // We've seen one response time of length 1.
    assert_eq!(request.raw_data.times[&1], 1);
    // The minimum response time seen so far is 1.
    assert_eq!(request.raw_data.minimum_time, 1);
    // The maximum response time seen so far is 1.
    assert_eq!(request.raw_data.maximum_time, 1);
    // We've seen a total of 1 ms of response time so far.
    assert_eq!(request.raw_data.total_time, 1);
    // We've seen a total of 2 response times so far.
    assert_eq!(request.raw_data.counter, 1);
    // Nothing else changes.
    assert_eq!(request.path, "/".to_string());
    assert_eq!(request.method, GooseMethod::Get);
    assert_eq!(request.status_code_counts.len(), 0);
    assert_eq!(request.success_count, 0);
    assert_eq!(request.fail_count, 0);

    // Tracking another response time updates all related fields.
    request.record_time(10, false);
    // We've added a new unique response time.
    assert_eq!(request.raw_data.times.len(), 2);
    // We've seen the 10 ms response time 1 time.
    assert_eq!(request.raw_data.times[&10], 1);
    // Minimum doesn't change.
    assert_eq!(request.raw_data.minimum_time, 1);
    // Maximum is new response time.
    assert_eq!(request.raw_data.maximum_time, 10);
    // Total combined response times is now 11 ms.
    assert_eq!(request.raw_data.total_time, 11);
    // We've seen two response times so far.
    assert_eq!(request.raw_data.counter, 2);
    // Nothing else changes.
    assert_eq!(request.path, "/".to_string());
    assert_eq!(request.method, GooseMethod::Get);
    assert_eq!(request.status_code_counts.len(), 0);
    assert_eq!(request.success_count, 0);
    assert_eq!(request.fail_count, 0);

    // Tracking another response time updates all related fields.
    request.record_time(10, false);
    // We've incremented the counter of an existing response time.
    assert_eq!(request.raw_data.times.len(), 2);
    // We've seen the 10 ms response time 2 times.
    assert_eq!(request.raw_data.times[&10], 2);
    // Minimum doesn't change.
    assert_eq!(request.raw_data.minimum_time, 1);
    // Maximum doesn't change.
    assert_eq!(request.raw_data.maximum_time, 10);
    // Total combined response times is now 21 ms.
    assert_eq!(request.raw_data.total_time, 21);
    // We've seen three response times so far.
    assert_eq!(request.raw_data.counter, 3);

    // Tracking another response time updates all related fields.
    request.record_time(101, false);
    // We've added a new response time for the first time.
    assert_eq!(request.raw_data.times.len(), 3);
    // The response time was internally rounded to 100, which we've seen once.
    assert_eq!(request.raw_data.times[&100], 1);
    // Minimum doesn't change.
    assert_eq!(request.raw_data.minimum_time, 1);
    // Maximum increases to actual maximum, not rounded maximum.
    assert_eq!(request.raw_data.maximum_time, 101);
    // Total combined response times is now 122 ms.
    assert_eq!(request.raw_data.total_time, 122);
    // We've seen four response times so far.
    assert_eq!(request.raw_data.counter, 4);

    // Tracking another response time updates all related fields.
    request.record_time(102, false);
    // Due to rounding, this increments the existing 100 ms response time.
    assert_eq!(request.raw_data.times.len(), 3);
    // The response time was internally rounded to 100, which we've now seen twice.
    assert_eq!(request.raw_data.times[&100], 2);
    // Minimum doesn't change.
    assert_eq!(request.raw_data.minimum_time, 1);
    // Maximum increases to actual maximum, not rounded maximum.
    assert_eq!(request.raw_data.maximum_time, 102);
    // Add 102 to the total response time so far.
    assert_eq!(request.raw_data.total_time, 224);
    // We've seen five response times so far.
    assert_eq!(request.raw_data.counter, 5);

    // Tracking another response time updates all related fields.
    request.record_time(155, false);
    // Adds a new response time.
    assert_eq!(request.raw_data.times.len(), 4);
    // The response time was internally rounded to 160, seen for the first time.
    assert_eq!(request.raw_data.times[&160], 1);
    // Minimum doesn't change.
    assert_eq!(request.raw_data.minimum_time, 1);
    // Maximum increases to actual maximum, not rounded maximum.
    assert_eq!(request.raw_data.maximum_time, 155);
    // Add 155 to the total response time so far.
    assert_eq!(request.raw_data.total_time, 379);
    // We've seen six response times so far.
    assert_eq!(request.raw_data.counter, 6);

    // Tracking another response time updates all related fields.
    request.record_time(2345, false);
    // Adds a new response time.
    assert_eq!(request.raw_data.times.len(), 5);
    // The response time was internally rounded to 2000, seen for the first time.
    assert_eq!(request.raw_data.times[&2000], 1);
    // Minimum doesn't change.
    assert_eq!(request.raw_data.minimum_time, 1);
    // Maximum increases to actual maximum, not rounded maximum.
    assert_eq!(request.raw_data.maximum_time, 2345);
    // Add 2345 to the total response time so far.
    assert_eq!(request.raw_data.total_time, 2724);
    // We've seen seven response times so far.
    assert_eq!(request.raw_data.counter, 7);

    // Tracking another response time updates all related fields.
    request.record_time(987654321, false);
    // Adds a new response time.
    assert_eq!(request.raw_data.times.len(), 6);
    // The response time was internally rounded to 987654000, seen for the first time.
    assert_eq!(request.raw_data.times[&987654000], 1);
    // Minimum doesn't change.
    assert_eq!(request.raw_data.minimum_time, 1);
    // Maximum increases to actual maximum, not rounded maximum.
    assert_eq!(request.raw_data.maximum_time, 987654321);
    // Add 987654321 to the total response time so far.
    assert_eq!(request.raw_data.total_time, 987657045);
    // We've seen eight response times so far.
    assert_eq!(request.raw_data.counter, 8);

    // Tracking status code updates all related fields.
    request.set_status_code(200);
    // We've seen only one status code.
    assert_eq!(request.status_code_counts.len(), 1);
    // First time seeing this status code.
    assert_eq!(request.status_code_counts[&200], 1);
    // As status code tracking is optional, we don't track success/fail here.
    assert_eq!(request.success_count, 0);
    assert_eq!(request.fail_count, 0);
    // Nothing else changes.
    assert_eq!(request.raw_data.times.len(), 6);
    assert_eq!(request.raw_data.minimum_time, 1);
    assert_eq!(request.raw_data.maximum_time, 987654321);
    assert_eq!(request.raw_data.total_time, 987657045);
    assert_eq!(request.raw_data.counter, 8);

    // Tracking status code updates all related fields.
    request.set_status_code(200);
    // We've seen only one unique status code.
    assert_eq!(request.status_code_counts.len(), 1);
    // Second time seeing this status code.
    assert_eq!(request.status_code_counts[&200], 2);

    // Tracking status code updates all related fields.
    request.set_status_code(0);
    // We've seen two unique status codes.
    assert_eq!(request.status_code_counts.len(), 2);
    // First time seeing a client-side error.
    assert_eq!(request.status_code_counts[&0], 1);

    // Tracking status code updates all related fields.
    request.set_status_code(500);
    // We've seen three unique status codes.
    assert_eq!(request.status_code_counts.len(), 3);
    // First time seeing an internal server error.
    assert_eq!(request.status_code_counts[&500], 1);

    // Tracking status code updates all related fields.
    request.set_status_code(308);
    // We've seen four unique status codes.
    assert_eq!(request.status_code_counts.len(), 4);
    // First time seeing an internal server error.
    assert_eq!(request.status_code_counts[&308], 1);

    // Tracking status code updates all related fields.
    request.set_status_code(200);
    // We've seen four unique status codes.
    assert_eq!(request.status_code_counts.len(), 4);
    // Third time seeing this status code.
    assert_eq!(request.status_code_counts[&200], 3);
    // Nothing else changes.
    assert_eq!(request.success_count, 0);
    assert_eq!(request.fail_count, 0);
    assert_eq!(request.raw_data.times.len(), 6);
    assert_eq!(request.raw_data.minimum_time, 1);
    assert_eq!(request.raw_data.maximum_time, 987654321);
    assert_eq!(request.raw_data.total_time, 987657045);
    assert_eq!(request.raw_data.counter, 8);
}

#[test]
fn mitigated_times_start_from_raw_data() {
    let mut request = GooseRequestMetricAggregate::new("/", GooseMethod::Post, 7);
    request.record_time(20, false);
    assert!(request.coordinated_omission_data.is_none());
    request.record_time(30, true);
    let co = request.coordinated_omission_data.as_ref().unwrap();
    assert_eq!(co.counter, 2);
    assert_eq!(co.total_time, 50);
    assert_eq!(co.minimum_time, 20);
    assert_eq!(co.maximum_time, 30);
    // A time made up by the mitigation is not a raw time.
    assert_eq!(request.raw_data.counter, 1);
}

#[test]
fn timing_data_copy_and_new() {
    let mut data = GooseRequestMetricTimingData::new(None);
    assert_eq!(data.counter, 0);
    data.record_time(5);
    data.record_time(7);
    let copied = GooseRequestMetricTimingData::new(Some(&data));
    assert_eq!(copied.counter, 2);
    assert_eq!(copied.total_time, 12);
    assert_eq!(copied.times, data.times);
    let again = data.copy();
    assert_eq!(again.minimum_time, 5);
    assert_eq!(again.maximum_time, 7);
}

#[test]
fn transaction_times() {
    let mut t = TransactionMetricAggregate::new(1, "LoadTest", 2, "front page");
    assert_eq!(t.scenario_name, "LoadTest");
    assert_eq!(t.transaction_name, "front page");
    t.set_time(3, true);
    t.set_time(12, false);
    assert_eq!(t.min_time, 3);
    assert_eq!(t.max_time, 12);
    assert_eq!(t.total_time, 15);
    assert_eq!(t.counter, 2);
    assert_eq!(t.success_count, 1);
    assert_eq!(t.fail_count, 1);
}

#[test]
fn new_error_aggregate_has_no_occurrences() {
    let e = GooseErrorMetricAggregate::new(GooseMethod::Get, "/".to_string(), "boom".to_string());
    assert_eq!(e.occurrences, 0);
    assert_eq!(e.error, "boom");
    assert_eq!(e.method, GooseMethod::Get);
}

#[test]
fn goose_raw_request() {
    const PATH: &str = "http://127.0.0.1/";
    let raw_request = GooseRawRequest::new(GooseMethod::Get, PATH, vec![], "");
    let mut request_metric = GooseRequestMetric::new(raw_request, "/", 0, 0);
    assert_eq!(request_metric.raw.method, GooseMethod::Get);
    assert_eq!(request_metric.raw.url, PATH.to_string());
    assert_eq!(request_metric.name, "/".to_string());
    assert_eq!(request_metric.response_time, 0);
    assert_eq!(request_metric.status_code, 0);
    assert!(request_metric.success);
    assert!(!request_metric.update);

    let response_time: u128 = 123;
    request_metric.set_response_time(response_time);
    assert_eq!(request_metric.raw.method, GooseMethod::Get);
    assert_eq!(request_metric.name, "/".to_string());
    assert_eq!(request_metric.raw.url, PATH.to_string());
    assert_eq!(request_metric.response_time, response_time as u64);
    assert_eq!(request_metric.status_code, 0);
    assert!(request_metric.success);
    assert!(!request_metric.update);

    let status_code = http::StatusCode::OK;
    request_metric.set_status_code(Some(status_code.as_u16()));
    assert_eq!(request_metric.raw.method, GooseMethod::Get);
    assert_eq!(request_metric.name, "/".to_string());
    assert_eq!(request_metric.raw.url, PATH.to_string());
    assert_eq!(request_metric.response_time, response_time as u64);
    assert_eq!(request_metric.status_code, 200);
    assert!(request_metric.success);
    assert!(!request_metric.update);
}

#[test]
fn final_url_marks_redirects() {
    let raw_request = GooseRawRequest::new(GooseMethod::Post, "http://127.0.0.1/a", vec![], "body");
    let mut request_metric = GooseRequestMetric::new(raw_request, "a", 5, 2);
    request_metric.set_final_url("http://127.0.0.1/a");
    assert_eq!(request_metric.final_url, "http://127.0.0.1/a");
    assert!(!request_metric.redirected);
    request_metric.set_final_url("http://127.0.0.1/b");
    assert_eq!(request_metric.final_url, "http://127.0.0.1/b");
    assert!(request_metric.redirected);
    // Once redirected, a request stays redirected.
    request_metric.set_final_url("http://127.0.0.1/a");
    assert!(request_metric.redirected);
    request_metric.set_status_code(None);
    assert_eq!(request_metric.status_code, 0);
    request_metric.set_status_code(Some(http::StatusCode::NOT_FOUND.as_u16()));
    assert_eq!(request_metric.status_code, 404);
    assert_eq!(request_metric.elapsed, 5);
    assert_eq!(request_metric.user, 2);
}

#[test]
fn timing_data_over_several_records() {
    let mut data = GooseRequestMetricTimingData::new(None);
    for t in [0u64, 120, 7, 1499, 120] {
        data.record_time(t);
    }
    assert_eq!(data.counter, 5);
    assert_eq!(data.total_time, 1746);
    assert_eq!(data.maximum_time, 1499);
    assert_eq!(data.minimum_time, 7);
    assert_eq!(data.times.get(&0), Some(&1));
    assert_eq!(data.times.get(&120), Some(&2));
    assert_eq!(data.times.get(&7), Some(&1));
    assert_eq!(data.times.get(&1000), Some(&1));
    assert_eq!(data.times.values().sum::<usize>(), 5);
}

#[test]
fn merging_histograms_is_associative_and_adds_counts() {
    let a: BTreeMap<usize, usize> = [(10, 1), (20, 2)].into_iter().collect();
    let b: BTreeMap<usize, usize> = [(20, 3), (30, 1)].into_iter().collect();
    let c: BTreeMap<usize, usize> = [(10, 5), (40, 1)].into_iter().collect();
    let left = merge_times(merge_times(a.clone(), b.clone()), c.clone());
    let right = merge_times(a.clone(), merge_times(b.clone(), c.clone()));
    assert_eq!(left, right);
    let total: usize = left.values().sum();
    assert_eq!(total, a.values().sum::<usize>() + b.values().sum::<usize>() + c.values().sum::<usize>());
}

#[test]
fn transaction_times_round_to_hundreds_and_thousands() {
    // Above 500ms the rounded quotient is counted in tens, as the load tester stores it.
    let mut a = TransactionMetricAggregate::new(0, "s", 0, "t");
    a.set_time(750, true);
    assert_eq!(a.times.get(&80), Some(&1));
    assert_eq!(a.min_time, 750);
    assert_eq!(a.max_time, 750);
    assert_eq!(a.total_time, 750);
    let mut b = TransactionMetricAggregate::new(0, "s", 0, "t");
    b.set_time(2345, false);
    assert_eq!(b.times.get(&20), Some(&1));
    assert_eq!(b.fail_count, 1);
}

#[test]
fn rounded_times_that_do_not_fit_saturate() {
    assert_eq!(round_time(1499), 1000);
    assert_eq!(round_time(1500), 2000);
    assert_eq!(round_time(usize::MAX - 100), usize::MAX);
    assert_eq!(round_time(usize::MAX - 600), usize::MAX - 615);
    let mut data = GooseRequestMetricTimingData::new(None);
    data.record_time(u64::MAX);
    assert_eq!(data.times.get(&usize::MAX), Some(&1));
    assert_eq!(data.maximum_time, usize::MAX);
}
