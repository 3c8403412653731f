use std::collections::{BTreeMap, HashMap};

use goose::stats::{
    calculate_response_time_percentile, merge_response_times, per_second_calculations,
    update_max_response_time, update_min_response_time, GooseRequest, GooseStats,
};

#[test]
fn stats_max_response_time() {
    let mut max_response_time = 99;
    // Update max response time to a higher value.
    max_response_time = update_max_response_time(max_response_time, 101);
    assert_eq!(max_response_time, 101);
    // Max response time doesn't update when updating with a lower value.
    max_response_time = update_max_response_time(max_response_time, 1);
    assert_eq!(max_response_time, 101);
}

#[test]
fn stats_min_response_time() {
    let mut min_response_time = 11;
    // Update min response time to a lower value.
    min_response_time = update_min_response_time(min_response_time, 9);
    assert_eq!(min_response_time, 9);
    // Min response time doesn't update when updating with a lower value.
    min_response_time = update_min_response_time(min_response_time, 22);
    assert_eq!(min_response_time, 9);
    // Min response time doesn't update when updating with a 0 value.
    min_response_time = update_min_response_time(min_response_time, 0);
    assert_eq!(min_response_time, 9);
}

#[test]
fn stats_response_time_merge() {
    let mut global_response_times: BTreeMap<usize, usize> = BTreeMap::new();
    let local_response_times: BTreeMap<usize, usize> = BTreeMap::new();
    global_response_times =
        merge_response_times(global_response_times, local_response_times.clone());
    assert_eq!(&global_response_times, &local_response_times);
}

#[test]
fn merge_adds_counts_of_shared_times() {
    let mut a: BTreeMap<usize, usize> = BTreeMap::new();
    a.insert(1, 2);
    a.insert(5, 1);
    let mut b: BTreeMap<usize, usize> = BTreeMap::new();
    b.insert(5, 3);
    b.insert(9, 4);
    let m = merge_response_times(a.clone(), b.clone());
    let mut expected: BTreeMap<usize, usize> = BTreeMap::new();
    expected.insert(1, 2);
    expected.insert(5, 4);
    expected.insert(9, 4);
    assert_eq!(m, expected);
    assert_eq!(merge_response_times(b, a), expected);
}

#[test]
fn stats_max_response_time_percentile() {
    // The share of requests is given in ten-thousandths: 5000 is 50%.
    let mut response_times: BTreeMap<usize, usize> = BTreeMap::new();
    response_times.insert(1, 1);
    response_times.insert(2, 1);
    response_times.insert(3, 1);
    // 3 * .5 = 1.5, rounds to 2.
    assert_eq!(calculate_response_time_percentile(&response_times, 3, 1, 3, 5000), 2);
    response_times.insert(3, 2);
    // 4 * .5 = 2
    assert_eq!(calculate_response_time_percentile(&response_times, 4, 1, 3, 5000), 2);
    // 4 * .25 = 1
    assert_eq!(calculate_response_time_percentile(&response_times, 4, 1, 3, 2500), 1);
    // 4 * .75 = 3
    assert_eq!(calculate_response_time_percentile(&response_times, 4, 1, 3, 7500), 3);
    // 4 * 1 = 4 (and the 4th response time is also 3)
    assert_eq!(calculate_response_time_percentile(&response_times, 4, 1, 3, 10000), 3);

    // 4 * .5 = 2, but uses specified minimum of 2
    assert_eq!(calculate_response_time_percentile(&response_times, 4, 2, 3, 2500), 2);
    // 4 * .75 = 3, but uses specified maximum of 2
    assert_eq!(calculate_response_time_percentile(&response_times, 4, 1, 2, 7500), 2);

    response_times.insert(10, 25);
    response_times.insert(20, 25);
    response_times.insert(30, 25);
    response_times.insert(50, 25);
    response_times.insert(100, 10);
    response_times.insert(200, 1);
    assert_eq!(calculate_response_time_percentile(&response_times, 115, 1, 200, 9000), 50);
    assert_eq!(calculate_response_time_percentile(&response_times, 115, 1, 200, 9900), 100);
    assert_eq!(calculate_response_time_percentile(&response_times, 115, 1, 200, 9990), 200);
}

#[test]
fn percentile_of_empty_histogram_is_zero() {
    let response_times: BTreeMap<usize, usize> = BTreeMap::new();
    assert_eq!(calculate_response_time_percentile(&response_times, 10, 1, 5, 5000), 0);
}

#[test]
fn stats_calculate_per_second() {
    // With duration of 0, requests and fails per second is always 0.
    let mut duration = 0;
    let mut total = 10;
    let fail = 10;
    let (requests_per_second, fails_per_second) = per_second_calculations(duration, total, fail);
    assert!(requests_per_second == "0");
    assert!(fails_per_second == "0");
    // Changing total doesn't affect requests and fails as duration is still 0.
    total = 100;
    let (requests_per_second, fails_per_second) = per_second_calculations(duration, total, fail);
    assert!(requests_per_second == "0");
    assert!(fails_per_second == "0");

    // With non-zero duration, requests and fails per second return properly.
    duration = 10;
    let (requests_per_second, fails_per_second) = per_second_calculations(duration, total, fail);
    assert!(requests_per_second == "10");
    assert!(fails_per_second == "1");
}

#[test]
fn per_second_groups_thousands() {
    let (r, f) = per_second_calculations(2, 2_000_000, 4_000);
    assert_eq!(r, "1,000,000");
    assert_eq!(f, "2,000");
}

fn request(times: &[(usize, usize)], total: usize, counter: usize, min: usize, max: usize) -> GooseRequest {
    let mut response_times = BTreeMap::new();
    for (t, c) in times {
        response_times.insert(*t, *c);
    }
    GooseRequest {
        success_count: counter,
        fail_count: 0,
        response_times,
        total_response_time: total,
        response_time_counter: counter,
        min_response_time: min,
        max_response_time: max,
        status_code_counts: HashMap::new(),
    }
}

#[test]
fn requests_are_kept_in_name_order() {
    let mut stats = GooseStats::new(0, 10, 2, false, false);
    stats.insert_request("/b".to_string(), request(&[(1, 1)], 1, 1, 1, 1));
    stats.insert_request("/a".to_string(), request(&[(2, 1)], 2, 1, 2, 2));
    stats.insert_request("/c".to_string(), request(&[(3, 1)], 3, 1, 3, 3));
    stats.insert_request("/a".to_string(), request(&[(4, 1)], 4, 1, 4, 4));
    let names: Vec<&str> = stats.requests.iter().map(|(n, _)| n.as_str()).collect();
    assert_eq!(names, vec!["/a", "/b", "/c"]);
    assert_eq!(stats.requests[0].1.total_response_time, 4);
    assert_eq!(stats.requests[1].1.total_response_time, 1);
}

#[test]
fn response_times_table_matches_its_format() {
    let mut stats = GooseStats::new(0, 10, 2, true, false);
    assert_eq!(stats.fmt_response_times(), "");
    stats.insert_request("GET /".to_string(), request(&[(10, 2), (20, 1)], 40, 3, 9, 21));
    stats.insert_request(
        "GET /a/very/long/path/that/gets/cut".to_string(),
        request(&[(100, 1), (300, 1)], 400, 2, 100, 300),
    );
    let mut expected = String::new();
    expected.push_str("-------------------------------------------------------------------------------\n");
    expected.push_str(&format!(
        " {:<23} | {:<10} | {:<10} | {:<10} | {:<10}\n",
        "Name", "Avg (ms)", "Min", "Max", "Median"
    ));
    expected.push_str(" ----------------------------------------------------------------------------- \n");
    expected.push_str(&format!(
        " {:<23} | {:<10.2} | {:<10.2} | {:<10.2} | {:<10.2}\n",
        "GET /", 13, 9, 21, 10
    ));
    expected.push_str(&format!(
        " {:<23} | {:<10.2} | {:<10.2} | {:<10.2} | {:<10.2}\n",
        "GET /a/very/long/path..", 200, 100, 300, 100
    ));
    expected.push_str(" ------------------------+------------+------------+------------+------------- \n");
    expected.push_str(&format!(
        " {:<23} | {:<10.2} | {:<10.2} | {:<10.2} | {:<10.2}\n",
        "Aggregated", 88, 9, 300, 20
    ));
    assert_eq!(stats.fmt_response_times(), expected);
}

#[test]
fn percentiles_table_matches_its_format() {
    let mut stats = GooseStats::new(0, 10, 2, false, false);
    stats.insert_request("GET /".to_string(), request(&[(10, 2), (20, 1)], 40, 3, 9, 21));
    assert_eq!(stats.fmt_percentiles(), "");
    stats.display_percentile = true;
    stats.insert_request("POST /".to_string(), request(&[(100, 1), (300, 1)], 400, 2, 100, 300));
    let mut expected = String::new();
    expected.push_str("-------------------------------------------------------------------------------\n");
    expected.push_str(" Slowest page load within specified percentile of requests (in ms):\n");
    expected.push_str(" ------------------------------------------------------------------------------\n");
    expected.push_str(&format!(
        " {:<23} | {:<6} | {:<6} | {:<6} | {:<6} | {:<6} | {:6}\n",
        "Name", "50%", "75%", "98%", "99%", "99.9%", "99.99%"
    ));
    expected.push_str(" ----------------------------------------------------------------------------- \n");
    expected.push_str(&format!(
        " {:<23} | {:<6.2} | {:<6.2} | {:<6.2} | {:<6.2} | {:<6.2} | {:6.2}\n",
        "GET /", 10, 10, 20, 20, 20, 20
    ));
    expected.push_str(&format!(
        " {:<23} | {:<6.2} | {:<6.2} | {:<6.2} | {:<6.2} | {:<6.2} | {:6.2}\n",
        "POST /", 100, 300, 300, 300, 300, 300
    ));
    expected.push_str(" ------------------------+--------+--------+--------+--------+--------+------- \n");
    expected.push_str(&format!(
        " {:<23} | {:<6.2} | {:<6.2} | {:<6.2} | {:<6.2} | {:<6.2} | {:6.2}\n",
        "Aggregated", 20, 100, 300, 300, 300, 300
    ));
    assert_eq!(stats.fmt_percentiles(), expected);
}

#[test]
fn status_codes_table_lists_codes_per_request() {
    let mut stats = GooseStats::new(0, 10, 2, false, false);
    let mut a = request(&[(1, 1)], 1, 1, 1, 1);
    a.status_code_counts.insert(200, 1500);
    let mut b = request(&[(1, 1)], 1, 1, 1, 1);
    b.status_code_counts.insert(200, 2);
    stats.insert_request("GET /a".to_string(), a);
    stats.insert_request("GET /b".to_string(), b);
    assert_eq!(stats.fmt_status_codes(), "");
    stats.display_status_codes = true;
    let mut expected = String::new();
    expected.push_str("-------------------------------------------------------------------------------\n");
    expected.push_str(&format!(" {:<23} | {:<25} \n", "Name", "Status codes"));
    expected.push_str(" ----------------------------------------------------------------------------- \n");
    expected.push_str(&format!(" {:<23} | {:<25}\n", "GET /a", "1,500 [200]"));
    expected.push_str(&format!(" {:<23} | {:<25}\n", "GET /b", "2 [200]"));
    expected.push_str("-------------------------------------------------------------------------------\n");
    expected.push_str(&format!(" {:<23} | {:<25} \n", "Aggregated", "1,502 [200]"));
    assert_eq!(stats.fmt_status_codes(), expected);
}
