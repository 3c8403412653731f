use std::collections::HashMap;

use goose::goose::GooseMethod;
use goose::manager::{
    distribute_users, merge_errors_from_worker, merge_requests_from_worker,
    manager_step, merge_transactions_from_worker, ManagerMessage, ManagerObservation, ManagerReply,
    ManagerState,
};
use goose::metrics::{GooseErrorMetricAggregate, GooseRequestMetricAggregate, TransactionMetricAggregate};
use goose::status_codes::{merge_status_codes, prepare_status_codes};

#[test]
fn test_distribute_users() {
    // Ten users over two workers.
    let (users_per_process, users_remainder) = distribute_users(10, 2);
    assert_eq!(users_per_process, 5);
    assert_eq!(users_remainder, 0);

    // One user over one worker.
    let (users_per_process, users_remainder) = distribute_users(1, 1);
    assert_eq!(users_per_process, 1);
    assert_eq!(users_remainder, 0);

    // A hundred users over twenty-one workers.
    let (users_per_process, users_remainder) = distribute_users(100, 21);
    assert_eq!(users_per_process, 4);
    assert_eq!(users_remainder, 16);
}

#[test]
fn merging_worker_requests() {
    let mut parent = GooseRequestMetricAggregate::new("/", GooseMethod::Get, 9);
    parent.record_time(10, false);
    parent.record_time(20, false);
    parent.set_status_code(200);
    parent.success_count = 2;
    let mut worker = GooseRequestMetricAggregate::new("/", GooseMethod::Get, 9);
    worker.record_time(5, false);
    worker.record_time(20, false);
    worker.set_status_code(200);
    worker.set_status_code(500);
    worker.success_count = 1;
    worker.fail_count = 1;

    let merged = merge_requests_from_worker(&parent, &worker, true);
    assert_eq!(merged.raw_data.counter, 4);
    assert_eq!(merged.raw_data.total_time, 55);
    assert_eq!(merged.raw_data.minimum_time, 5);
    assert_eq!(merged.raw_data.maximum_time, 20);
    assert_eq!(merged.raw_data.times[&20], 2);
    assert_eq!(merged.raw_data.times[&5], 1);
    assert_eq!(merged.success_count, 3);
    assert_eq!(merged.fail_count, 1);
    assert_eq!(merged.status_code_counts[&200], 2);
    assert_eq!(merged.status_code_counts[&500], 1);

    let without_codes = merge_requests_from_worker(&parent, &worker, false);
    assert_eq!(without_codes.status_code_counts.len(), 1);
    assert_eq!(without_codes.status_code_counts[&200], 1);
}

#[test]
fn merging_worker_transactions_and_errors() {
    let mut parent = TransactionMetricAggregate::new(0, "LoadTest", 1, "home");
    parent.set_time(40, true);
    let mut worker = TransactionMetricAggregate::new(0, "LoadTest", 1, "home");
    worker.set_time(10, false);
    worker.set_time(70, true);
    let merged = merge_transactions_from_worker(&parent, &worker);
    assert_eq!(merged.counter, 3);
    assert_eq!(merged.total_time, 120);
    assert_eq!(merged.min_time, 10);
    assert_eq!(merged.max_time, 70);
    assert_eq!(merged.success_count, 2);
    assert_eq!(merged.fail_count, 1);
    assert_eq!(merged.transaction_name, "home");

    let mut e1 = GooseErrorMetricAggregate::new(GooseMethod::Post, "/api".to_string(), "boom".to_string());
    e1.occurrences = 3;
    let mut e2 = GooseErrorMetricAggregate::new(GooseMethod::Post, "/api".to_string(), "boom".to_string());
    e2.occurrences = 4;
    let merged = merge_errors_from_worker(&e1, &e2);
    assert_eq!(merged.occurrences, 7);
    assert_eq!(merged.error, "boom");
}

#[test]
fn status_codes_are_listed_and_merged() {
    let mut counts: HashMap<u16, usize> = HashMap::new();
    assert_eq!(prepare_status_codes(&counts), "");
    counts.insert(200, 1234);
    assert_eq!(prepare_status_codes(&counts), "1,234 [200]");
    counts.insert(404, 2);
    let text = prepare_status_codes(&counts);
    assert!(text == "1,234 [200], 2 [404]" || text == "2 [404], 1,234 [200]");

    let mut total: HashMap<u16, usize> = HashMap::new();
    total.insert(404, 1);
    merge_status_codes(&mut total, &counts);
    assert_eq!(total[&200], 1234);
    assert_eq!(total[&404], 3);
    assert_eq!(total.len(), 2);
}

fn observe(message: ManagerMessage, active_workers: usize) -> ManagerObservation {
    ManagerObservation {
        active_workers,
        run_time_over: false,
        canceled: false,
        shutdown_over: false,
        running_metrics_due: false,
        no_hash_check: false,
        message,
    }
}

fn greeting() -> ManagerMessage {
    ManagerMessage::FromNewWorker { objects: 1, last_is_greeting: true, same_load_test: true }
}

#[test]
fn manager_hands_out_users_and_starts_with_the_last_worker() {
    let (per, rem) = distribute_users(5, 2);
    let s0 = ManagerState {
        expect_workers: 2,
        workers: 0,
        users_per_worker: per,
        users_remainder: rem,
        available_users: 5,
        load_test_running: false,
        load_test_finished: false,
    };
    let first = manager_step(s0, observe(greeting(), 0));
    assert_eq!(first.replies, vec![ManagerReply::Users(3)]);
    assert!(!first.start_load_test);
    let waiting = manager_step(first.state, observe(ManagerMessage::FromKnownWorker, 1));
    assert_eq!(waiting.replies, vec![ManagerReply::Wait]);
    let second = manager_step(first.state, observe(greeting(), 1));
    assert_eq!(second.replies, vec![ManagerReply::Users(2)]);
    assert!(second.start_load_test);
    assert!(second.state.load_test_running);
    assert_eq!(second.state.available_users, 0);
    let extra = manager_step(second.state, observe(greeting(), 2));
    assert_eq!(extra.replies, vec![ManagerReply::Exit]);
    let running = manager_step(second.state, observe(ManagerMessage::FromKnownWorker, 2));
    assert!(running.merge_metrics);
    assert_eq!(running.replies, vec![ManagerReply::Run]);
    let mut over = observe(ManagerMessage::FromKnownWorker, 2);
    over.run_time_over = true;
    let finishing = manager_step(second.state, over);
    assert!(finishing.state.load_test_finished);
    assert!(finishing.record_duration && finishing.restart_shutdown_timer);
    assert_eq!(finishing.replies, vec![ManagerReply::Exit]);
    let gone = manager_step(finishing.state, observe(ManagerMessage::Nothing, 0));
    assert!(gone.stop);
}

#[test]
fn manager_stops_when_a_worker_goes_away_before_the_start() {
    let s = ManagerState {
        expect_workers: 2,
        workers: 1,
        users_per_worker: 1,
        users_remainder: 0,
        available_users: 1,
        load_test_running: false,
        load_test_finished: false,
    };
    assert!(manager_step(s, observe(ManagerMessage::Nothing, 0)).stop);
    let mut canceled = observe(ManagerMessage::Nothing, 1);
    canceled.canceled = true;
    assert!(manager_step(s, canceled).abort);
    let invalid = ManagerMessage::FromNewWorker { objects: 2, last_is_greeting: false, same_load_test: false };
    let step = manager_step(s, observe(invalid, 1));
    assert_eq!(step.replies, vec![ManagerReply::Exit, ManagerReply::Exit, ManagerReply::Users(1)]);
}
