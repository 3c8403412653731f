use goose::goose::{Scenario, Transaction};
use goose::scheduler::{allocate_transactions, GooseScheduler};

fn transaction(index: usize, name: &str, weight: usize, sequence: usize, on_start: bool, on_stop: bool) -> Transaction {
    Transaction {
        transactions_index: index,
        name: name.to_string(),
        weight,
        sequence,
        on_start,
        on_stop,
    }
}

fn scenario(transactions: Vec<Transaction>) -> Scenario {
    Scenario {
        name: "LoadTest".to_string(),
        machine_name: "loadtest".to_string(),
        scenarios_index: 0,
        weight: 1,
        host: None,
        transactions,
    }
}

fn names(list: &[(usize, String)]) -> Vec<&str> {
    list.iter().map(|(_, n)| n.as_str()).collect()
}

#[test]
fn round_robin_alternates_weighted_transactions() {
    let s = scenario(vec![
        transaction(0, "a", 2, 0, false, false),
        transaction(1, "b", 1, 0, false, false),
    ]);
    let (start, main, stop) = allocate_transactions(&s, &GooseScheduler::RoundRobin);
    assert!(start.is_empty());
    assert!(stop.is_empty());
    assert_eq!(names(&main), vec!["a", "b", "a"]);
    assert_eq!(main[1].0, 1);
}

#[test]
fn serial_keeps_definition_order() {
    let s = scenario(vec![
        transaction(0, "a", 2, 0, false, false),
        transaction(1, "b", 1, 0, false, false),
    ]);
    let (_, main, _) = allocate_transactions(&s, &GooseScheduler::Serial);
    assert_eq!(names(&main), vec!["a", "a", "b"]);
}

#[test]
fn weights_are_reduced_by_their_common_divisor() {
    let s = scenario(vec![
        transaction(0, "a", 4, 0, false, false),
        transaction(1, "b", 6, 0, false, false),
    ]);
    let (_, main, _) = allocate_transactions(&s, &GooseScheduler::Serial);
    assert_eq!(names(&main), vec!["a", "a", "b", "b", "b"]);
}

#[test]
fn random_allocates_the_same_transactions() {
    let s = scenario(vec![
        transaction(0, "a", 3, 0, false, false),
        transaction(1, "b", 2, 0, false, false),
    ]);
    let (_, main, _) = allocate_transactions(&s, &GooseScheduler::Random);
    let mut got = names(&main);
    got.sort();
    assert_eq!(got, vec!["a", "a", "a", "b", "b"]);
}

#[test]
fn start_and_stop_transactions_have_lists_of_their_own() {
    let s = scenario(vec![
        transaction(0, "login", 1, 0, true, false),
        transaction(1, "page", 1, 0, false, false),
        transaction(2, "both", 1, 0, true, true),
        transaction(3, "logout", 1, 0, false, true),
    ]);
    let (start, main, stop) = allocate_transactions(&s, &GooseScheduler::Serial);
    assert_eq!(names(&start), vec!["login", "both"]);
    assert_eq!(names(&main), vec!["page"]);
    assert_eq!(names(&stop), vec!["both", "logout"]);
}

#[test]
fn sequenced_transactions_run_first_in_sequence_order() {
    let s = scenario(vec![
        transaction(0, "second", 1, 2, false, false),
        transaction(1, "unsequenced", 1, 0, false, false),
        transaction(2, "first", 1, 1, false, false),
    ]);
    let (_, main, _) = allocate_transactions(&s, &GooseScheduler::Serial);
    assert_eq!(names(&main), vec!["first", "second", "unsequenced"]);
}
