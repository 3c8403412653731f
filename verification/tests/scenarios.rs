use goose::goose::Scenario;
use goose::scenarios::{allocate_scenarios, assign_users, register_scenario, scenario_is_active, validate_host};
use goose::GooseError;
use goose::scheduler::GooseScheduler;

fn scenario(index: usize, machine_name: &str, weight: usize) -> Scenario {
    Scenario {
        name: machine_name.to_uppercase(),
        machine_name: machine_name.to_string(),
        scenarios_index: index,
        weight,
        host: None,
        transactions: Vec::new(),
    }
}

fn count(v: &[usize], k: usize) -> usize {
    v.iter().filter(|x| **x == k).count()
}

#[test]
fn scenarios_are_active_by_name() {
    let s = scenario(0, "loadtestanonymous", 1);
    assert!(scenario_is_active(&s, &[]));
    assert!(scenario_is_active(&s, &["anon".to_string()]));
    assert!(scenario_is_active(&s, &["foo".to_string(), "loadtest".to_string()]));
    assert!(!scenario_is_active(&s, &["admin".to_string()]));
}

#[test]
fn round_robin_scenarios() {
    let ss = vec![scenario(0, "a", 6), scenario(1, "b", 3), scenario(2, "c", 9)];
    let weighted = allocate_scenarios(&ss, &[], &GooseScheduler::RoundRobin);
    // The weights 6, 3 and 9 are reduced by their common divisor 3 to 2, 1 and 3.
    assert_eq!(weighted, vec![0, 1, 2, 0, 2, 2]);
}

#[test]
fn serial_scenarios() {
    let ss = vec![scenario(0, "a", 6), scenario(1, "b", 3), scenario(2, "c", 9)];
    let weighted = allocate_scenarios(&ss, &[], &GooseScheduler::Serial);
    assert_eq!(weighted, vec![0, 0, 1, 2, 2, 2]);
}

#[test]
fn random_scenarios_keep_their_shares() {
    let ss = vec![scenario(0, "a", 6), scenario(1, "b", 3), scenario(2, "c", 9)];
    let weighted = allocate_scenarios(&ss, &[], &GooseScheduler::Random);
    assert_eq!(weighted.len(), 6);
    assert_eq!(count(&weighted, 0), 2);
    assert_eq!(count(&weighted, 1), 1);
    assert_eq!(count(&weighted, 2), 3);
}

#[test]
fn inactive_scenarios_get_no_users() {
    let ss = vec![scenario(0, "browse", 4), scenario(1, "admin", 1), scenario(2, "browsemore", 2)];
    let weighted = allocate_scenarios(&ss, &["browse".to_string()], &GooseScheduler::Serial);
    assert_eq!(weighted, vec![0, 0, 2]);
    let none = allocate_scenarios(&ss, &["nothing".to_string()], &GooseScheduler::RoundRobin);
    assert!(none.is_empty());
}

#[test]
fn users_cycle_through_the_allocation() {
    assert_eq!(assign_users(&[0, 1, 2, 0, 2, 2], 8), vec![0, 1, 2, 0, 2, 2, 0, 1]);
    assert_eq!(assign_users(&[3], 2), vec![3, 3]);
    assert_eq!(assign_users(&[0, 1], 1), vec![0]);
}

#[test]
fn a_host_is_needed_for_every_scenario() {
    let mut with_host = scenario(0, "a", 1);
    with_host.host = Some("http://example.com".to_string());
    let without_host = scenario(1, "b", 1);
    let ss = vec![with_host, without_host];
    match validate_host("", &None, &ss) {
        Err(GooseError::InvalidOption { option, value, detail }) => {
            assert_eq!(option, "--host");
            assert_eq!(value, "");
            assert_eq!(
                detail,
                "A host must be defined via the --host option, the GooseAttack.set_default() function, or the Scenario.set_host() function (no host defined for B)."
            );
        }
        _ => panic!("a scenario without a host must be refused"),
    }
    assert!(validate_host("http://localhost", &None, &ss).is_ok());
    assert!(validate_host("", &Some("http://localhost".to_string()), &ss).is_ok());
    assert!(validate_host("", &None, &ss[..1]).is_ok());
    assert!(validate_host("", &None, &[]).is_ok());
}

#[test]
fn registered_machine_names_are_unique() {
    let mut scenarios = Vec::new();
    let mut names = Vec::new();
    register_scenario(&mut scenarios, &mut names, scenario(9, "foo_1", 1));
    register_scenario(&mut scenarios, &mut names, scenario(9, "foo", 2));
    register_scenario(&mut scenarios, &mut names, scenario(9, "foo", 3));
    register_scenario(&mut scenarios, &mut names, scenario(9, "foo", 4));
    let machine: Vec<&str> = scenarios.iter().map(|s| s.machine_name.as_str()).collect();
    assert_eq!(machine, vec!["foo_1", "foo", "foo_2", "foo_3"]);
    assert_eq!(names, vec!["foo_1", "foo", "foo_2", "foo_3"]);
    let indices: Vec<usize> = scenarios.iter().map(|s| s.scenarios_index).collect();
    assert_eq!(indices, vec![0, 1, 2, 3]);
    assert_eq!(scenarios[2].weight, 3);
}
