use goose::test_plan::{TestPlan, TestPlanStepAction};
use goose::{AttackPhase, GooseError};

#[test]
fn plan_from_text() {
    let plan = TestPlan::from_str("10,1m;20, 30s ; 0,0").unwrap();
    assert_eq!(plan.steps, vec![(10, 60_000), (20, 30_000), (0, 0)]);
    assert_eq!(plan.current, 0);
    assert_eq!(plan.total_users(), 20);
}

#[test]
fn plan_with_hours_minutes_and_seconds() {
    let plan = TestPlan::from_str("5,1h2m3s").unwrap();
    assert_eq!(plan.steps, vec![(5, 3_723_000)]);
}

#[test]
fn invalid_plan_line_is_refused() {
    match TestPlan::from_str("10,1m;foo") {
        Err(GooseError::InvalidOption { option, value, detail }) => {
            assert_eq!(option, "`configuration.test_plan");
            assert_eq!(value, "foo");
            assert_eq!(detail, "invalid `configuration.test_plan` value.");
        }
        other => panic!("unexpected: {:?}", other),
    }
}

#[test]
fn total_users_counts_increases() {
    let mut plan = TestPlan::new();
    plan.steps = vec![(10, 1000), (5, 1000), (15, 1000), (0, 0)];
    assert_eq!(plan.total_users(), 20);
}

#[test]
fn advancing_through_a_plan() {
    let mut plan = TestPlan::new();
    plan.steps = vec![(10, 1000), (20, 5000), (0, 0)];
    let (action, phase, users) = plan.advance();
    assert_eq!(action, TestPlanStepAction::Increasing);
    assert_eq!(phase, AttackPhase::Increase);
    assert_eq!(users, 10);
    let (action, phase, _) = plan.advance();
    assert_eq!(action, TestPlanStepAction::Decreasing);
    assert_eq!(phase, AttackPhase::Decrease);
    let (action, phase, users) = plan.advance();
    assert_eq!(action, TestPlanStepAction::Finished);
    assert_eq!(phase, AttackPhase::Shutdown);
    assert_eq!(users, 0);
    assert_eq!(plan.current, 3);
}

#[test]
fn plan_built_from_configuration() {
    let plan = TestPlan::build(None, Some(10), "30s", 0, "1m");
    assert_eq!(plan.steps, vec![(10, 30_000), (10, 60_000), (0, 0)]);
    let plan = TestPlan::build(None, Some(4), "0", 4000, "0");
    assert_eq!(plan.steps, vec![(4, 4000)]);
    let plan = TestPlan::build(None, None, "30s", 0, "1m");
    assert!(plan.steps.is_empty());
    let configured = TestPlan::from_str("5,1s").unwrap();
    let plan = TestPlan::build(Some(&configured), Some(10), "30s", 0, "1m");
    assert_eq!(plan.steps, vec![(5, 1000)]);
}
