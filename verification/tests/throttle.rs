use goose::throttle::throttle_schedule;

#[test]
fn throttle_paces_requests() {
    // One request per second: one token every second.
    assert_eq!(throttle_schedule(1), (1_000_000, 1));
    // Fifty per second: one token every 20ms.
    assert_eq!(throttle_schedule(50), (20_000, 1));
    // A thousand per second: pauses of 10ms releasing ten tokens.
    assert_eq!(throttle_schedule(1000), (10_000, 10));
    // 300 per second: 3333us apart, gathered three at a time.
    assert_eq!(throttle_schedule(300), (9_999, 3));
    assert_eq!(throttle_schedule(1_000_000), (10_000, 10_000));
}
