use goose::metrics::coordinated_omission::{
    calculate_severity, CadenceCalculator, CoEventLog, CoSeverity, DisabledCadence, MaximumCadence,
    MinimumCadence,
};

#[test]
fn severity_grows_with_the_ratio() {
    assert_eq!(calculate_severity(100, 150), CoSeverity::Minor);
    assert_eq!(calculate_severity(100, 499), CoSeverity::Minor);
    assert_eq!(calculate_severity(100, 500), CoSeverity::Moderate);
    assert_eq!(calculate_severity(100, 999), CoSeverity::Moderate);
    assert_eq!(calculate_severity(100, 1000), CoSeverity::Severe);
    assert_eq!(calculate_severity(100, 1999), CoSeverity::Severe);
    assert_eq!(calculate_severity(100, 2000), CoSeverity::Critical);
    assert_eq!(calculate_severity(0, 5), CoSeverity::Critical);
}

#[test]
fn minimum_cadence() {
    let mut c = MinimumCadence::new(2);
    assert_eq!(c.name(), "minimum");
    // Still warming up: one hour.
    assert_eq!(c.calculate_baseline(&[5_000_000]), 3_600_000_000_000);
    assert_eq!(c.calculate_baseline(&[9, 3, 7]), 3);
    assert!(c.should_inject_synthetic(7, 3));
    assert!(!c.should_inject_synthetic(6, 3));
    assert_eq!(c.calculate_baseline(&[]), 1_000_000_000);
}

#[test]
fn maximum_cadence() {
    let mut c = MaximumCadence::new(0);
    assert_eq!(c.name(), "maximum");
    assert_eq!(c.calculate_baseline(&[9, 3, 7]), 9);
    assert!(c.should_inject_synthetic(19, 9));
    assert!(!c.should_inject_synthetic(18, 9));
}

#[test]
fn disabled_cadence_never_injects() {
    let mut c = DisabledCadence;
    assert_eq!(c.name(), "disabled");
    let b = c.calculate_baseline(&[1, 2, 3]);
    assert!(!c.should_inject_synthetic(u128::MAX / 4, b));
}

#[test]
fn co_events_are_counted_by_severity() {
    let mut log = CoEventLog::new();
    assert!(!log.has_events());
    log.record_actual_request();
    log.record_co_event(100, 300, 2, 1, "s".to_string(), 10);
    log.record_co_event(100, 700, 6, 2, "s".to_string(), 11);
    log.record_co_event(100, 2500, 24, 1, "t".to_string(), 12);
    log.record_co_event(0, 10, 1, 3, "t".to_string(), 13);
    assert!(log.has_events());
    assert_eq!(log.actual_requests, 1);
    assert_eq!(log.synthetic_requests, 33);
    assert_eq!(log.co_events.len(), 4);
    assert_eq!(log.co_events[1].severity, CoSeverity::Moderate);
    assert_eq!(log.co_events[2].actual_duration_ms, 2500);
    assert_eq!(log.severity_histogram.minor, 1);
    assert_eq!(log.severity_histogram.moderate, 1);
    assert_eq!(log.severity_histogram.severe, 0);
    assert_eq!(log.severity_histogram.critical, 2);
}
