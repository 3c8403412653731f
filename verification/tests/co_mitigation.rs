use goose::metrics::co_mitigation::GooseCoordinatedOmissionMitigation;
use goose::GooseError;

#[test]
fn mitigation_names() {
    assert_eq!(GooseCoordinatedOmissionMitigation::from_str("average").unwrap(), GooseCoordinatedOmissionMitigation::Average);
    assert_eq!(GooseCoordinatedOmissionMitigation::from_str("AVG").unwrap(), GooseCoordinatedOmissionMitigation::Average);
    assert_eq!(GooseCoordinatedOmissionMitigation::from_str("Mean").unwrap(), GooseCoordinatedOmissionMitigation::Average);
    assert_eq!(GooseCoordinatedOmissionMitigation::from_str("max").unwrap(), GooseCoordinatedOmissionMitigation::Maximum);
    assert_eq!(GooseCoordinatedOmissionMitigation::from_str("MA").unwrap(), GooseCoordinatedOmissionMitigation::Maximum);
    assert_eq!(GooseCoordinatedOmissionMitigation::from_str("MiNi").unwrap(), GooseCoordinatedOmissionMitigation::Minimum);
    assert_eq!(GooseCoordinatedOmissionMitigation::from_str("minimum").unwrap(), GooseCoordinatedOmissionMitigation::Minimum);
    assert_eq!(GooseCoordinatedOmissionMitigation::from_str("None").unwrap(), GooseCoordinatedOmissionMitigation::Disabled);
    assert_eq!(GooseCoordinatedOmissionMitigation::from_str("disable").unwrap(), GooseCoordinatedOmissionMitigation::Disabled);
    // The long s folds to s when case is ignored.
    assert_eq!(GooseCoordinatedOmissionMitigation::from_str("di\u{17f}").unwrap(), GooseCoordinatedOmissionMitigation::Disabled);
}

#[test]
fn unknown_mitigation_is_refused() {
    match GooseCoordinatedOmissionMitigation::from_str("median") {
        Err(GooseError::InvalidOption { option, value, detail }) => {
            assert_eq!(option, "GooseCoordinatedOmissionMitigation::\"median\"");
            assert_eq!(value, "median");
            assert_eq!(
                detail,
                "Invalid co_mitigation, expected: average, disabled, maximum, median, or minimum"
            );
        }
        other => panic!("unexpected: {:?}", other),
    }
    assert!(GooseCoordinatedOmissionMitigation::from_str(" max").is_err());
    assert!(GooseCoordinatedOmissionMitigation::from_str("maximal").is_err());
    assert!(GooseCoordinatedOmissionMitigation::from_str("").is_err());
}
