use goose::GooseError;

#[test]
fn error_descriptions() {
    let e = GooseError::InvalidOption {
        option: "--users".to_string(),
        value: "x".to_string(),
        detail: "bad".to_string(),
    };
    assert_eq!(e.describe(), "invalid option or value specified");
    let e = GooseError::NoScenarios { detail: "none".to_string() };
    assert_eq!(e.describe(), "no scenarios defined");
    let e = GooseError::InvalidWeight { weight: 0, detail: "zero".to_string() };
    assert_eq!(e.describe(), "invalid weight specified");
}
