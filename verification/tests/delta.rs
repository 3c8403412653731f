use goose::metrics::delta::{ApplyBaseline, DeltaTo, DeltaValue, Value};
use goose::goose::GooseMethod;
use goose::metrics::correlate::correlate_deltas;
use goose::report::{ErrorMetric, OrEmpty};

#[test]
fn delta_value_usize() {
    assert_eq!(100usize.delta(50usize), 50isize);
    assert_eq!(usize::MAX.delta(usize::MAX), 0isize);
    assert_eq!(usize::MAX.delta(0usize), isize::MAX);
    assert_eq!(0usize.delta(usize::MAX), isize::MIN);
}

#[test]
fn eval_optional() {
    assert_eq!(
        {
            let mut value = Some(Value::Plain(10usize));
            value.eval(Some(Value::Plain(5usize)));
            value
        },
        Some(Value::Delta {
            value: 10usize,
            delta: 5isize
        })
    );

    assert_eq!(
        {
            let mut value: Option<Value<usize>> = None;
            value.eval(Some(Value::Plain(5usize)));
            value
        },
        None
    );
}

#[test]
fn delta_to_string() {
    assert_eq!(format!("{}", 0usize.delta(10usize)), "-10");
    assert_eq!(format!("{}", 10usize.delta(10usize)), "0");
    assert_eq!(format!("{}", 10usize.delta(0usize)), "10");
}

#[test]
fn value_to_string() {
    fn value<T: DeltaValue>(value: T, baseline: T) -> Value<T> {
        let mut result = Value::from(value);
        result.diff(baseline);
        result
    }

    assert_eq!(value(0usize, 1000usize).to_text(), "0 (-1000)");
    assert_eq!(value(1000usize, 1000usize).to_text(), "1000 (0)");
    assert_eq!(value(1000usize, 0usize).to_text(), "1000 (+1000)");
}

#[test]
fn delta_of_other_widths_is_clamped() {
    assert_eq!(0u16.delta(u16::MAX), i16::MIN);
    assert_eq!(u16::MAX.delta(0u16), i16::MAX);
    assert_eq!(7u16.delta(2u16), 5i16);
    assert_eq!(u64::MAX.delta(0u64), i64::MAX);
    assert_eq!(0u64.delta(u64::MAX), i64::MIN);
    assert_eq!(3u64.delta(10u64), -7i64);
}

#[test]
fn plain_value_text_and_value() {
    let v = Value::from(1234usize);
    assert_eq!(v.value(), 1234);
    assert_eq!(v.to_text(), "1234");
    let mut d = Value::from(5u64);
    d.diff(5u64);
    assert_eq!(d.value(), 5);
    assert_eq!(d.to_text(), "5 (0)");
}

#[test]
fn eval_without_baseline_keeps_value() {
    let mut value = Some(Value::Plain(10usize));
    value.eval(None);
    assert_eq!(value, Some(Value::Plain(10usize)));
}

#[test]
fn error_metric_takes_delta_of_occurrences() {
    let mut current = ErrorMetric {
        method: GooseMethod::Get,
        name: "/".to_string(),
        error: "503 Service Unavailable".to_string(),
        occurrences: Value::from(7usize),
    };
    let baseline = ErrorMetric {
        method: GooseMethod::Post,
        name: "/other".to_string(),
        error: "boom".to_string(),
        occurrences: Value::from(10usize),
    };
    current.delta_to(&baseline);
    assert_eq!(current.occurrences, Value::Delta { value: 7, delta: -3 });
    assert_eq!(current.method, GooseMethod::Get);
    assert_eq!(current.name, "/");
    assert_eq!(current.error, "503 Service Unavailable");
}

#[test]
fn or_empty_text() {
    assert_eq!(OrEmpty(Some(Value::from(42usize))).to_text(), "42");
    assert_eq!(OrEmpty::<Value<usize>>(None).to_text(), "");
}

fn error(name: &str, occurrences: usize) -> ErrorMetric {
    ErrorMetric {
        method: GooseMethod::Get,
        name: name.to_string(),
        error: "boom".to_string(),
        occurrences: Value::from(occurrences),
    }
}

#[test]
fn correlate_errors_by_key() {
    let mut current = vec![error("/", 200), error("/api", 100)];
    let baseline = vec![error("/", 150), error("/other", 1)];
    correlate_deltas(&mut current, &baseline, |e: &ErrorMetric| (e.method, e.name.clone(), e.error.clone()));
    // The entry with a baseline takes its delta.
    assert_eq!(current[0].occurrences.value(), 200);
    assert_eq!(current[0].occurrences, Value::Delta { value: 200, delta: 50 });
    // The entry without one stays plain.
    assert_eq!(current[1].occurrences.value(), 100);
    assert!(matches!(current[1].occurrences, Value::Plain(_)));
}

#[test]
fn correlate_uses_the_last_match() {
    let mut current = vec![error("/", 10), error("/", 20)];
    let baseline = vec![error("/", 1), error("/", 5)];
    correlate_deltas(&mut current, &baseline, |e: &ErrorMetric| e.name.clone());
    // Of two current entries with the same key only the last takes deltas, from the
    // last baseline entry with that key.
    assert_eq!(current[0].occurrences, Value::Plain(10));
    assert_eq!(current[1].occurrences, Value::Delta { value: 20, delta: 15 });
}
