use cluster_monitor::duration::{DurationParseError, DurationWrapper, MAX_SPAN_SECS};
use cluster_monitor::time::Span;

fn span(d: chrono::Duration) -> Span {
    Span { secs: d.num_seconds(), nanos: d.subsec_nanos() }
}

#[test]
#[allow(non_snake_case)]
fn Duration__try_from_string() {
    assert_eq!(DurationWrapper::try_from("35s").unwrap(), DurationWrapper(span(chrono::Duration::seconds(35))));
    assert_eq!(DurationWrapper::try_from("27m").unwrap(), DurationWrapper(span(chrono::Duration::minutes(27))));
    assert_eq!(DurationWrapper::try_from("3h").unwrap(), DurationWrapper(span(chrono::Duration::hours(3))));
    assert_eq!(DurationWrapper::try_from("500ms").unwrap(), DurationWrapper(span(chrono::Duration::milliseconds(500))));

    assert!(DurationWrapper::try_from("500").is_err());
    assert!(DurationWrapper::try_from("400k").is_err());
    assert!(DurationWrapper::try_from("400jkl").is_err());
}

#[test]
fn durations_have_exact_spans() {
    assert_eq!(DurationWrapper::try_from("35s"), Ok(DurationWrapper(Span { secs: 35, nanos: 0 })));
    assert_eq!(DurationWrapper::try_from("27m"), Ok(DurationWrapper(Span { secs: 1620, nanos: 0 })));
    assert_eq!(DurationWrapper::try_from("3h"), Ok(DurationWrapper(Span { secs: 10_800, nanos: 0 })));
    assert_eq!(DurationWrapper::try_from("500ms"), Ok(DurationWrapper(Span { secs: 0, nanos: 500_000_000 })));
    assert_eq!(DurationWrapper::try_from("1500ms"), Ok(DurationWrapper(Span { secs: 1, nanos: 500_000_000 })));
    assert_eq!(DurationWrapper::try_from("-1500ms"), Ok(DurationWrapper(Span { secs: -1, nanos: -500_000_000 })));
    assert_eq!(DurationWrapper::try_from("-2000ms"), Ok(DurationWrapper(Span { secs: -2, nanos: 0 })));
    assert_eq!(DurationWrapper::try_from("-5s"), Ok(DurationWrapper(Span { secs: -5, nanos: 0 })));
    assert_eq!(DurationWrapper::try_from("+5s"), Ok(DurationWrapper(Span { secs: 5, nanos: 0 })));
    assert_eq!(DurationWrapper::try_from("0h"), Ok(DurationWrapper(Span { secs: 0, nanos: 0 })));
    assert_eq!(*DurationWrapper::try_from("2m").unwrap().deref(), Span::seconds(120));
}

#[test]
fn duration_errors() {
    assert_eq!(DurationWrapper::try_from(""), Err(DurationParseError::InvalidSuffix));
    assert_eq!(DurationWrapper::try_from("500"), Err(DurationParseError::InvalidSuffix));
    assert_eq!(DurationWrapper::try_from("5 S"), Err(DurationParseError::InvalidSuffix));
    assert_eq!(DurationWrapper::try_from("s"), Err(DurationParseError::InvalidNumber));
    assert_eq!(DurationWrapper::try_from("ms"), Err(DurationParseError::InvalidNumber));
    assert_eq!(DurationWrapper::try_from("1.5s"), Err(DurationParseError::InvalidNumber));
    assert_eq!(DurationWrapper::try_from("5 s"), Err(DurationParseError::InvalidNumber));
    assert_eq!(DurationWrapper::try_from("-s"), Err(DurationParseError::InvalidNumber));
    assert_eq!(DurationWrapper::try_from("5mm"), Err(DurationParseError::InvalidNumber));
    assert_eq!(DurationWrapper::try_from("99999999999999999999s"), Err(DurationParseError::InvalidNumber));
}

#[test]
fn duration_range() {
    assert_eq!(MAX_SPAN_SECS, i64::MAX / 1000);
    assert_eq!(
        DurationWrapper::try_from("9223372036854775s"),
        Ok(DurationWrapper(Span { secs: 9_223_372_036_854_775, nanos: 0 }))
    );
    assert_eq!(DurationWrapper::try_from("9223372036854776s"), Err(DurationParseError::OutOfRange));
    assert_eq!(
        DurationWrapper::try_from("-9223372036854775s"),
        Ok(DurationWrapper(Span { secs: -9_223_372_036_854_775, nanos: 0 }))
    );
    assert_eq!(DurationWrapper::try_from("-9223372036854776s"), Err(DurationParseError::OutOfRange));
    assert_eq!(DurationWrapper::try_from("153722867280913m"), Err(DurationParseError::OutOfRange));
    assert_eq!(
        DurationWrapper::try_from("153722867280912m"),
        Ok(DurationWrapper(Span { secs: 9_223_372_036_854_720, nanos: 0 }))
    );
    assert_eq!(DurationWrapper::try_from("153722867280912931m"), Err(DurationParseError::OutOfRange));
    assert_eq!(DurationWrapper::try_from("2562047788016h"), Err(DurationParseError::OutOfRange));
    assert_eq!(
        DurationWrapper::try_from("-2562047788015h"),
        Ok(DurationWrapper(Span { secs: -9_223_372_036_854_000, nanos: 0 }))
    );
    assert_eq!(DurationWrapper::try_from("9223372036854775807h"), Err(DurationParseError::OutOfRange));
    assert_eq!(
        DurationWrapper::try_from("9223372036854775807ms"),
        Ok(DurationWrapper(Span { secs: 9_223_372_036_854_775, nanos: 807_000_000 }))
    );
    assert_eq!(
        DurationWrapper::try_from("-9223372036854775807ms"),
        Ok(DurationWrapper(Span { secs: -9_223_372_036_854_775, nanos: -807_000_000 }))
    );
    assert_eq!(DurationWrapper::try_from("-9223372036854775808ms"), Err(DurationParseError::OutOfRange));
}
