use time_ledger::time_amount::{TimeAmount, TimeError};

fn minutes_of(text: &str) -> i64 {
    TimeAmount::parse(text).expect("valid time").minutes()
}

#[test]
fn parses_each_unit() {
    assert_eq!(minutes_of("1d"), 480);
    assert_eq!(minutes_of("1h"), 60);
    assert_eq!(minutes_of("30m"), 30);
    assert_eq!(minutes_of("1h 30m"), 90);
    assert_eq!(minutes_of("1d 2h 15m"), 615);
    assert_eq!(minutes_of("90m"), 90);
}

#[test]
fn parse_trims_and_splits_on_any_whitespace() {
    assert_eq!(minutes_of("  2h\t15m  "), 135);
    assert_eq!(minutes_of("+5m"), 5);
}

#[test]
fn colon_times_are_rejected() {
    match TimeAmount::parse("1:30") {
        Err(TimeError::InvalidNumber(token)) => assert_eq!(token, "1:30"),
        other => panic!("unexpected {other:?}"),
    }
}

#[test]
fn empty_time_is_rejected() {
    assert!(matches!(TimeAmount::parse("   "), Err(TimeError::Empty)));
}

#[test]
fn single_character_token_is_invalid() {
    match TimeAmount::parse("5") {
        Err(TimeError::InvalidToken(token)) => assert_eq!(token, "5"),
        other => panic!("unexpected {other:?}"),
    }
}

#[test]
fn unknown_unit_is_invalid_token() {
    match TimeAmount::parse("5x") {
        Err(TimeError::InvalidToken(token)) => assert_eq!(token, "5x"),
        other => panic!("unexpected {other:?}"),
    }
}

#[test]
fn negative_total_is_rejected() {
    assert!(matches!(TimeAmount::parse("-5m"), Err(TimeError::Negative)));
    assert_eq!(minutes_of("1h -30m"), 30);
}

#[test]
fn from_minutes_rejects_negative() {
    assert!(matches!(TimeAmount::from_minutes(-1), Err(TimeError::Negative)));
    assert_eq!(TimeAmount::from_minutes(0).expect("zero").minutes(), 0);
}

#[test]
fn format_normalizes() {
    let f = |m: i64| TimeAmount::from_minutes(m).expect("non-negative").format();
    assert_eq!(f(90), "1h 30m");
    assert_eq!(f(480), "1d");
    assert_eq!(f(960), "2d");
    assert_eq!(f(0), "0m");
    assert_eq!(f(615), "1d 2h 15m");
    assert_eq!(f(61), "1h 1m");
    assert_eq!(f(485), "1d 5m");
}

#[test]
fn readme_normalization_examples() {
    let normalize = |s: &str| TimeAmount::parse(s).expect("valid").format();
    assert_eq!(normalize("90m"), "1h 30m");
    assert_eq!(normalize("8h"), "1d");
    assert_eq!(normalize("1d 8h"), "2d");
}

#[test]
fn format_then_parse_round_trips() {
    for m in [0i64, 1, 59, 60, 61, 479, 480, 481, 12345, 1_000_000] {
        let text = TimeAmount::from_minutes(m).expect("non-negative").format();
        assert_eq!(minutes_of(&text), m);
    }
}

#[test]
fn multi_byte_and_overflowing_inputs_are_errors() {
    assert!(matches!(TimeAmount::parse("1é"), Err(TimeError::InvalidToken(t)) if t == "1é"));
    assert!(matches!(TimeAmount::parse("5€"), Err(TimeError::InvalidToken(t)) if t == "5€"));
    assert!(matches!(TimeAmount::parse("é"), Err(TimeError::InvalidToken(t)) if t == "é"));
    assert!(matches!(
        TimeAmount::parse("99999999999999999d"),
        Err(TimeError::InvalidNumber(t)) if t == "99999999999999999d"
    ));
    assert!(matches!(
        TimeAmount::parse("9223372036854775807m 1m"),
        Err(TimeError::InvalidNumber(t)) if t == "1m"
    ));
    assert!(matches!(TimeAmount::parse("éh"), Err(TimeError::InvalidNumber(t)) if t == "éh"));
    assert_eq!(TimeAmount::parse("1h").map(|t| t.minutes()).ok(), Some(60));
}

#[test]
fn error_messages() {
    assert_eq!(TimeError::Empty.message(), "empty time");
    assert_eq!(TimeError::InvalidToken("x".to_string()).message(), "invalid token 'x'");
    assert_eq!(
        TimeError::InvalidNumber("1:30".to_string()).message(),
        "invalid number in '1:30'"
    );
    assert_eq!(TimeError::Negative.message(), "negative time");
    assert_eq!(
        TimeError::InvalidToken("x".to_string()).debug_text(),
        "InvalidToken(\"x\")"
    );
    assert_eq!(TimeError::Negative.debug_text(), "Negative");
}
