use tik::duration::Duration;

#[test]
fn parse_minutes_only() {
    assert_eq!(Duration::parse("25m").unwrap().total_secs, 1500);
}

#[test]
fn parse_seconds_only() {
    assert_eq!(Duration::parse("90s").unwrap().total_secs, 90);
}

#[test]
fn parse_hours_only() {
    assert_eq!(Duration::parse("1h").unwrap().total_secs, 3600);
}

#[test]
fn parse_hours_and_minutes() {
    assert_eq!(Duration::parse("1h30m").unwrap().total_secs, 5400);
}

#[test]
fn parse_all_components() {
    assert_eq!(Duration::parse("1h30m15s").unwrap().total_secs, 5415);
}

#[test]
fn parse_invalid_returns_error() {
    assert!(Duration::parse("abc").is_err());
}

#[test]
fn parse_zero_returns_error() {
    assert!(Duration::parse("0m").is_err());
}

#[test]
fn format_minutes_and_seconds() {
    assert_eq!(Duration { total_secs: 1500 }.format_hms(), "25:00");
}

#[test]
fn format_with_hours() {
    assert_eq!(Duration { total_secs: 5415 }.format_hms(), "1:30:15");
}

#[test]
fn format_seconds_only() {
    assert_eq!(Duration { total_secs: 45 }.format_hms(), "0:45");
}

#[test]
fn format_human_readable() {
    assert_eq!(Duration { total_secs: 1500 }.format_hms(), "25:00");
}

#[test]
fn parse_empty_rejected_as_zero() {
    assert!(Duration::parse("").is_err());
}

#[test]
fn parse_error_messages() {
    assert_eq!(
        Duration::parse("abc").unwrap_err(),
        "Invalid duration format: 'abc'"
    );
    assert_eq!(
        Duration::parse("0m").unwrap_err(),
        "Duration must be greater than zero"
    );
    assert_eq!(
        Duration::parse("99999999999999999999h").unwrap_err(),
        "Duration is too large"
    );
}

#[test]
fn parse_components_out_of_order_rejected() {
    assert!(Duration::parse("30m1h").is_err());
    assert!(Duration::parse("15s1h").is_err());
}

#[test]
fn parse_unit_without_digits_rejected() {
    assert!(Duration::parse("m").is_err());
    assert!(Duration::parse("h30m").is_err());
}

#[test]
fn parse_leading_zeros_accepted() {
    assert_eq!(Duration::parse("0h05m").unwrap().total_secs, 300);
}
