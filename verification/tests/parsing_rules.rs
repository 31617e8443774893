use log_analyzer::error::ParseError;
use log_analyzer::parser::parse_line;

#[test]
fn fields_may_be_separated_by_any_white_space() {
    let entry = parse_line("  2026-01-01T00:00:00 \t POST   /api/orders\u{3000}404\u{a0}7ms  ")
        .expect("white space of any kind separates fields");
    assert_eq!(entry.timestamp, "2026-01-01T00:00:00");
    assert_eq!(entry.method, "POST");
    assert_eq!(entry.endpoint, "/api/orders");
    assert_eq!(entry.status, 404);
    assert_eq!(entry.response_time_ms, 7);
}

#[test]
fn fields_after_the_fifth_are_ignored() {
    let entry = parse_line("t GET /x 301 0ms trailing words 12").unwrap();
    assert_eq!(entry.status, 301);
    assert_eq!(entry.response_time_ms, 0);
}

#[test]
fn numbers_take_a_plus_sign_and_leading_zeros() {
    let entry = parse_line("t GET /x +200 007ms").unwrap();
    assert_eq!(entry.status, 200);
    assert_eq!(entry.response_time_ms, 7);
}

#[test]
fn status_out_of_range_is_an_invalid_number() {
    assert!(matches!(parse_line("t GET /x 65536 1ms"), Err(ParseError::InvalidNumber(_))));
    assert!(parse_line("t GET /x 65535 1ms").is_ok());
    assert!(matches!(parse_line("t GET /x -1 1ms"), Err(ParseError::InvalidNumber(_))));
    assert!(matches!(parse_line("t GET /x + 1ms"), Err(ParseError::InvalidNumber(_))));
}

#[test]
fn latency_limits() {
    let entry = parse_line("t GET /x 200 18446744073709551615ms").unwrap();
    assert_eq!(entry.response_time_ms, u64::MAX);
    assert!(matches!(
        parse_line("t GET /x 200 18446744073709551616ms"),
        Err(ParseError::InvalidNumber(_))
    ));
    assert!(matches!(parse_line("t GET /x 200 ms"), Err(ParseError::InvalidNumber(_))));
    assert!(matches!(parse_line("t GET /x 200 1.5ms"), Err(ParseError::InvalidNumber(_))));
}

#[test]
fn latency_needs_the_ms_suffix() {
    assert!(matches!(parse_line("t GET /x 200 12s"), Err(ParseError::InvalidLatencyFormat)));
    assert!(matches!(parse_line("t GET /x 200 m"), Err(ParseError::InvalidLatencyFormat)));
    assert!(matches!(parse_line("t GET /x 200 12MS"), Err(ParseError::InvalidLatencyFormat)));
}

#[test]
fn the_status_is_checked_before_the_fifth_field_is_looked_for() {
    assert!(matches!(parse_line("t GET /x abc"), Err(ParseError::InvalidNumber(_))));
    assert!(matches!(parse_line("t GET /x 200"), Err(ParseError::MissingFields)));
    assert!(matches!(parse_line("t GET /x"), Err(ParseError::MissingFields)));
    assert!(matches!(parse_line("   "), Err(ParseError::MissingFields)));
}

#[test]
fn error_messages() {
    let missing = parse_line("").unwrap_err();
    assert_eq!(missing.message(), "log line is missing required fields");
    let format = parse_line("t GET /x 200 5").unwrap_err();
    assert_eq!(format.message(), "latency format is invalid, expected 'ms' suffix");
    let number = parse_line("t GET /x abc 5ms").unwrap_err();
    let detail = "abc".parse::<u16>().unwrap_err().to_string();
    assert_eq!(number.message(), format!("invalid number format: {}", detail));
}

#[test]
fn error_from_parse_int_error() {
    let err = "x".parse::<u64>().unwrap_err();
    assert!(matches!(ParseError::from(err), ParseError::InvalidNumber(_)));
}

#[test]
fn a_rendered_entry_parses_back() {
    let line = format!("{} {} {} {} {}ms", "2026-09-22T10:30:21", "DELETE", "/api/items/9", 503, 18446744073709551615u64);
    let entry = parse_line(&line).unwrap();
    assert_eq!(entry.timestamp, "2026-09-22T10:30:21");
    assert_eq!(entry.method, "DELETE");
    assert_eq!(entry.endpoint, "/api/items/9");
    assert_eq!(entry.status, 503);
    assert_eq!(entry.response_time_ms, u64::MAX);
}
