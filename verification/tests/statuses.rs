use loki::{ParseError, ServiceStatus, parse_services};

#[test]
fn from_str_accepts_the_six_literals() {
    assert_eq!(ServiceStatus::from_str("New"), Ok(ServiceStatus::New));
    assert_eq!(ServiceStatus::from_str("Starting"), Ok(ServiceStatus::Starting));
    assert_eq!(ServiceStatus::from_str("Running"), Ok(ServiceStatus::Running));
    assert_eq!(ServiceStatus::from_str("Stopping"), Ok(ServiceStatus::Stopping));
    assert_eq!(ServiceStatus::from_str("Terminated"), Ok(ServiceStatus::Terminated));
    assert_eq!(ServiceStatus::from_str("Failed"), Ok(ServiceStatus::Failed));
}

#[test]
fn from_str_rejects_anything_else() {
    assert_eq!(ServiceStatus::from_str("BadState"), Err(ParseError));
    assert_eq!(ServiceStatus::from_str("running"), Err(ParseError));
    assert_eq!(ServiceStatus::from_str(""), Err(ParseError));
    assert_eq!(ServiceStatus::from_str("Running "), Err(ParseError));
}

#[test]
fn malformed_status_line_is_dropped() {
    let parsed = parse_services("ingester => Running\nquerier => BadState\n");
    let expected: Vec<(String, ServiceStatus)> =
        vec![("ingester".to_string(), ServiceStatus::Running)];
    assert_eq!(parsed, expected);
}

#[test]
fn parses_every_well_shaped_line() {
    let parsed = parse_services("a => New\nb => Stopping\nc => Terminated");
    let expected: Vec<(String, ServiceStatus)> = vec![
        ("a".to_string(), ServiceStatus::New),
        ("b".to_string(), ServiceStatus::Stopping),
        ("c".to_string(), ServiceStatus::Terminated),
    ];
    assert_eq!(parsed, expected);
}

#[test]
fn repeated_name_keeps_the_last_status() {
    let parsed = parse_services("ing => Starting\ning => Running\n");
    let expected: Vec<(String, ServiceStatus)> =
        vec![("ing".to_string(), ServiceStatus::Running)];
    assert_eq!(parsed, expected);
}

#[test]
fn line_with_two_separators_is_dropped() {
    let parsed = parse_services("a => b => Running\nok => Failed\n");
    let expected: Vec<(String, ServiceStatus)> =
        vec![("ok".to_string(), ServiceStatus::Failed)];
    assert_eq!(parsed, expected);
}

#[test]
fn line_without_separator_is_dropped() {
    let parsed = parse_services("Running\n\nplain text\n");
    assert!(parsed.is_empty());
}

#[test]
fn carriage_return_before_newline_is_stripped() {
    let parsed = parse_services("win => Running\r\nunix => Failed\n");
    let expected: Vec<(String, ServiceStatus)> = vec![
        ("win".to_string(), ServiceStatus::Running),
        ("unix".to_string(), ServiceStatus::Failed),
    ];
    assert_eq!(parsed, expected);
}

#[test]
fn trailing_carriage_return_without_newline_stays() {
    // As with str::lines, a final line ending in a bare carriage return
    // keeps it, so the status no longer matches a literal.
    let parsed = parse_services("svc => Running\r");
    assert!(parsed.is_empty());
}

#[test]
fn empty_text_gives_no_services() {
    assert!(parse_services("").is_empty());
}

#[test]
fn name_may_be_empty() {
    let parsed = parse_services(" => Running\n");
    let expected: Vec<(String, ServiceStatus)> = vec![("".to_string(), ServiceStatus::Running)];
    assert_eq!(parsed, expected);
}
