use tmux_table::session::{ParseError, TmuxSession};

fn parse_ok(line: &str) -> TmuxSession {
    match TmuxSession::new(line) {
        Ok(s) => s,
        Err(e) => panic!("line {:?} failed to parse: {:?}", line, e),
    }
}

fn parse_err(line: &str) -> ParseError {
    match TmuxSession::new(line) {
        Ok(s) => panic!("line {:?} parsed unexpectedly as {:?}", line, s),
        Err(e) => e,
    }
}

#[test]
fn round_trip_work_session() {
    let s = parse_ok("work: 3 windows (created Mon Jan  1 00:00:00 2024) (attached)");
    assert_eq!(s.name, "work");
    assert_eq!(s.num_windows, 3);
    assert_eq!(s.date_created, "Mon Jan  1 00:00:00 2024");
}

#[test]
fn zero_windows_parses_as_zero() {
    let s = parse_ok("idle: 0 windows (created Tue Feb 20 08:15:00 2024)");
    assert_eq!(s.name, "idle");
    assert_eq!(s.num_windows, 0);
    assert_eq!(s.date_created, "Tue Feb 20 08:15:00 2024");
}

#[test]
fn no_colon_is_rejected() {
    assert_eq!(parse_err("no-colon-here"), ParseError::MissingColon);
}

#[test]
fn empty_name_is_rejected() {
    assert_eq!(parse_err(": 3 windows (created Tue)"), ParseError::EmptyName);
}

#[test]
fn empty_line_is_rejected() {
    assert_eq!(parse_err(""), ParseError::MissingColon);
}

#[test]
fn non_numeric_count_is_rejected() {
    assert_eq!(
        parse_err("work: many windows (created Tue)"),
        ParseError::BadWindowCount
    );
}

#[test]
fn count_ending_the_line_is_rejected() {
    assert_eq!(parse_err("work:"), ParseError::BadWindowCount);
}

#[test]
fn missing_open_paren_is_rejected() {
    assert_eq!(
        parse_err("work: 3 windows created Tue"),
        ParseError::MissingOpenParen
    );
}

#[test]
fn unclosed_timestamp_is_rejected() {
    assert_eq!(
        parse_err("work: 3 windows (created"),
        ParseError::UnclosedTimestamp
    );
    assert_eq!(
        parse_err("work: 3 windows (created Mon Jan 1"),
        ParseError::UnclosedTimestamp
    );
}

#[test]
fn leading_zeros_keep_their_value() {
    let s = parse_ok("pad: 007 windows (created Wed)");
    assert_eq!(s.num_windows, 7);
}

#[test]
fn count_at_u32_limit_parses() {
    let s = parse_ok("big: 4294967295 windows (created Thu)");
    assert_eq!(s.num_windows, u32::MAX);
}

#[test]
fn count_beyond_u32_limit_is_rejected() {
    assert_eq!(
        parse_err("big: 4294967296 windows (created Thu)"),
        ParseError::BadWindowCount
    );
}

#[test]
fn trailing_text_is_ignored() {
    let a = parse_ok("dev: 5 windows (created Fri Mar  1 12:00:00 2024)");
    let b = parse_ok("dev: 5 windows (created Fri Mar  1 12:00:00 2024) (attached) extra");
    assert_eq!(a.name, b.name);
    assert_eq!(a.num_windows, b.num_windows);
    assert_eq!(a.date_created, b.date_created);
}

#[test]
fn distinct_fields_parse_to_distinct_records() {
    let a = parse_ok("alpha: 1 windows (created Mon)");
    let b = parse_ok("beta: 1 windows (created Mon)");
    let c = parse_ok("alpha: 2 windows (created Mon)");
    let d = parse_ok("alpha: 1 windows (created Tue)");
    assert_ne!(a.name, b.name);
    assert_ne!(a.num_windows, c.num_windows);
    assert_ne!(a.date_created, d.date_created);
}

#[test]
fn name_may_contain_spaces_and_parens() {
    let s = parse_ok("my (odd) name: 2 windows (created Sat)");
    assert_eq!(s.name, "my (odd) name");
    assert_eq!(s.num_windows, 2);
    assert_eq!(s.date_created, "Sat");
}

#[test]
fn timestamp_may_contain_spaces() {
    let s = parse_ok("w: 1 windows (created Mon Jan  1 00:00:00 2024)");
    assert_eq!(s.date_created, "Mon Jan  1 00:00:00 2024");
}
