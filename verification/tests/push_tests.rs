use mavlink_cli::mavlink_stub::{Event, MavlinkConnectionHandler, Message, MuxError};
use mavlink_cli::parameters::Parameter;
use mavlink_cli::push_pull::{
    apply_lines, parse_line, push, ParseError, ParseErrorKind, PushError,
};

fn lines(texts: &[&str]) -> Vec<String> {
    texts.iter().map(|s| s.to_string()).collect()
}

fn set(name: &str, value: &str) -> Message {
    Message::ParamSet { name: name.to_string(), value: value.to_string() }
}

#[test]
fn apply_sends_one_message_per_line_in_order() {
    let (msgs, err) = apply_lines(&lines(&["#comment", "THR_MIN,0.1", "THR_MAX,0.9"]));
    assert_eq!(err, None);
    assert_eq!(msgs, vec![set("THR_MIN", "0.1"), set("THR_MAX", "0.9")]);
}

#[test]
fn a_malformed_value_fails_with_its_line_number() {
    let (msgs, err) = apply_lines(&lines(&["THR_MAX,0.9", "THR_MIN,notafloat", "X,1"]));
    // line 1 was already sent; line 2 is the failure; line 3 is never read
    assert_eq!(msgs, vec![set("THR_MAX", "0.9")]);
    assert_eq!(err, Some(ParseError { line: 2, kind: ParseErrorKind::InvalidValue }));
}

#[test]
fn a_line_without_a_comma_has_no_value() {
    let (msgs, err) = apply_lines(&lines(&["#x", "THR_MIN"]));
    assert!(msgs.is_empty());
    assert_eq!(err, Some(ParseError { line: 2, kind: ParseErrorKind::MissingValue }));
}

#[test]
fn an_empty_line_is_malformed() {
    let (_, err) = apply_lines(&lines(&["A,1", ""]));
    assert_eq!(err, Some(ParseError { line: 2, kind: ParseErrorKind::MissingValue }));
}

#[test]
fn an_empty_file_sends_nothing() {
    let (msgs, err) = apply_lines(&lines(&[]));
    assert!(msgs.is_empty());
    assert_eq!(err, None);
}

#[test]
fn a_file_of_comments_sends_nothing() {
    let (msgs, err) = apply_lines(&lines(&["#a", "#b,c", "#"]));
    assert!(msgs.is_empty());
    assert_eq!(err, None);
}

#[test]
fn parse_line_reads_the_fields() {
    assert_eq!(parse_line("#note"), Ok(None));
    let p = parse_line("THR_MIN,0.1").unwrap().unwrap();
    assert_eq!((p.name.as_str(), p.value.as_str()), ("THR_MIN", "0.1"));
    // anything after a second comma is ignored, as the original reader did
    let p = parse_line("A,0.5,junk").unwrap().unwrap();
    assert_eq!((p.name.as_str(), p.value.as_str()), ("A", "0.5"));
    assert_eq!(parse_line("A"), Err(ParseErrorKind::MissingValue));
    assert_eq!(parse_line("A,x"), Err(ParseErrorKind::InvalidValue));
    // an empty name is tolerated, an empty value is not
    assert!(parse_line(",0.5").unwrap().is_some());
    assert_eq!(parse_line("A,"), Err(ParseErrorKind::InvalidValue));
}

#[test]
fn push_fails_fast_on_a_closed_connection() {
    let mut conn = MavlinkConnectionHandler::new();
    conn.main_loop_step(Event::ReadError);
    let (msgs, err) = push(&conn, &lines(&["THR_MIN,0.1"]));
    assert!(msgs.is_empty());
    assert_eq!(err, Some(PushError::Mux(MuxError::Closed)));
}

#[test]
fn push_sends_the_parsed_lines() {
    let conn = MavlinkConnectionHandler::new();
    let (msgs, err) = push(&conn, &lines(&["#hdr", "A,1", "B,2.5"]));
    assert_eq!(err, None);
    assert_eq!(msgs, vec![set("A", "1"), set("B", "2.5")]);
}

#[test]
fn push_reports_the_parse_error_with_its_line() {
    let conn = MavlinkConnectionHandler::new();
    let (msgs, err) = push(&conn, &lines(&["A,1", "broken"]));
    assert_eq!(msgs, vec![set("A", "1")]);
    assert_eq!(
        err,
        Some(PushError::Parse(ParseError { line: 2, kind: ParseErrorKind::MissingValue }))
    );
}

#[test]
fn a_parameter_pushes_itself_as_a_set_message() {
    let conn = MavlinkConnectionHandler::new();
    let p = Parameter { name: "THR_MIN".to_string(), value: "0.1".to_string() };
    assert_eq!(p.push(&conn).unwrap(), set("THR_MIN", "0.1"));
    let mut conn = conn;
    conn.main_loop_step(Event::ReadError);
    assert_eq!(p.push(&conn), Err(MuxError::Closed));
}
