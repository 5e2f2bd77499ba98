use mavlink_cli::mavlink_stub::{Event, MavlinkConnectionHandler, Message};
use mavlink_cli::push_pull::fetch_parameters;

fn param_value(name: &str, value: &str, index: u16, count: u16) -> Message {
    Message::ParamValue {
        name: name.to_string(),
        value: value.to_string(),
        index,
        count,
    }
}

#[test]
fn fetch_subscribes_before_sending_the_request() {
    let mut conn = MavlinkConnectionHandler::new();
    let (fetch, request) = fetch_parameters(&mut conn, 0, 1_000).unwrap();
    assert_eq!(request, Message::ParamRequestList);
    // the subscription was posted; once registered, replies are delivered
    conn.main_loop_step(Event::Registration);
    let deliveries = conn.on_message(&param_value("A", "1", 0, 1), 0, &vec![]);
    assert_eq!(deliveries.len(), 1);
    assert_eq!(deliveries[0].channel, fetch.channel);
}

#[test]
fn fetch_terminates_exactly_at_the_declared_total() {
    let mut conn = MavlinkConnectionHandler::new();
    let (mut fetch, _) = fetch_parameters(&mut conn, 0, 1_000).unwrap();
    // five duplicate replies for one name: stored stays 1, never done
    for _ in 0..5 {
        let p = fetch.on_message(&param_value("THR_MIN", "0.1", 0, 2)).unwrap();
        assert_eq!((p.stored, p.total, p.done), (1, 2, false));
    }
    // one reply for a second name with declared total 2: done
    let p = fetch.on_message(&param_value("THR_MAX", "0.9", 1, 2)).unwrap();
    assert_eq!((p.stored, p.total, p.done), (2, 2, true));
    assert!(fetch.is_done());
    let params = fetch.into_parameters();
    assert_eq!(params.len(), 2);
    assert_eq!((params[0].name.as_str(), params[0].value.as_str()), ("THR_MAX", "0.9"));
    assert_eq!((params[1].name.as_str(), params[1].value.as_str()), ("THR_MIN", "0.1"));
}

#[test]
fn duplicate_replies_overwrite_and_never_append() {
    let mut conn = MavlinkConnectionHandler::new();
    let (mut fetch, _) = fetch_parameters(&mut conn, 0, 1_000).unwrap();
    fetch.on_message(&param_value("RATE", "1.5", 0, 3)).unwrap();
    let p = fetch.on_message(&param_value("RATE", "2.5", 0, 3)).unwrap();
    assert_eq!(p.stored, 1);
    let params = fetch.into_parameters();
    assert_eq!(params.len(), 1);
    assert_eq!(params[0].value, "2.5");
}

#[test]
fn the_declared_total_is_a_running_maximum() {
    let mut conn = MavlinkConnectionHandler::new();
    let (mut fetch, _) = fetch_parameters(&mut conn, 0, 1_000).unwrap();
    let p = fetch.on_message(&param_value("A", "1", 0, 5)).unwrap();
    assert_eq!(p.total, 5);
    // a later reply restating a smaller total does not lower the maximum
    let p = fetch.on_message(&param_value("B", "2", 1, 3)).unwrap();
    assert_eq!(p.total, 5);
    assert!(!p.done);
}

#[test]
fn a_zero_total_never_terminates_by_count() {
    let mut conn = MavlinkConnectionHandler::new();
    let (mut fetch, _) = fetch_parameters(&mut conn, 0, 1_000).unwrap();
    let p = fetch.on_message(&param_value("A", "1", 0, 0)).unwrap();
    assert!(!p.done);
    assert!(!fetch.is_done());
    // the bounded wait is what ends such a fetch
    assert_eq!(fetch.check_clock(999), Ok(()));
    assert_eq!(fetch.check_clock(1_000), Err(mavlink_cli::mavlink_stub::MuxError::TimedOut));
    assert_eq!(fetch.check_clock(5_000), Err(mavlink_cli::mavlink_stub::MuxError::TimedOut));
}

#[test]
fn unrelated_messages_are_ignored_by_the_fetch() {
    let mut conn = MavlinkConnectionHandler::new();
    let (mut fetch, _) = fetch_parameters(&mut conn, 0, 1_000).unwrap();
    assert!(fetch.on_message(&Message::Heartbeat).is_none());
    assert!(fetch.on_message(&Message::Other { id: 9 }).is_none());
    assert!(!fetch.is_done());
}

#[test]
fn fetch_fails_fast_on_a_closed_connection() {
    let mut conn = MavlinkConnectionHandler::new();
    conn.main_loop_step(Event::ReadError);
    assert!(fetch_parameters(&mut conn, 0, 1_000).is_err());
}

#[test]
fn fetched_parameters_come_out_sorted_by_name() {
    let mut conn = MavlinkConnectionHandler::new();
    let (mut fetch, _) = fetch_parameters(&mut conn, 0, 1_000).unwrap();
    for (i, name) in ["ZULU", "ALPHA", "MIKE"].iter().enumerate() {
        fetch.on_message(&param_value(name, "1", i as u16, 3)).unwrap();
    }
    let names: Vec<&str> = fetch.snapshot.entries.iter().map(|p| p.name.as_str()).collect();
    assert_eq!(names, vec!["ALPHA", "MIKE", "ZULU"]);
}
