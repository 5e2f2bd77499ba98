use mavlink_cli::mavlink_stub::{
    message_type, Delivery, Event, MavMessageType, MavlinkConnectionHandler, Message, MuxError,
};

fn param_value(name: &str, value: &str, index: u16, count: u16) -> Message {
    Message::ParamValue {
        name: name.to_string(),
        value: value.to_string(),
        index,
        count,
    }
}

#[test]
fn tags_ignore_payload_fields() {
    let a = param_value("THR_MIN", "0.1", 0, 2);
    let b = param_value("THR_MAX", "0.9", 1, 7);
    assert_eq!(message_type(&a), message_type(&b));
    assert_eq!(message_type(&a), MavMessageType::ParamValue);
    assert_ne!(message_type(&a), MavMessageType::Heartbeat);
    assert_ne!(
        message_type(&Message::Other { id: 3 }),
        message_type(&Message::Other { id: 4 })
    );
}

#[test]
fn subscribe_posts_a_pending_registration() {
    let mut conn = MavlinkConnectionHandler::new();
    let ch = conn.subscribe(MavMessageType::ParamValue).unwrap();
    assert_eq!(ch, 0);
    // nothing is in the registry until the dispatch loop takes the event
    let deliveries = conn.on_message(&param_value("A", "1", 0, 1), 5, &vec![]);
    assert!(deliveries.is_empty());
    conn.main_loop_step(Event::Registration);
    let deliveries = conn.on_message(&param_value("A", "1", 0, 1), 5, &vec![]);
    assert_eq!(deliveries.len(), 1);
    assert_eq!(deliveries[0].channel, ch);
}

#[test]
fn recurring_subscriber_receives_every_matching_message_in_order() {
    let mut conn = MavlinkConnectionHandler::new();
    let ch = conn.subscribe(MavMessageType::ParamValue).unwrap();
    conn.main_loop_step(Event::Registration);
    let msgs = [
        param_value("A", "1", 0, 3),
        param_value("B", "2", 1, 3),
        param_value("C", "3", 2, 3),
    ];
    let mut seen = Vec::new();
    for (i, m) in msgs.iter().enumerate() {
        // unrelated traffic in between is not delivered to this subscriber
        let other = conn.on_message(&Message::Other { id: 77 }, i as u64, &vec![]);
        assert!(other.is_empty());
        for d in conn.on_message(m, i as u64, &vec![]) {
            assert_eq!(d.channel, ch);
            seen.push(d.message);
        }
    }
    assert_eq!(seen.as_slice(), &msgs);
}

#[test]
fn closed_channel_is_dropped_and_never_delivered_again() {
    let mut conn = MavlinkConnectionHandler::new();
    let ch = conn.subscribe(MavMessageType::ParamValue).unwrap();
    conn.main_loop_step(Event::Registration);
    // the consumer dropped its channel: the next matching message removes
    // the subscription without delivering
    let deliveries = conn.on_message(&param_value("A", "1", 0, 1), 0, &vec![ch]);
    assert!(deliveries.is_empty());
    // and nothing arrives later, even with the channel reported open again
    let deliveries = conn.on_message(&param_value("B", "2", 0, 1), 1, &vec![]);
    assert!(deliveries.is_empty());
}

#[test]
fn request_is_delivered_once_and_retired() {
    let mut conn = MavlinkConnectionHandler::new();
    let ch = conn.request(MavMessageType::ParamValue).unwrap();
    conn.main_loop_step(Event::Registration);
    let first = param_value("A", "1", 0, 2);
    let deliveries = conn.on_message(&first, 0, &vec![]);
    assert_eq!(deliveries.len(), 1);
    assert_eq!(deliveries[0], Delivery { channel: ch, message: first });
    // the request resolved; it is never invoked again
    let deliveries = conn.on_message(&param_value("B", "2", 1, 2), 1, &vec![]);
    assert!(deliveries.is_empty());
}

#[test]
fn heartbeat_updates_liveness_and_still_fans_out() {
    let mut conn = MavlinkConnectionHandler::new();
    let ch = conn.subscribe(MavMessageType::Heartbeat).unwrap();
    conn.main_loop_step(Event::Registration);
    assert_eq!(conn.last_heartbeat(), None);
    let deliveries = conn.on_message(&Message::Heartbeat, 42, &vec![]);
    assert_eq!(conn.last_heartbeat(), Some(42));
    assert_eq!(deliveries.len(), 1);
    assert_eq!(deliveries[0].channel, ch);
    assert_eq!(deliveries[0].message, Message::Heartbeat);
}

#[test]
fn subscribers_under_one_tag_deliver_in_registration_order() {
    let mut conn = MavlinkConnectionHandler::new();
    let first = conn.subscribe(MavMessageType::Heartbeat).unwrap();
    let second = conn.subscribe(MavMessageType::Heartbeat).unwrap();
    conn.main_loop_step(Event::Registration);
    conn.main_loop_step(Event::Registration);
    let deliveries = conn.on_message(&Message::Heartbeat, 1, &vec![]);
    let channels: Vec<u64> = deliveries.iter().map(|d| d.channel).collect();
    assert_eq!(channels, vec![first, second]);
}

#[test]
fn operations_fail_fast_after_a_fatal_transport_error() {
    let mut conn = MavlinkConnectionHandler::new();
    assert!(conn.send(&Message::ParamRequestList).is_ok());
    conn.main_loop_step(Event::ReadError);
    assert_eq!(conn.send(&Message::ParamRequestList), Err(MuxError::Closed));
    assert_eq!(conn.send_default(&Message::Heartbeat), Err(MuxError::Closed));
    assert_eq!(conn.subscribe(MavMessageType::Heartbeat), Err(MuxError::Closed));
    assert_eq!(conn.request(MavMessageType::Heartbeat), Err(MuxError::Closed));
    assert!(conn.is_alive(0, 1000).is_err());
}

#[test]
fn would_block_and_garbage_change_nothing() {
    let mut conn = MavlinkConnectionHandler::new();
    conn.subscribe(MavMessageType::Heartbeat).unwrap();
    conn.main_loop_step(Event::Registration);
    assert!(conn.main_loop_step(Event::ReadWouldBlock).is_empty());
    assert!(conn.main_loop_step(Event::Garbage).is_empty());
    assert!(!conn.on_message(&Message::Heartbeat, 1, &vec![]).is_empty());
}

#[test]
fn send_hands_the_exact_message_to_the_transport() {
    let conn = MavlinkConnectionHandler::new();
    let msg = Message::ParamSet { name: "THR_MIN".to_string(), value: "0.1".to_string() };
    assert_eq!(conn.send(&msg).unwrap(), msg);
    assert_eq!(conn.send_default(&msg).unwrap(), msg);
}

#[test]
fn is_alive_times_out_without_a_heartbeat() {
    let mut conn = MavlinkConnectionHandler::new();
    let probe = conn.is_alive(100, 50).unwrap();
    conn.main_loop_step(Event::Registration);
    // before the deadline, with no delivery, the race stays open
    assert_eq!(probe.poll(120, None), None);
    assert_eq!(probe.poll(149, None), None);
    // at the deadline it resolves to "not alive" — not earlier, not never
    assert_eq!(probe.poll(150, None), Some(false));
    assert_eq!(probe.poll(1000, None), Some(false));
}

#[test]
fn is_alive_wins_when_the_heartbeat_arrives_first() {
    let mut conn = MavlinkConnectionHandler::new();
    let probe = conn.is_alive(100, 50).unwrap();
    conn.main_loop_step(Event::Registration);
    let deliveries = conn.on_message(&Message::Heartbeat, 120, &vec![]);
    assert_eq!(deliveries.len(), 1);
    assert_eq!(probe.poll(120, Some(&deliveries[0])), Some(true));
    // a delivery for some other channel does not resolve the race
    let stranger = Delivery { channel: 999, message: Message::Heartbeat };
    assert_eq!(probe.poll(120, Some(&stranger)), None);
}

#[test]
fn a_late_subscriber_only_sees_later_messages() {
    let mut conn = MavlinkConnectionHandler::new();
    let early = conn.subscribe(MavMessageType::ParamValue).unwrap();
    conn.main_loop_step(Event::Registration);
    let first = param_value("A", "1", 0, 2);
    let deliveries = conn.on_message(&first, 0, &vec![]);
    assert_eq!(deliveries.len(), 1);
    // a second consumer registers only now
    let late = conn.subscribe(MavMessageType::ParamValue).unwrap();
    conn.main_loop_step(Event::Registration);
    let second = param_value("B", "2", 1, 2);
    let deliveries = conn.on_message(&second, 1, &vec![]);
    let got: Vec<(u64, &Message)> = deliveries.iter().map(|d| (d.channel, &d.message)).collect();
    assert_eq!(got, vec![(early, &second), (late, &second)]);
}

#[test]
fn mux_error_text_is_nonempty() {
    assert!(!MuxError::Closed.text().is_empty());
    assert!(!MuxError::TimedOut.text().is_empty());
}
