use flapit_broker::gateway::{gateway_decide, GatewayDecision};
use flapit_broker::params::parse_query_string;
use flapit_broker::registry::{remove_device, PeerId, Registry, Session};
use flapit_broker::session::{session_step, Message, SessionAction, SessionEvent, SessionState};

fn peer(n: u16) -> PeerId {
    PeerId { addr: n as u128, port: n }
}

fn session(n: u16, handle: u32) -> Session<u32> {
    Session { peer_identity: peer(n), write_handle: handle }
}

#[test]
fn upsert_last_writer_wins_and_stale_remove_is_noop() {
    let mut reg: Registry<u32> = Registry::new();
    reg.upsert("S1".to_string(), session(1, 10));
    reg.upsert("S1".to_string(), session(2, 20));
    let found = reg.lookup("S1").expect("serial must be registered");
    assert_eq!(found.peer_identity, peer(2));
    assert_eq!(found.write_handle, 20);
    let removed = reg.conditional_remove("S1", peer(1));
    assert!(!removed);
    let still = reg.lookup("S1").expect("newer session must survive a stale removal");
    assert_eq!(still.peer_identity, peer(2));
    assert_eq!(still.write_handle, 20);
}

#[test]
fn remove_with_current_identity_unregisters() {
    let mut reg: Registry<u32> = Registry::new();
    reg.upsert("S1".to_string(), session(3, 30));
    let removed = reg.conditional_remove("S1", peer(3));
    assert!(removed);
    assert!(reg.lookup("S1").is_none());
}

#[test]
fn conditional_remove_of_absent_serial_is_noop() {
    let mut reg: Registry<u32> = Registry::new();
    reg.upsert("S1".to_string(), session(1, 10));
    assert!(!reg.conditional_remove("S2", peer(1)));
    assert!(reg.lookup("S1").is_some());
}

#[test]
fn registry_keeps_distinct_serials_apart() {
    let mut reg: Registry<u32> = Registry::new();
    reg.upsert("S1".to_string(), session(1, 10));
    reg.upsert("S2".to_string(), session(2, 20));
    assert_eq!(reg.lookup("S1").unwrap().write_handle, 10);
    assert_eq!(reg.lookup("S2").unwrap().write_handle, 20);
    assert!(reg.conditional_remove("S1", peer(1)));
    assert!(reg.lookup("S1").is_none());
    assert_eq!(reg.lookup("S2").unwrap().write_handle, 20);
}

#[test]
fn handshake_acknowledges_and_registers() {
    let (next, actions) = session_step(
        SessionState::Unauthenticated,
        SessionEvent::Received(Message::AuthAssociate { serial: "S1".to_string() }),
    );
    assert_eq!(next, SessionState::Idle { serial: "S1".to_string() });
    assert_eq!(
        actions,
        vec![
            SessionAction::SendOkAck,
            SessionAction::Register { serial: "S1".to_string() },
        ]
    );
}

#[test]
fn never_authenticated_session_asks_for_nothing() {
    let events = vec![
        SessionEvent::Received(Message::Echo),
        SessionEvent::Received(Message::Unhandled),
        SessionEvent::Received(Message::SetCounterValue { payload: "x".to_string() }),
        SessionEvent::ReadFailed,
    ];
    let mut state = SessionState::Unauthenticated;
    for event in events {
        let (next, actions) = session_step(state, event);
        assert!(actions.is_empty());
        assert!(!matches!(next, SessionState::Idle { .. }));
        assert!(!matches!(next, SessionState::AwaitingEcho { .. }));
        state = next;
    }
    assert_eq!(state, SessionState::Terminated);
}

#[test]
fn unauthenticated_read_failure_terminates_without_cleanup() {
    let (next, actions) = session_step(SessionState::Unauthenticated, SessionEvent::ReadFailed);
    assert_eq!(next, SessionState::Terminated);
    assert!(actions.is_empty());
}

#[test]
fn first_silence_sends_exactly_one_echo() {
    let (next, actions) = session_step(
        SessionState::Idle { serial: "S1".to_string() },
        SessionEvent::TimedOut,
    );
    assert_eq!(next, SessionState::AwaitingEcho { serial: "S1".to_string() });
    assert_eq!(actions, vec![SessionAction::SendEcho]);
}

#[test]
fn second_silence_terminates_and_deregisters() {
    let (awaiting, _) = session_step(
        SessionState::Idle { serial: "S1".to_string() },
        SessionEvent::TimedOut,
    );
    let (next, actions) = session_step(awaiting, SessionEvent::TimedOut);
    assert_eq!(next, SessionState::Terminated);
    assert_eq!(
        actions,
        vec![SessionAction::Deregister { serial: "S1".to_string() }]
    );
}

#[test]
fn echo_reply_before_second_silence_restores_idle() {
    let (awaiting, _) = session_step(
        SessionState::Idle { serial: "S1".to_string() },
        SessionEvent::TimedOut,
    );
    let (next, actions) = session_step(awaiting, SessionEvent::Received(Message::Echo));
    assert_eq!(next, SessionState::Idle { serial: "S1".to_string() });
    assert!(actions.is_empty());
}

#[test]
fn non_echo_traffic_does_not_clear_awaiting_echo() {
    let awaiting = SessionState::AwaitingEcho { serial: "S1".to_string() };
    let (next, actions) = session_step(
        awaiting.clone(),
        SessionEvent::Received(Message::SetCounterValue { payload: "7".to_string() }),
    );
    assert_eq!(next, awaiting);
    assert!(actions.is_empty());
}

#[test]
fn idle_read_failure_deregisters() {
    let (next, actions) = session_step(
        SessionState::Idle { serial: "S1".to_string() },
        SessionEvent::ReadFailed,
    );
    assert_eq!(next, SessionState::Terminated);
    assert_eq!(
        actions,
        vec![SessionAction::Deregister { serial: "S1".to_string() }]
    );
}

#[test]
fn parses_ampersand_delimited_pairs() {
    let p = parse_query_string("device=ABC123&message=42");
    assert_eq!(p.get("device").unwrap().as_str(), "ABC123");
    assert_eq!(p.get("message").unwrap().as_str(), "42");
    assert!(p.get("other").is_none());
}

#[test]
fn later_occurrence_of_a_key_overrides() {
    let p = parse_query_string("k=1&k=2");
    assert_eq!(p.get("k").unwrap().as_str(), "2");
}

#[test]
fn segment_without_equals_records_nothing() {
    let p = parse_query_string("device&message=1");
    assert!(!p.contains_key("device"));
    assert!(p.contains_key("message"));
}

#[test]
fn values_are_taken_literally() {
    let p = parse_query_string("m=hello%20world&k==v");
    assert_eq!(p.get("m").unwrap().as_str(), "hello%20world");
    assert_eq!(p.get("k").unwrap().as_str(), "=v");
}

#[test]
fn empty_body_has_no_keys() {
    let p = parse_query_string("");
    assert!(!p.contains_key(""));
    assert!(!p.contains_key("device"));
}

#[test]
fn unknown_device_is_answered_not_found() {
    let reg: Registry<u32> = Registry::new();
    let d = gateway_decide("/", "device=ABC123&message=42", &reg);
    assert_eq!(d.status_code(), 400);
    match d {
        GatewayDecision::BadRequest { body } => assert_eq!(body, "Device ABC123 not found."),
        other => panic!("expected BadRequest, got {:?}", other),
    }
}

#[test]
fn missing_message_key_is_answered_bad_request() {
    let reg: Registry<u32> = Registry::new();
    let d = gateway_decide("/", "device=ABC123", &reg);
    assert_eq!(d.status_code(), 400);
    match d {
        GatewayDecision::BadRequest { body } => {
            assert_eq!(body, "Missing \"device\" or \"message\" parameter.")
        }
        other => panic!("expected BadRequest, got {:?}", other),
    }
}

#[test]
fn off_path_request_is_answered_not_found_regardless_of_body() {
    let mut reg: Registry<u32> = Registry::new();
    reg.upsert("A".to_string(), session(1, 10));
    for body in ["", "device=A&message=1", "junk"] {
        let d = gateway_decide("/status", body, &reg);
        assert_eq!(d.status_code(), 404);
        assert_eq!(d, GatewayDecision::NotFound);
    }
}

#[test]
fn registered_device_is_accepted_before_any_delivery() {
    let mut reg: Registry<u32> = Registry::new();
    reg.upsert("A".to_string(), session(7, 70));
    let d = gateway_decide("/", "device=A&message=hello%20world", &reg);
    assert_eq!(d.status_code(), 202);
    match d {
        GatewayDecision::Accepted { serial, peer: p, payload } => {
            assert_eq!(serial, "A");
            assert_eq!(p, peer(7));
            // the payload is handed over literally, with no percent-decoding
            assert_eq!(payload, "hello%20world");
        }
        other => panic!("expected Accepted, got {:?}", other),
    }
}

#[test]
fn send_failure_unregisters_and_later_requests_fail() {
    let mut reg: Registry<u32> = Registry::new();
    reg.upsert("A".to_string(), session(7, 70));
    let d = gateway_decide("/", "device=A&message=1", &reg);
    assert_eq!(d.status_code(), 202);
    // the delivery failed: the gateway removes the device, presenting the
    // session's own identity
    let removed = remove_device(&mut reg, "A", peer(7));
    assert!(removed);
    let again = gateway_decide("/", "device=A&message=1", &reg);
    assert_eq!(again.status_code(), 400);
    match again {
        GatewayDecision::BadRequest { body } => assert_eq!(body, "Device A not found."),
        other => panic!("expected BadRequest, got {:?}", other),
    }
}
