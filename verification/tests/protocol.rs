use arcade::ids;
use arcade::message::SignalMessage;
use arcade::protocol::{
    parse_browser_command, parse_browser_message_text, parse_worker_command, parse_worker_message_text,
    update_player_count_message, BrowserCommand,
    ProtocolError, WorkerCommand, WorkerEventKind,
};
use base64::engine::general_purpose::STANDARD as BASE64_STANDARD;
use base64::Engine;
use serde_json::Value;

#[test]
fn parses_browser_forward_with_explicit_worker_target() {
    let req = SignalMessage {
        id: ids::JOIN_ROOM.to_string(),
        data: Some("room-1".to_string()),
        session_id: Some("worker-123".to_string()),
    };

    let parsed = parse_browser_command(req).expect("joinRoom should parse");
    match parsed {
        BrowserCommand::ForwardToWorker { worker_id, event: WorkerEventKind::JoinRoom, data, bind_client } => {
            assert_eq!(worker_id, "worker-123");
            assert_eq!(data.as_deref(), Some("room-1"));
            assert!(bind_client);
        }
        other => panic!("unexpected parse result: {:?}", other),
    }
}

#[test]
fn rejects_missing_browser_target_for_forward_messages() {
    let req = SignalMessage { id: ids::INIT_WEBRTC.to_string(), data: None, session_id: None };
    let parsed = parse_browser_command(req);
    assert!(matches!(parsed, Err(ProtocolError::MissingTarget { .. })));
}

#[test]
fn rejects_invalid_worker_player_count_payload() {
    let req = SignalMessage {
        id: ids::UPDATE_PLAYER_COUNT.to_string(),
        data: Some("not-a-number".to_string()),
        session_id: None,
    };
    let parsed = parse_worker_command(req);
    assert!(matches!(parsed, Err(ProtocolError::InvalidPlayerCount { .. })));
}

#[test]
fn parses_controller_join_request() {
    let req = SignalMessage { id: ids::CONTROLLER_JOIN.to_string(), data: Some("ABC123".to_string()), session_id: None };

    let parsed = parse_browser_command(req).expect("controllerJoin should parse");
    match parsed {
        BrowserCommand::ControllerJoin { code } => assert_eq!(code, "ABC123"),
        other => panic!("unexpected parse result: {:?}", other),
    }
}

#[test]
fn parses_controller_input() {
    let req = SignalMessage {
        id: ids::CONTROLLER_INPUT.to_string(),
        data: Some("payload".to_string()),
        session_id: Some("host-1".to_string()),
    };
    let parsed = parse_browser_command(req).expect("controllerInput should parse");
    match parsed {
        BrowserCommand::ControllerInput { host_client_id, data } => {
            assert_eq!(host_client_id, "host-1");
            assert_eq!(data, "payload");
        }
        other => panic!("unexpected parse result: {:?}", other),
    }
}

#[test]
fn parse_message_text_accepts_legacy_session_id_field() {
    let parsed = parse_browser_message_text(r#"{"id":"joinRoom","session_id":" worker-123 ","data":" room-1 "}"#)
        .expect("browser message should parse");

    assert_eq!(parsed.id, ids::JOIN_ROOM);
    assert_eq!(parsed.session_id.as_deref(), Some("worker-123"));
    assert_eq!(parsed.data.as_deref(), Some("room-1"));
}

#[test]
fn parse_message_text_canonicalizes_legacy_answer_payload() {
    let raw = BASE64_STANDARD.encode("v=0\r\n");
    let parsed = parse_browser_message_text(&format!(r#"{{"id":"answer","sessionID":"worker-1","data":"{raw}"}}"#))
        .expect("answer should parse");

    let decoded = BASE64_STANDARD.decode(parsed.data.expect("payload")).expect("decode canonical payload");
    let json: Value = serde_json::from_slice(&decoded).expect("json payload");
    assert_eq!(json["type"], "answer");
    assert_eq!(json["sdp"], "v=0\r\n");
}

#[test]
fn parse_message_text_canonicalizes_string_candidate_payload() {
    let raw = BASE64_STANDARD.encode("candidate:1 1 UDP 1 127.0.0.1 1234 typ host");
    let parsed =
        parse_worker_message_text(&format!(r#"{{"id":"candidate","sessionID":"client-1","data":"{raw}"}}"#))
            .expect("candidate should parse");

    let decoded = BASE64_STANDARD.decode(parsed.data.expect("payload")).expect("decode canonical payload");
    let json: Value = serde_json::from_slice(&decoded).expect("json payload");
    assert_eq!(json["candidate"], "candidate:1 1 UDP 1 127.0.0.1 1234 typ host");
}

#[test]
fn parse_message_text_prefers_session_id_over_legacy_field() {
    let parsed = parse_browser_message_text(r#"{"id":"input","sessionID":"new","session_id":"old"}"#).unwrap();
    assert_eq!(parsed.session_id.as_deref(), Some("new"));
    assert_eq!(parsed.data, None);
}

#[test]
fn parse_message_text_rejects_bad_json_and_envelopes() {
    assert!(matches!(parse_browser_message_text("{not json"), Err(ProtocolError::InvalidJson { .. })));
    assert!(matches!(parse_browser_message_text("[1,2]"), Err(ProtocolError::InvalidEnvelope)));
    assert!(matches!(parse_browser_message_text(r#"{"id":"   "}"#), Err(ProtocolError::InvalidEnvelope)));
    assert!(matches!(parse_browser_message_text(r#"{"id":5}"#), Err(ProtocolError::InvalidEnvelope)));
}

#[test]
fn parse_message_text_adds_type_to_offer_objects_only_when_missing() {
    let obj = BASE64_STANDARD.encode(r#"{"sdp":"x"}"#);
    let parsed = parse_worker_message_text(&format!(r#"{{"id":"offer","sessionID":"c","data":"{obj}"}}"#)).unwrap();
    let decoded = BASE64_STANDARD.decode(parsed.data.unwrap()).unwrap();
    assert_eq!(String::from_utf8(decoded).unwrap(), r#"{"sdp":"x","type":"offer"}"#);

    let typed = BASE64_STANDARD.encode(r#"{"type":"pranswer","sdp":"y"}"#);
    let parsed = parse_browser_message_text(&format!(r#"{{"id":"answer","data":"{typed}"}}"#)).unwrap();
    let decoded = BASE64_STANDARD.decode(parsed.data.unwrap()).unwrap();
    assert_eq!(String::from_utf8(decoded).unwrap(), r#"{"sdp":"y","type":"pranswer"}"#);
}

#[test]
fn parse_message_text_rejects_non_description_json() {
    let num = BASE64_STANDARD.encode("42");
    let parsed = parse_browser_message_text(&format!(r#"{{"id":"answer","data":"{num}"}}"#));
    match parsed {
        Err(ProtocolError::InvalidPayload { id, reason }) => {
            assert_eq!(id, "answer");
            assert_eq!(reason, "expected session description object or string, got 42");
        }
        other => panic!("unexpected: {:?}", other),
    }
}

#[test]
fn parse_message_text_keeps_other_payloads() {
    let parsed = parse_browser_message_text(r#"{"id":"input","sessionID":"w","data":"AQI="}"#).unwrap();
    assert_eq!(parsed.data.as_deref(), Some("AQI="));
}

#[test]
fn worker_commands_parse() {
    let info = parse_worker_command(SignalMessage::with_payload(ids::GAME_INFO, None, Some(" Street Fighter ".to_string())))
        .unwrap();
    assert!(matches!(info, WorkerCommand::GameInfo { game_name: Some(ref g) } if g == " Street Fighter "));
    let count = parse_worker_command(SignalMessage::with_payload(ids::UPDATE_PLAYER_COUNT, None, Some("+3".to_string())))
        .unwrap();
    assert!(matches!(count, WorkerCommand::UpdatePlayerCount { count: 3 }));
    let unknown = parse_worker_command(SignalMessage::with_payload("bogus", None, None));
    assert!(matches!(unknown, Err(ProtocolError::UnknownWorkerMessage { .. })));
}

#[test]
fn browser_unknown_message_is_rejected() {
    let parsed = parse_browser_command(SignalMessage::with_payload("bogus", None, None));
    assert!(matches!(parsed, Err(ProtocolError::UnknownBrowserMessage { .. })));
}

#[test]
fn protocol_error_messages() {
    assert_eq!(ProtocolError::InvalidEnvelope.message(), "invalid signaling message envelope");
    assert_eq!(
        ProtocolError::MissingTarget { id: "joinRoom".to_string() }.message(),
        "missing target for message 'joinRoom'"
    );
    assert_eq!(
        ProtocolError::InvalidPayload { id: "answer".to_string(), reason: "bad".to_string() }.message(),
        "invalid payload for message 'answer': bad"
    );
    assert_eq!(
        ProtocolError::InvalidPlayerCount { raw: Some("x".to_string()) }.message(),
        "invalid player count payload 'Some(\"x\")'"
    );
    assert_eq!(ProtocolError::InvalidPlayerCount { raw: None }.message(), "invalid player count payload 'None'");
    assert_eq!(ProtocolError::InvalidJson { reason: "eof".to_string() }.message(), "invalid json payload: eof");
}

#[test]
fn player_count_message_reads_back_as_its_count() {
    for n in [0usize, 7, 42, 1000, usize::MAX] {
        let m = update_player_count_message("worker-1".to_string(), n);
        assert_eq!(m.id, ids::UPDATE_PLAYER_COUNT);
        assert_eq!(m.session_id.as_deref(), Some("worker-1"));
        assert_eq!(m.data.as_deref(), Some(n.to_string().as_str()));
        match parse_worker_command(m) {
            Ok(WorkerCommand::UpdatePlayerCount { count }) => assert_eq!(count, n),
            _ => panic!("expected a player count"),
        }
    }
}

fn envelope(id: &str, data: &str) -> String {
    let mut map = serde_json::Map::new();
    map.insert("id".to_string(), Value::String(id.to_string()));
    map.insert("data".to_string(), Value::String(data.to_string()));
    Value::Object(map).to_string()
}

#[test]
fn canonical_payloads_read_again_unchanged() {
    let cases = [
        ("offer", "v=0\r\no=- 1 1 IN IP4 0.0.0.0".to_string()),
        ("answer", BASE64_STANDARD.encode(br#"{"sdp":"v=0"}"#)),
        ("answer", BASE64_STANDARD.encode(br#""v=0 quoted""#)),
        ("candidate", "candidate:1 1 UDP 1 1.2.3.4 5 typ host".to_string()),
        ("candidate", BASE64_STANDARD.encode(br#"{"candidate":"candidate:2","sdpMid":"0"}"#)),
        ("input", "AQI=".to_string()),
    ];
    for (id, data) in cases {
        let first = parse_browser_message_text(&envelope(id, &data)).expect("first read");
        let canonical = first.data.clone().expect("payload");
        let second = parse_browser_message_text(&envelope(id, &canonical)).expect("second read");
        assert_eq!(second.id, id);
        assert_eq!(second.data.as_deref(), Some(canonical.as_str()));
    }
}
