use arcade::ids;
use arcade::message::SignalMessage;
use arcade::protocol::OutboundEvent;
use arcade::server::{next_session_id, AppState, Delivery, Peer, PeerRole};
use serde_json::Value;

fn to_worker<'a>(ds: &'a [Delivery], worker: &str) -> Vec<&'a SignalMessage> {
    ds.iter()
        .filter_map(|d| match (&d.to, &d.event) {
            (Peer::Worker(w), OutboundEvent::Message(m)) if w == worker => Some(m),
            _ => None,
        })
        .collect()
}

fn to_client<'a>(ds: &'a [Delivery], client: &str) -> Vec<&'a SignalMessage> {
    ds.iter()
        .filter_map(|d| match (&d.to, &d.event) {
            (Peer::Client(c), OutboundEvent::Message(m)) if c == client => Some(m),
            _ => None,
        })
        .collect()
}

#[test]
fn unbound_browser_input_is_blocked() {
    let mut state = AppState::new(None, None, false);
    let client_id = "client-a";
    let worker_id = "worker-a";
    state.register_worker(worker_id.to_string());

    let ds = state.handle_browser_message(
        client_id,
        SignalMessage::with_payload(ids::INPUT, Some(worker_id.to_string()), Some("AQI=".to_string())),
        0,
        0,
    );

    assert!(to_worker(&ds, worker_id).is_empty());
}

#[test]
fn bound_browser_input_is_forwarded() {
    let mut state = AppState::new(None, None, false);
    let client_id = "client-a";
    let worker_id = "worker-a";
    state.register_worker(worker_id.to_string());
    state.registry.bind_client_to_worker(client_id, worker_id);

    let ds = state.handle_browser_message(
        client_id,
        SignalMessage::with_payload(ids::INPUT, Some(worker_id.to_string()), Some("AQI=".to_string())),
        0,
        0,
    );

    let forwarded = to_worker(&ds, worker_id);
    let msg = forwarded.first().expect("expected worker message");
    assert_eq!(msg.id, ids::INPUT);
    assert_eq!(msg.session_id.as_deref(), Some(client_id));
    assert_eq!(msg.data.as_deref(), Some("AQI="));
}

#[test]
fn browser_bind_to_unknown_worker_is_blocked() {
    let mut state = AppState::new(None, None, false);
    let client_id = "client-a";

    state.handle_browser_message(
        client_id,
        SignalMessage::with_payload(ids::INIT_WEBRTC, Some("worker-missing".to_string()), None),
        0,
        0,
    );

    assert_eq!(state.registry.worker_for_client(client_id), None);
}

#[test]
fn controller_host_requires_matching_worker_binding() {
    let mut state = AppState::new(None, None, false);
    let client_id = "client-a";
    let worker_id = "worker-a";
    state.register_browser(client_id.to_string());
    state.register_worker(worker_id.to_string());

    let ds = state.handle_browser_message(
        client_id,
        SignalMessage::with_payload(ids::CONTROLLER_HOST, Some(worker_id.to_string()), None),
        0,
        0,
    );
    assert!(to_client(&ds, client_id).is_empty());

    state.registry.bind_client_to_worker(client_id, worker_id);
    let ds = state.handle_browser_message(
        client_id,
        SignalMessage::with_payload(ids::CONTROLLER_HOST, Some(worker_id.to_string()), None),
        0,
        0,
    );

    let ready = to_client(&ds, client_id);
    let msg = ready.first().expect("expected controller ready");
    assert_eq!(msg.id, ids::CONTROLLER_READY);
    let payload = serde_json::from_str::<Value>(msg.data.as_deref().unwrap_or("{}"))
        .expect("controller ready payload should be json");
    assert_eq!(payload.get("workerID").and_then(Value::as_str), Some(worker_id));
    let code = payload.get("code").and_then(Value::as_str).unwrap_or_default();
    assert_eq!(code.len(), 6);
}

#[test]
fn terminate_with_mismatched_worker_target_is_blocked() {
    let mut state = AppState::new(None, None, false);
    let client_id = "client-a";
    let worker_id = "worker-a";
    let other_worker_id = "worker-b";
    state.register_worker(worker_id.to_string());
    state.register_worker(other_worker_id.to_string());
    state.registry.bind_client_to_worker(client_id, worker_id);

    let ds = state.handle_browser_message(
        client_id,
        SignalMessage::with_payload(ids::TERMINATE_SESSION, Some(other_worker_id.to_string()), None),
        0,
        0,
    );

    assert!(to_worker(&ds, worker_id).is_empty());
    assert!(to_worker(&ds, other_worker_id).is_empty());
    assert_eq!(state.registry.worker_for_client(client_id), Some(worker_id.to_string()));
}

#[test]
fn controller_ready_payload_is_exact() {
    let mut state = AppState::new(None, None, false);
    state.register_browser("host".to_string());
    state.register_worker("w".to_string());
    state.registry.bind_client_to_worker("host", "w");
    let ds = state.handle_browser_message(
        "host",
        SignalMessage::with_payload(ids::CONTROLLER_HOST, Some("w".to_string()), None),
        0,
        0,
    );
    let ready = to_client(&ds, "host");
    assert_eq!(ready[0].data.as_deref(), Some(r#"{"code":"000001","expiresInSeconds":900,"workerID":"w"}"#));
}

#[test]
fn controller_join_routes_input_and_audio() {
    let mut state = AppState::new(None, None, false);
    for c in ["host", "phone"] {
        state.register_browser(c.to_string());
    }
    state.register_worker("w".to_string());
    state.registry.bind_client_to_worker("host", "w");
    state.handle_browser_message("host", SignalMessage::with_payload(ids::CONTROLLER_HOST, Some("w".to_string()), None), 0, 0);

    let ds = state.handle_browser_message(
        "phone",
        SignalMessage::with_payload(ids::CONTROLLER_JOIN, None, Some(" 000001 ".to_string())),
        10,
        0,
    );
    assert_eq!(to_client(&ds, "phone")[0].id, ids::CONTROLLER_JOINED);
    assert_eq!(to_client(&ds, "phone")[0].session_id.as_deref(), Some("host"));
    assert_eq!(to_client(&ds, "host")[0].session_id.as_deref(), Some("phone"));
    assert_eq!(to_worker(&ds, "w")[0].id, ids::JOIN_ROOM);

    let ds = state.handle_browser_message(
        "phone",
        SignalMessage::with_payload(ids::CONTROLLER_INPUT, Some("host".to_string()), Some("AQI=".to_string())),
        10,
        0,
    );
    assert_eq!(to_worker(&ds, "w")[0].id, ids::INPUT);
    assert_eq!(to_worker(&ds, "w")[0].session_id.as_deref(), Some("phone"));

    let ds = state.handle_browser_message(
        "phone",
        SignalMessage::with_payload(ids::CONTROLLER_AUDIO, Some("host".to_string()), Some("mute".to_string())),
        10,
        0,
    );
    assert_eq!(to_client(&ds, "host")[0].id, ids::CONTROLLER_AUDIO);
    assert_eq!(to_client(&ds, "host")[0].data.as_deref(), Some("mute"));

    let ds = state.handle_browser_message(
        "phone",
        SignalMessage::with_payload(ids::CONTROLLER_JOIN, None, Some("999999".to_string())),
        10,
        0,
    );
    assert_eq!(to_client(&ds, "phone")[0].id, ids::CONTROLLER_REJECTED);
    assert_eq!(to_client(&ds, "phone")[0].data.as_deref(), Some("invalid-code"));
}

#[test]
fn expired_join_code_is_rejected() {
    let mut state = AppState::new(None, None, false);
    state.register_browser("host".to_string());
    state.register_browser("phone".to_string());
    state.register_worker("w".to_string());
    state.registry.bind_client_to_worker("host", "w");
    state.handle_browser_message("host", SignalMessage::with_payload(ids::CONTROLLER_HOST, Some("w".to_string()), None), 0, 0);
    let ds = state.handle_browser_message(
        "phone",
        SignalMessage::with_payload(ids::CONTROLLER_JOIN, None, Some("000001".to_string())),
        900000,
        0,
    );
    assert_eq!(to_client(&ds, "phone")[0].data.as_deref(), Some("invalid-code"));
}

#[test]
fn worker_departure_closes_bound_browsers_and_relists_games() {
    let mut state = AppState::new(None, None, false);
    state.register_browser("a".to_string());
    state.register_browser("b".to_string());
    state.register_worker("w".to_string());
    state.registry.bind_client_to_worker("a", "w");
    let ds = state.handle_worker_message("w", SignalMessage::with_payload(ids::GAME_INFO, None, Some("Tetris".to_string())));
    assert_eq!(to_client(&ds, "a")[0].data.as_deref(), Some(r#"{"w":"Tetris"}"#));
    assert_eq!(to_client(&ds, "b").len(), 1);

    let ds = state.cleanup_worker("w");
    assert!(matches!((&ds[0].to, &ds[0].event), (Peer::Client(c), OutboundEvent::Close) if c == "a"));
    assert_eq!(ds.len(), 2);
    assert_eq!(to_client(&ds, "b")[0].data.as_deref(), Some("{}"));
    assert!(!state.registry.has_client("a"));
    assert_eq!(state.registry.worker_for_client("a"), None);
}

#[test]
fn browser_departure_ends_session_and_notifies_controllers() {
    let mut state = AppState::new(None, None, false);
    for c in ["host", "phone"] {
        state.register_browser(c.to_string());
    }
    state.register_worker("w".to_string());
    state.registry.bind_client_to_worker("host", "w");
    state.handle_browser_message("host", SignalMessage::with_payload(ids::CONTROLLER_HOST, Some("w".to_string()), None), 0, 0);
    state.handle_browser_message("phone", SignalMessage::with_payload(ids::CONTROLLER_JOIN, None, Some("000001".to_string())), 0, 0);

    let ds = state.cleanup_browser("host");
    let to_w = to_worker(&ds, "w");
    assert_eq!(to_w.len(), 2);
    assert_eq!(to_w[0].session_id.as_deref(), Some("host"));
    assert_eq!(to_w[1].session_id.as_deref(), Some("phone"));
    assert_eq!(to_client(&ds, "phone")[0].id, ids::CONTROLLER_LEFT);
}

#[test]
fn player_counts_are_broadcast_and_sent_on_connect() {
    let mut state = AppState::new(None, None, true);
    state.register_browser("a".to_string());
    state.register_worker("w".to_string());
    let ds = state.handle_worker_message("w", SignalMessage::with_payload(ids::UPDATE_PLAYER_COUNT, None, Some("2".to_string())));
    assert_eq!(to_client(&ds, "a")[0].data.as_deref(), Some("2"));
    assert_eq!(to_client(&ds, "a")[0].session_id.as_deref(), Some("w"));
    let initial = state.browser_initial_state();
    assert_eq!(initial.len(), 2);
    assert_eq!(initial[0].id, ids::GAMES);
    assert_eq!(initial[1].id, ids::UPDATE_PLAYER_COUNT);
}

#[test]
fn games_are_deduplicated_by_earliest_worker() {
    let mut state = AppState::new(None, None, true);
    state.register_browser("a".to_string());
    state.register_worker("w2".to_string());
    state.register_worker("w1".to_string());
    state.handle_worker_message("w1", SignalMessage::with_payload(ids::GAME_INFO, None, Some("Street  Fighter".to_string())));
    let ds = state.handle_worker_message("w2", SignalMessage::with_payload(ids::GAME_INFO, None, Some("street fighter".to_string())));
    assert_eq!(to_client(&ds, "a")[0].data.as_deref(), Some(r#"{"w2":"street fighter"}"#));
    let ds = state.handle_worker_message("w2", SignalMessage::with_payload(ids::GAME_INFO, None, Some("   ".to_string())));
    assert!(ds.is_empty());
}

#[test]
fn access_controls() {
    let open = AppState::new(None, None, false);
    assert!(open.is_token_valid(None));
    assert!(open.is_origin_allowed(None));
    let locked = AppState::new(Some("s3cret".to_string()), Some(vec!["https://a.example".to_string()]), false);
    assert!(locked.is_token_valid(Some("s3cret")));
    assert!(!locked.is_token_valid(Some("nope")));
    assert!(!locked.is_token_valid(None));
    assert!(locked.is_origin_allowed(Some("  https://a.example ")));
    assert!(!locked.is_origin_allowed(Some("https://b.example")));
    assert!(!locked.is_origin_allowed(Some("   ")));
    assert!(!locked.is_origin_allowed(None));
}

#[test]
fn session_ids_and_labels() {
    assert_eq!(next_session_id(255, 10), "ff-a");
    assert_eq!(next_session_id(0, 0), "0-0");
    assert_eq!(PeerRole::Browser.label(), "browser client");
    assert_eq!(PeerRole::Worker.label(), "worker client");
}
