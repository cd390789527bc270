use arcade::audio::{audio_chunk_samples, audio_frame_message, encode_audio_payload, AudioChunker};
use arcade::game_config::{
    core_library_candidates, profile_for_game, resolve_game_name, FBNEO_CORE, MGBA_CORE, MUPEN64PLUS_CONFIG,
};
use arcade::signal_router::{RouterAction, SignalRouter};
use arcade::ids;
use arcade::libretro::{RetroPixelFormat, VideoFrame};
use arcade::room_state::RoomCore;
use arcade::session_payload::{answer_description_json, candidate_init_json, json_payload_message, PayloadError};
use arcade::video::h264_contains_idr;
use arcade::video_queue::{KeyframeGate, VideoPressureSnapshot, VideoQueuePushResult};
use arcade::video_sender::{encoder_bitrate_bps, frame_is_convertible, FrameSender};
use base64::Engine;

fn b64(text: &[u8]) -> String {
    base64::engine::general_purpose::STANDARD.encode(text)
}

#[test]
fn answer_payload_gets_answer_type() {
    let payload = b64(br#"{"sdp":"v=0"}"#);
    let json = answer_description_json(&payload).expect("ok").expect("some");
    assert_eq!(json, r#"{"sdp":"v=0","type":"answer"}"#);
}

#[test]
fn answer_payload_keeps_existing_type() {
    let payload = b64(br#"{ "type": "offer", "sdp": "v=0" }"#);
    let json = answer_description_json(&payload).expect("ok").expect("some");
    assert_eq!(json, r#"{"sdp":"v=0","type":"offer"}"#);
}

#[test]
fn answer_payload_of_bare_sdp_becomes_answer_object() {
    let payload = b64(b"v=0\r\no=- 1 2 IN IP4 127.0.0.1\r\n");
    let json = answer_description_json(&payload).expect("ok").expect("some");
    assert_eq!(json, "{\"sdp\":\"v=0\\r\\no=- 1 2 IN IP4 127.0.0.1\\r\\n\",\"type\":\"answer\"}");
}

#[test]
fn answer_payload_of_other_json_passes_unchanged() {
    let payload = b64(br#" "just text" "#);
    let json = answer_description_json(&payload).expect("ok").expect("some");
    assert_eq!(json, r#" "just text" "#);
}

#[test]
fn answer_payload_empty_is_nothing() {
    assert!(matches!(answer_description_json(""), Ok(None)));
    assert!(matches!(candidate_init_json(""), Ok(None)));
}

#[test]
fn session_payload_errors() {
    assert!(matches!(answer_description_json("***"), Err(PayloadError::NotBase64)));
    assert!(matches!(candidate_init_json("***"), Err(PayloadError::NotBase64)));
    let bad = b64(&[0xff, 0xfe, 0x00]);
    assert!(matches!(answer_description_json(&bad), Err(PayloadError::NotText { .. })));
    assert!(matches!(candidate_init_json(&bad), Err(PayloadError::NotText { .. })));
}

#[test]
fn candidate_payload_forms() {
    let as_string = b64(br#""candidate:1 1 udp 1 1.2.3.4 5 typ host""#);
    assert_eq!(
        candidate_init_json(&as_string).expect("ok").expect("some"),
        r#"{"candidate":"candidate:1 1 udp 1 1.2.3.4 5 typ host"}"#
    );
    let raw = b64(b"candidate:2 1 udp 1 1.2.3.4 5 typ host");
    assert_eq!(
        candidate_init_json(&raw).expect("ok").expect("some"),
        r#"{"candidate":"candidate:2 1 udp 1 1.2.3.4 5 typ host"}"#
    );
    let object = b64(br#"{"candidate": "c", "sdpMid": "0"}"#);
    assert_eq!(candidate_init_json(&object).expect("ok").expect("some"), r#"{"candidate": "c", "sdpMid": "0"}"#);
}

#[test]
fn json_payload_message_is_base64_of_json() {
    let m = json_payload_message(ids::OFFER, "browser-1".to_string(), r#"{"type":"offer"}"#);
    assert_eq!(m.id, "offer");
    assert_eq!(m.session_id.as_deref(), Some("browser-1"));
    assert_eq!(m.data, Some(b64(br#"{"type":"offer"}"#)));
}

#[test]
fn audio_chunk_sizes() {
    assert_eq!(audio_chunk_samples(48000), 1920);
    assert_eq!(audio_chunk_samples(44100), 1764);
    assert_eq!(audio_chunk_samples(44101), 1766);
    assert_eq!(audio_chunk_samples(1), 2);
    assert_eq!(audio_chunk_samples(0), 2);
}

#[test]
fn audio_chunker_emits_full_chunks_in_order() {
    let mut chunker = AudioChunker::new();
    let first: Vec<i16> = (0..1000).map(|i| i as i16).collect();
    assert!(chunker.push_frame(&first, 48000).is_empty());
    let second: Vec<i16> = (1000..2000).map(|i| i as i16).collect();
    let out = chunker.push_frame(&second, 48000);
    assert_eq!(out.len(), 1);
    let expected: Vec<i16> = (0..1920).map(|i| i as i16).collect();
    assert_eq!(out[0], encode_audio_payload(&expected));
    let third: Vec<i16> = (2000..5840).map(|i| i as i16).collect();
    let out = chunker.push_frame(&third, 48000);
    assert_eq!(out.len(), 2);
    let second_chunk: Vec<i16> = (1920..3840).map(|i| i as i16).collect();
    let third_chunk: Vec<i16> = (3840..5760).map(|i| i as i16).collect();
    assert_eq!(out[0], encode_audio_payload(&second_chunk));
    assert_eq!(out[1], encode_audio_payload(&third_chunk));
}

#[test]
fn audio_chunker_drops_odd_and_empty_frames() {
    let mut chunker = AudioChunker::new();
    assert!(chunker.push_frame(&[1, 2, 3], 1).is_empty());
    assert!(chunker.push_frame(&[], 1).is_empty());
    let out = chunker.push_frame(&[7, 8], 1);
    assert_eq!(out, vec![encode_audio_payload(&[7, 8])]);
}

#[test]
fn audio_frame_message_layout() {
    assert_eq!(audio_frame_message(48000, "AAA="), "pcm16|v=1|sr=48000|ch=2|AAA=");
}

#[test]
fn video_pressure_accumulates() {
    let mut p = VideoPressureSnapshot::new();
    p.record(VideoQueuePushResult { len_after: 2, was_full: false, dropped_existing: 0, dropped_incoming: false });
    p.record(VideoQueuePushResult { len_after: 3, was_full: true, dropped_existing: 1, dropped_incoming: false });
    p.record(VideoQueuePushResult { len_after: 1, was_full: true, dropped_existing: 0, dropped_incoming: true });
    assert_eq!(p, VideoPressureSnapshot { max_queue_len: 3, congested_events: 2, dropped_frames: 2 });
}

#[test]
fn keyframe_gate_waits_for_first_keyframe() {
    let mut gate = KeyframeGate::new();
    assert!(!gate.lets_through(false));
    assert!(gate.lets_through(true));
    assert!(gate.lets_through(false));
}

#[test]
fn core_library_candidates_append_extensions() {
    assert_eq!(
        core_library_candidates("cores/mgba_libretro"),
        vec![
            "cores/mgba_libretro.so".to_string(),
            "cores/mgba_libretro.armv7-neon-hf.so".to_string(),
            "cores/mgba_libretro.dylib".to_string(),
            "cores/mgba_libretro.dll".to_string(),
        ]
    );
}

#[test]
fn encoder_bitrate_is_clamped() {
    assert_eq!(encoder_bitrate_bps(960, 540), 4_000_000);
    assert_eq!(encoder_bitrate_bps(160, 144), 1_000_000);
    assert_eq!(encoder_bitrate_bps(400, 400), 1_280_000);
    assert_eq!(encoder_bitrate_bps(u32::MAX, u32::MAX), 4_000_000);
}

#[test]
fn frame_convertibility() {
    let ok = VideoFrame::new(RetroPixelFormat::Rgb565, 2, 2, 4, vec![0; 8]);
    assert!(frame_is_convertible(&ok));
    let short = VideoFrame::new(RetroPixelFormat::Rgb565, 2, 2, 4, vec![0; 7]);
    assert!(!frame_is_convertible(&short));
    let unknown = VideoFrame::new(RetroPixelFormat::Unknown(9), 2, 2, 4, vec![0; 8]);
    assert!(!frame_is_convertible(&unknown));
    let zero = VideoFrame::new(RetroPixelFormat::Xrgb8888, 0, 2, 8, vec![0; 16]);
    assert!(!frame_is_convertible(&zero));
}

#[test]
fn frame_sender_encodes_a_due_frame_as_keyframe() {
    let config = openh264::encoder::EncoderConfig::new();
    let mut sender = FrameSender::new(config).expect("encoder");
    assert!(sender.activate_if_idle());
    assert!(!sender.activate_if_idle());
    sender.apply_room_requests(false, false, 64, 64);
    let mut data = Vec::new();
    for i in 0..(64 * 64) {
        data.extend_from_slice(&[(i % 251) as u8, (i % 13) as u8, (i % 7) as u8, 0]);
    }
    let frame = VideoFrame::new(RetroPixelFormat::Xrgb8888, 64, 64, 256, data);
    assert!(sender.handle_frame(&frame, 0, 64, 64).is_none());
    let (payload, send) = sender.handle_frame(&frame, 20, 64, 64).expect("payload");
    assert!(!payload.is_empty());
    assert!(h264_contains_idr(&payload));
    assert_eq!(send.timestamp, 0);
    assert_eq!(send.duration_ms, 20);
}

#[test]
fn room_core_queues_pending_input_and_refresh_requests() {
    let mut room = RoomCore::new();
    assert!(!room.take_keyframe_refresh());
    room.request_keyframe_refresh();
    assert!(room.take_keyframe_refresh());
    assert!(!room.take_keyframe_refresh());
    room.queue_pending_input("a", vec![1]);
    room.queue_pending_input("a", vec![2]);
    let dispatch = room.buffer_or_send_input("a", vec![3]);
    assert_eq!(dispatch.send, vec![vec![1], vec![2], vec![3]]);
    assert_eq!(dispatch.player_count, Some(1));
}

fn addr(raw: &str) -> (String, String, String) {
    match arcade::config::listen_addr(raw) {
        arcade::config::ListenAddr::Default => ("default".to_string(), String::new(), String::new()),
        arcade::config::ListenAddr::WithHost { text, given } => ("host".to_string(), text, given),
        arcade::config::ListenAddr::AsGiven { text, given } => ("given".to_string(), text, given),
    }
}

#[test]
fn listen_addr_forms() {
    assert_eq!(addr("").0, "default");
    assert_eq!(addr("   ").0, "default");
    assert_eq!(addr(":8000"), ("host".to_string(), "0.0.0.0:8000".to_string(), ":8000".to_string()));
    assert_eq!(addr(" 9000 "), ("host".to_string(), "0.0.0.0:9000".to_string(), "9000".to_string()));
    assert_eq!(addr("127.0.0.1:80"), ("given".to_string(), "127.0.0.1:80".to_string(), "127.0.0.1:80".to_string()));
    assert_eq!(
        addr("https://example.com:8443/path"),
        ("given".to_string(), "example.com:8443".to_string(), "example.com:8443".to_string())
    );
    assert_eq!(addr("http://localhost/x"), ("host".to_string(), "0.0.0.0:localhost".to_string(), "localhost".to_string()));
    assert_eq!(addr(" http://:9000/ws "), ("host".to_string(), "0.0.0.0:9000".to_string(), ":9000".to_string()));
    assert_eq!(addr("https://http://h:1"), ("given".to_string(), "h:1".to_string(), "h:1".to_string()));
    assert_eq!(addr("https://"), ("default".to_string(), String::new(), String::new()));
}

#[test]
fn rgba_conversion_stops_at_the_row_past_the_data() {
    let frame = VideoFrame::new(
        RetroPixelFormat::Xrgb8888,
        2,
        2,
        4,
        vec![0x00, 0x00, 0xff, 0x00, 0x00, 0xff, 0x00, 0x00, 0x01, 0x02],
    );
    let mut out = vec![7u8; 3];
    assert!(arcade::video::fill_rgba_buffer_from_frame(&frame, &mut out).is_none());
    assert_eq!(out, vec![0xff, 0x00, 0x00, 0xff, 0x00, 0xff, 0x00, 0xff, 0, 0, 0, 0, 0, 0, 0, 0]);
}

#[test]
fn buffer_pool_keeps_buffers_by_capacity_and_room() {
    let mut pool: arcade::libretro::BufferPool<u8> = arcade::libretro::BufferPool::new(2, 16);
    pool.put_with_capacity(vec![1, 2, 3], 8);
    pool.put_with_capacity(vec![4], 32);
    pool.put_with_capacity(Vec::new(), 16);
    pool.put_with_capacity(Vec::new(), 4);
    assert!(pool.take().is_empty());
    assert!(pool.take().is_empty());
    let fresh = pool.take();
    assert!(fresh.is_empty());
}

#[test]
fn game_names_and_profiles_of_bare_file_names() {
    assert_eq!(resolve_game_name("Super_Mario_World.smc"), "Super Mario World");
    assert_eq!(resolve_game_name("kof97"), "kof97");
    assert_eq!(resolve_game_name(".hidden"), ".hidden");
    assert_eq!(resolve_game_name("a.b.nes"), "a.b");
    assert_eq!(resolve_game_name(".."), "cloud-game");
    assert_eq!(resolve_game_name(""), "cloud-game");
    assert_eq!(profile_for_game("kof97.ZIP").core, FBNEO_CORE);
    assert_eq!(profile_for_game("mario.n64").config.as_deref(), Some(MUPEN64PLUS_CONFIG));
    assert_eq!(profile_for_game("noext").core, MGBA_CORE);
    assert_eq!(profile_for_game(".zip").core, MGBA_CORE);
}

#[test]
fn game_names_and_profiles_of_full_paths() {
    assert_eq!(resolve_game_name("assets/games/Super_Mario_World.smc"), "Super Mario World");
    assert_eq!(resolve_game_name("/roms/kof97.zip"), "kof97");
    assert_eq!(resolve_game_name("roms/./a.b.nes"), "a.b");
    assert_eq!(resolve_game_name("a/b/."), "b");
    assert_eq!(resolve_game_name("roms//game.gba/"), "game");
    assert_eq!(resolve_game_name("roms/.hidden"), ".hidden");
    assert_eq!(resolve_game_name("a/.."), "cloud-game");
    assert_eq!(resolve_game_name("/"), "cloud-game");
    assert_eq!(profile_for_game("/roms/kof97.ZIP").core, FBNEO_CORE);
    assert_eq!(profile_for_game("assets/games/mario.n64").config.as_deref(), Some(MUPEN64PLUS_CONFIG));
    assert_eq!(profile_for_game("games.zip/kof97").core, MGBA_CORE);
    assert_eq!(profile_for_game("games/kof97.zip/..").core, MGBA_CORE);
    assert_eq!(profile_for_game("games/kof97.zip/.").core, FBNEO_CORE);
    assert_eq!(profile_for_game("games/.zip").core, MGBA_CORE);
}

#[test]
fn base64_input_round_trips_through_the_router() {
    let bytes: Vec<u8> = vec![0, 1, 2, 250, 255];
    let mut router = SignalRouter::new();
    let msg = arcade::message::SignalMessage::with_payload(ids::INPUT, Some("c".to_string()), Some(b64(&bytes)));
    match router.handle_message(msg, true) {
        RouterAction::Input { client_id, payload } => {
            assert_eq!(client_id, "c");
            assert_eq!(payload, bytes);
        }
        _ => panic!("expected input"),
    }
    let bad = arcade::message::SignalMessage::with_payload(ids::INPUT, Some("c".to_string()), Some("AQI".to_string()));
    assert!(matches!(router.handle_message(bad, true), RouterAction::Ignore));
}

#[test]
fn frame_due_check_follows_the_profile_interval() {
    let mut sender = FrameSender::new(openh264::encoder::EncoderConfig::new()).expect("encoder");
    assert!(sender.activate_if_idle());
    assert!(!sender.is_due(15, 64, 64, 64, 64));
    assert!(sender.is_due(16, 64, 64, 64, 64));
    let odd = VideoFrame::new(RetroPixelFormat::Xrgb8888, 3, 2, 12, vec![0; 24]);
    assert!(sender.handle_frame(&odd, 0, 16, 16).is_none());
}

#[test]
fn video_queue_keeps_order_when_full() {
    let mut q = arcade::video_queue::VideoSampleQueue::new(3);
    q.push(1, true);
    q.push(2, false);
    q.push(3, false);
    let r = q.push(4, false);
    assert!(r.was_full);
    assert_eq!(r.len_after, 3);
    assert_eq!((q.pop(), q.pop(), q.pop(), q.pop()), (Some(1), Some(3), Some(4), None));
}
