use arcade::ids;
use arcade::libretro::{RetroPixelFormat, VideoFrame};
use arcade::message::SignalMessage;
use arcade::room_state::{PendingInputs, PlayerSlots, RoomCore, MAX_PENDING_INPUT_BATCHES, MAX_PLAYERS};
use arcade::signal_router::{
    signal_client_id, signal_payload, PendingSessionSignals, RouterAction, SignalRouter, MAX_PENDING_MESSAGES_PER_SESSION,
};
use arcade::url_utils::{append_query_param, redact_url_query_param_for_log, url_encode_query_component};
use arcade::video::{fill_rgba_buffer_from_frame, h264_contains_idr, H264_SDP_FMTP_LINE};
use arcade::video_queue::VideoSampleQueue;

#[test]
fn rgba_from_xrgb8888_converts_bgrx_to_rgba() {
    let frame = VideoFrame::new(
        RetroPixelFormat::Xrgb8888,
        2,
        1,
        8,
        vec![
            0x00, 0x00, 0xff, 0x00, // red pixel
            0x00, 0xff, 0x00, 0x00, // green pixel
        ],
    );

    let mut out = Vec::new();
    fill_rgba_buffer_from_frame(&frame, &mut out).expect("rgba");
    assert_eq!(out.as_slice(), &[0xff, 0x00, 0x00, 0xff, 0x00, 0xff, 0x00, 0xff]);
}

#[test]
fn rgba_from_rgb565_converts_to_rgba() {
    let mut data = Vec::new();
    for raw in [0xf800u16, 0x07e0u16, 0x001fu16] {
        data.extend_from_slice(&raw.to_le_bytes());
    }

    let frame = VideoFrame::new(RetroPixelFormat::Rgb565, 3, 1, 6, data);

    let mut out = Vec::new();
    fill_rgba_buffer_from_frame(&frame, &mut out).expect("rgba");
    assert_eq!(
        out.as_slice(),
        &[
            0xff, 0x00, 0x00, 0xff, // red
            0x00, 0xff, 0x00, 0xff, // green
            0x00, 0x00, 0xff, 0xff, // blue
        ]
    );
}

#[test]
fn rgba_from_rgb1555_converts_to_rgba() {
    let mut data = Vec::new();
    for raw in [0x7c00u16, 0x03e0u16, 0x001fu16] {
        data.extend_from_slice(&raw.to_le_bytes());
    }

    let frame = VideoFrame::new(RetroPixelFormat::Rgb1555, 3, 1, 6, data);

    let mut out = Vec::new();
    fill_rgba_buffer_from_frame(&frame, &mut out).expect("rgba");
    assert_eq!(
        out.as_slice(),
        &[
            0xff, 0x00, 0x00, 0xff, // red
            0x00, 0xff, 0x00, 0xff, // green
            0x00, 0x00, 0xff, 0xff, // blue
        ]
    );
}

#[test]
fn rgba_from_frame_rejects_short_stride() {
    let frame = VideoFrame::new(RetroPixelFormat::Xrgb8888, 1, 2, 4, vec![0, 0, 0, 0]);

    let mut out = Vec::new();
    assert!(fill_rgba_buffer_from_frame(&frame, &mut out).is_none());
}

#[test]
fn rgba_rejects_unknown_format_and_zero_pitch() {
    let frame = VideoFrame::new(RetroPixelFormat::Unknown(7), 1, 1, 4, vec![0, 0, 0, 0]);
    let mut out = vec![9u8];
    assert!(fill_rgba_buffer_from_frame(&frame, &mut out).is_none());
    assert_eq!(out.len(), 4);
    let frame = VideoFrame::new(RetroPixelFormat::Xrgb8888, 1, 1, 0, vec![0, 0, 0, 0]);
    let mut out = vec![9u8];
    assert!(fill_rgba_buffer_from_frame(&frame, &mut out).is_none());
    assert_eq!(out, vec![9u8]);
}

#[test]
fn h264_idr_detection_annexb_and_avcc() {
    let annexb_idr = [0, 0, 0, 1, 0x65, 0x00];
    assert!(h264_contains_idr(&annexb_idr));

    let annexb_non_idr = [0, 0, 0, 1, 0x61, 0x00];
    assert!(!h264_contains_idr(&annexb_non_idr));

    let annexb_three_byte = [0, 0, 1, 0x65, 0x00];
    assert!(h264_contains_idr(&annexb_three_byte));

    let avcc_idr = [0, 0, 0, 2, 0x65, 0x00];
    assert!(h264_contains_idr(&avcc_idr));

    let avcc_non_idr = [0, 0, 0, 2, 0x61, 0x00];
    assert!(!h264_contains_idr(&avcc_non_idr));
}

#[test]
fn h264_idr_detection_edge_cases() {
    assert!(!h264_contains_idr(&[]));
    assert!(!h264_contains_idr(&[0, 0, 1]));
    assert!(h264_contains_idr(&[0, 0, 1, 0x41, 0, 0, 1, 0x25]));
    assert!(!h264_contains_idr(&[0, 0, 0, 9, 0x65]));
    assert!(h264_contains_idr(&[0, 0, 0, 0, 0, 0, 0, 1, 0x65]));
}

fn queued_ids(queue: &mut VideoSampleQueue<u8>) -> Vec<u8> {
    let mut ids = Vec::new();
    while let Some(id) = queue.pop() {
        ids.push(id);
    }
    ids
}

#[test]
fn full_queue_keeps_keyframe_and_advances_delta_frames() {
    let mut queue = VideoSampleQueue::new(3);
    queue.push(1, true);
    queue.push(2, false);
    queue.push(3, false);

    let result = queue.push(4, false);

    assert!(result.was_full);
    assert_eq!(result.dropped_existing, 1);
    assert_eq!(queued_ids(&mut queue), vec![1, 3, 4]);
}

#[test]
fn incoming_keyframe_replaces_stale_backlog_when_queue_is_full() {
    let mut queue = VideoSampleQueue::new(3);
    queue.push(1, true);
    queue.push(2, false);
    queue.push(3, false);

    let result = queue.push(9, true);

    assert!(result.was_full);
    assert_eq!(result.dropped_existing, 3);
    assert_eq!(queued_ids(&mut queue), vec![9]);
}

#[test]
fn closed_queue_drops_pushes_and_lone_keyframe_survives() {
    let mut queue = VideoSampleQueue::new(1);
    queue.push(1, true);
    let r = queue.push(2, false);
    assert!(r.dropped_incoming);
    assert_eq!(r.len_after, 1);
    queue.close();
    assert!(queue.push(3, true).dropped_incoming);
    assert_eq!(queued_ids(&mut queue), vec![1]);
}

#[test]
fn player_slots_assigns_until_full_and_reuses_existing_slot() {
    let mut slots = PlayerSlots::new();

    for idx in 0..MAX_PLAYERS {
        let (slot, is_new) = slots.assign_client(&format!("s{idx}"));
        assert_eq!(slot, Some(idx));
        assert!(is_new);
    }

    let (slot, is_new) = slots.assign_client("overflow");
    assert_eq!(slot, None);
    assert!(!is_new);

    let (slot, is_new) = slots.assign_client("s3");
    assert_eq!(slot, Some(3));
    assert!(!is_new);
    assert_eq!(slots.count(), MAX_PLAYERS);

    assert!(slots.release_client("s3"));
    assert_eq!(slots.count(), MAX_PLAYERS - 1);

    let (slot, is_new) = slots.assign_client("newcomer");
    assert_eq!(slot, Some(3));
    assert!(is_new);
    assert_eq!(slots.count(), MAX_PLAYERS);
}

#[test]
fn pending_inputs_caps_batches_and_drops_oldest() {
    let mut pending = PendingInputs::new();

    for idx in 0..(MAX_PENDING_INPUT_BATCHES + 3) {
        pending.queue_client("sid", vec![idx as u8]);
    }

    let drained = pending.drain_client("sid");
    assert_eq!(drained.len(), MAX_PENDING_INPUT_BATCHES);
    assert_eq!(drained[0], vec![3u8]);
    assert_eq!(drained[drained.len() - 1], vec![(MAX_PENDING_INPUT_BATCHES + 2) as u8]);
}

#[test]
fn room_flushes_queued_input_when_a_slot_frees() {
    let mut room = RoomCore::new();
    for idx in 0..MAX_PLAYERS {
        room.join_room(&format!("p{idx}"));
    }
    let d = room.buffer_or_send_input("late", vec![1]);
    assert!(d.send.is_empty());
    let d = room.buffer_or_send_input("late", vec![2]);
    assert!(d.send.is_empty());
    let (released, count) = room.release_input_source("p0");
    assert!(released);
    assert_eq!(count, Some(MAX_PLAYERS - 1));
    let d = room.buffer_or_send_input("late", vec![3]);
    assert_eq!(d.send, vec![vec![1], vec![2], vec![3]]);
    assert_eq!(d.player_count, Some(MAX_PLAYERS));
    let d = room.buffer_or_send_input("late", vec![4]);
    assert_eq!(d.send, vec![vec![4]]);
    assert_eq!(d.player_count, None);
    assert_eq!(room.player_index_for_session("late"), Some(0));
    assert!(room.take_keyframe_refresh());
    assert!(!room.take_keyframe_refresh());
}

#[test]
fn pending_signals_limits_queue_size_per_session() {
    let mut pending = PendingSessionSignals::new();
    for idx in 0..(MAX_PENDING_MESSAGES_PER_SESSION + 8) {
        pending.enqueue(SignalMessage::with_payload(
            ids::ANSWER,
            Some("session-a".to_string()),
            Some(format!("payload-{idx}")),
        ));
    }

    let drained = pending.drain("session-a");
    assert_eq!(drained.len(), MAX_PENDING_MESSAGES_PER_SESSION);
    assert_eq!(drained.first().and_then(|msg| msg.data.clone()), Some("payload-8".to_string()));
}

#[test]
fn session_and_payload_extractors_require_canonical_non_empty_values() {
    let valid =
        SignalMessage::with_payload(ids::INPUT, Some("session-1".to_string()), Some("payload".to_string()));
    assert_eq!(signal_client_id(&valid), Some("session-1"));
    assert_eq!(signal_payload(&valid), Some("payload"));

    let missing = SignalMessage::with_payload(ids::INPUT, Some(String::new()), Some(String::new()));
    assert_eq!(signal_client_id(&missing), None);
    assert_eq!(signal_payload(&missing), None);
}

#[test]
fn router_holds_back_signals_until_the_session_is_ready() {
    let mut router = SignalRouter::new();
    let answer = SignalMessage::with_payload(ids::ANSWER, Some("c".to_string()), Some("sdp".to_string()));
    assert!(matches!(router.handle_message(answer, false), RouterAction::HeldBack));
    let start = router.handle_message(SignalMessage::with_payload(ids::INIT_WEBRTC, Some("c".to_string()), None), false);
    assert!(matches!(start, RouterAction::StartSession { ref client_id } if client_id == "c"));
    let replay = router.replay_pending_signals("c");
    assert_eq!(replay.len(), 1);
    let applied = router.handle_message(replay.into_iter().next().unwrap(), true);
    assert!(matches!(applied, RouterAction::ApplyAnswer { ref data, .. } if data == "sdp"));
    let input = router.handle_message(
        SignalMessage::with_payload(ids::INPUT, Some("c".to_string()), Some("AQI=".to_string())),
        true,
    );
    assert!(matches!(input, RouterAction::Input { ref payload, .. } if payload == &vec![1u8, 2u8]));
    let bad = router.handle_message(
        SignalMessage::with_payload(ids::INPUT, Some("c".to_string()), Some("***".to_string())),
        true,
    );
    assert!(matches!(bad, RouterAction::Ignore));
    let cand = SignalMessage::with_payload(ids::CANDIDATE, Some("d".to_string()), Some("x".to_string()));
    router.handle_message(cand, false);
    let end = router.handle_message(SignalMessage::with_payload(ids::TERMINATE_SESSION, Some("d".to_string()), None), true);
    assert!(matches!(end, RouterAction::EndSession { .. }));
    assert!(router.replay_pending_signals("d").is_empty());
}

#[test]
fn append_query_param_inserts_and_skips_existing() {
    assert_eq!(
        append_query_param("ws://example.com/ws".to_string(), "token", Some("abc")),
        "ws://example.com/ws?token=abc"
    );
    assert_eq!(
        append_query_param("ws://example.com/ws?x=1".to_string(), "token", Some("abc")),
        "ws://example.com/ws?x=1&token=abc"
    );
    assert_eq!(
        append_query_param("ws://example.com/ws?token=already&x=1".to_string(), "token", Some("abc")),
        "ws://example.com/ws?token=already&x=1"
    );
    assert_eq!(append_query_param("ws://example.com/ws".to_string(), "token", None), "ws://example.com/ws");
}

#[test]
fn redact_url_query_param_for_log_redacts_query_values() {
    assert_eq!(
        redact_url_query_param_for_log("ws://example.com/ws?token=secret&x=1", "token"),
        "ws://example.com/ws?token=[REDACTED]&x=1"
    );
    assert_eq!(
        redact_url_query_param_for_log("ws://example.com/ws?x=1&token=secret", "token"),
        "ws://example.com/ws?x=1&token=[REDACTED]"
    );
    assert_eq!(redact_url_query_param_for_log("ws://example.com/ws?x=1", "token"), "ws://example.com/ws?x=1");
}

#[test]
fn query_values_are_percent_encoded() {
    assert_eq!(url_encode_query_component("a b&c/é~"), "a%20b%26c%2F%C3%A9~");
    assert_eq!(
        append_query_param("ws://h/ws".to_string(), "token", Some("a b")),
        "ws://h/ws?token=a%20b"
    );
    assert_eq!(redact_url_query_param_for_log("ws://h/ws?token=a#frag", "token"), "ws://h/ws?token=[REDACTED]#frag");
    assert_eq!(redact_url_query_param_for_log("", "token"), "");
}

#[test]
fn h264_sdp_fmtp_line_uses_constrained_baseline_profile() {
    assert_eq!(H264_SDP_FMTP_LINE, "level-asymmetry-allowed=1;packetization-mode=1;profile-level-id=42e01f");
}
