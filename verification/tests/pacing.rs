use arcade::libretro::{
    audio_batch_samples, environment_reply, is_supported_pixel_format, video_frame_len, EnvironmentReply,
    RETRO_ENVIRONMENT_GET_CAN_DUPE, RETRO_ENVIRONMENT_GET_VARIABLE_UPDATE, RETRO_ENVIRONMENT_SET_HW_RENDER,
    RETRO_ENVIRONMENT_SET_PIXEL_FORMAT, RETRO_ENVIRONMENT_SHUTDOWN,
};
use arcade::room_state::RoomCore;
use arcade::server::AppState;
use arcade::video::VideoProfile;
use arcade::video_pacing::{EncodeOutcome, FramePacing, VIDEO_TARGET_MAX_PAYLOAD_BYTES};

#[test]
fn frames_wait_for_their_interval_and_advance_rtp_time() {
    let mut p = FramePacing::new();
    assert!(p.activate_if_idle());
    assert!(!p.activate_if_idle());
    p.apply_room_requests(false, 640, 480);
    assert!(p.begin_frame(10, 640, 480, 640, 480).is_none());
    let plan = p.begin_frame(20, 640, 480, 640, 480).expect("due");
    assert_eq!(plan.sample_duration_ms, 20);
    assert_eq!(plan.packet_step, 1800);
    assert!(!plan.allow_scaled);
    assert!(plan.attempt_encode);
    let sent = p.finish_frame(plan, EncodeOutcome::Encoded { len: 1000, scaled: false }).expect("sent");
    assert_eq!(sent.timestamp, 0);
    assert_eq!(p.packet_timestamp, 1800);
    assert!(p.first_payload_sent);
}

#[test]
fn oversized_payloads_lower_quality_and_are_dropped() {
    let mut p = FramePacing::new();
    p.activate_if_idle();
    let plan = p.begin_frame(100, 1920, 1080, 960, 540).expect("due");
    assert!(plan.allow_scaled);
    let r = p.finish_frame(plan, EncodeOutcome::Encoded { len: VIDEO_TARGET_MAX_PAYLOAD_BYTES + 1, scaled: true });
    assert!(r.is_none());
    assert_eq!(p.profile.target_width, 880);
}

#[test]
fn startup_failures_are_tolerated_before_degrading() {
    let mut p = FramePacing::new();
    p.activate_if_idle();
    for expected in 1..=3u8 {
        let plan = p.begin_frame(100, 640, 480, 640, 480).unwrap();
        assert!(p.finish_frame(plan, EncodeOutcome::Failed).is_none());
        assert_eq!(p.startup_encode_failures, expected);
        assert_eq!(p.profile, VideoProfile::default());
    }
    let plan = p.begin_frame(100, 640, 480, 640, 480).unwrap();
    p.finish_frame(plan, EncodeOutcome::Failed);
    assert_eq!(p.profile.target_width, 880);
}

#[test]
fn environment_replies() {
    assert_eq!(environment_reply(RETRO_ENVIRONMENT_GET_CAN_DUPE, false), EnvironmentReply::WriteFlag(1));
    assert_eq!(environment_reply(RETRO_ENVIRONMENT_GET_VARIABLE_UPDATE, false), EnvironmentReply::WriteFlag(0));
    assert_eq!(environment_reply(RETRO_ENVIRONMENT_SET_HW_RENDER, false), EnvironmentReply::Code(0));
    assert_eq!(environment_reply(RETRO_ENVIRONMENT_SET_HW_RENDER, true), EnvironmentReply::Code(1));
    assert_eq!(environment_reply(RETRO_ENVIRONMENT_SET_PIXEL_FORMAT, false), EnvironmentReply::SetPixelFormat);
    assert_eq!(environment_reply(RETRO_ENVIRONMENT_SHUTDOWN, false), EnvironmentReply::Shutdown);
    assert_eq!(environment_reply(27, false), EnvironmentReply::Code(0));
    assert_eq!(environment_reply(1, false), EnvironmentReply::Code(1));
    assert!(is_supported_pixel_format(2));
    assert!(!is_supported_pixel_format(3));
    assert_eq!(video_frame_len(true, false, 4, 2, 16), Some(32));
    assert_eq!(video_frame_len(false, false, 4, 2, 16), None);
    assert_eq!(video_frame_len(true, true, 4, 2, 16), None);
    assert_eq!(audio_batch_samples(10, 3), 6);
    assert_eq!(audio_batch_samples(10, 9), 10);
}

#[test]
fn lobby_snapshot_lists_games_and_counts() {
    let mut state = AppState::new(None, None, false);
    state.register_worker("w".to_string());
    state.registry.set_worker_game("w".to_string(), Some("Tetris".to_string()));
    state.registry.set_worker_player_count("w".to_string(), 3);
    assert_eq!(state.browser_snapshot_payload(), r#"{"games":{"w":"Tetris"},"playerCountsByRoom":{"w":3}}"#);
}

#[test]
fn leaving_session_frees_its_slot() {
    let mut room = RoomCore::new();
    room.join_room("a");
    room.join_room("b");
    assert_eq!(room.release_slot("a"), Some(1));
    assert_eq!(room.release_slot("a"), None);
    assert_eq!(room.player_index_for_session("b"), Some(1));
}
