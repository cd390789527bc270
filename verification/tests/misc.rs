use arcade::audio::encode_audio_payload;
use arcade::config::{parse_allowed_origins, parse_env_flag};
use arcade::controllers::Controllers;
use arcade::game_config::{
    game_name_from_stem, health_response, is_allowed_game_extension, is_bios_archive, parse_port, profile_for_extension,
    HEALTH_NOT_FOUND_RESPONSE, HEALTH_OK_RESPONSE, MUPEN64PLUS_CONFIG, MUPEN64PLUS_CORE, MGBA_CORE,
};
use arcade::libretro::{
    button_bit_index, decode_input_packet, parse_config_data, pixel_format_from_raw, AudioFrame, BufferPool,
    ControllerStates, RetroPixelFormat, RETRO_DEVICE_ANALOG, RETRO_DEVICE_JOYPAD, VideoFrame,
};
use arcade::registry::normalize_game_name;
use arcade::video::{
    degrade_video_profile, h264_min_frame_interval_ms, is_min_video_profile, restore_video_profile, scale_rgba_nearest,
    VideoProfile,
};

#[test]
fn host_registration_updates_controller_worker_routes() {
    let mut controllers = Controllers::new();
    let host = "host-a";
    let controller = "controller-a";

    let code = controllers.register_host(host, "worker-1", 0, 0);
    let target = controllers.join(controller, &code, 0).ok().expect("join should succeed");
    assert_eq!(target.host_client_id, host);
    assert_eq!(target.worker_id, "worker-1");
    assert_eq!(controllers.worker_for_input(controller, host), Some("worker-1".to_string()));

    let stable_code = controllers.register_host(host, "worker-2", 1, 0);
    assert_eq!(stable_code, code);

    assert_eq!(controllers.worker_for_input(controller, host), Some("worker-2".to_string()));
}

#[test]
fn join_codes_are_sequential_and_blank_codes_are_missing() {
    let mut controllers = Controllers::new();
    assert_eq!(controllers.register_host("a", "w", 0, 0), "000001");
    assert_eq!(controllers.register_host("b", "w", 0, 0), "000002");
    assert!(matches!(controllers.join("c", "   ", 0), Err("missing-code")));
    let cleanup = controllers.cleanup_peer("a");
    assert!(cleanup.notify_host.is_none());
    assert_eq!(controllers.register_host("d", "w", 0, 0), "000001");
}

#[test]
fn allowed_origins_are_split_and_deduplicated() {
    assert_eq!(parse_allowed_origins(None), None);
    assert_eq!(parse_allowed_origins(Some(" , ".to_string())), None);
    let mut v = parse_allowed_origins(Some("https://a, https://b https://a".to_string())).unwrap();
    v.sort();
    assert_eq!(v, vec!["https://a".to_string(), "https://b".to_string()]);
}

#[test]
fn env_flags() {
    for on in ["1", " TRUE ", "Yes", "on"] {
        assert!(parse_env_flag(Some(on)), "{on}");
    }
    for off in ["0", "", "  ", "false", "enable"] {
        assert!(!parse_env_flag(Some(off)), "{off}");
    }
    assert!(!parse_env_flag(None));
}

#[test]
fn game_names_and_profiles() {
    assert_eq!(game_name_from_stem(Some("street_fighter_2")), "street fighter 2");
    assert_eq!(game_name_from_stem(None), "cloud-game");
    let p = profile_for_extension(Some("N64"));
    assert_eq!(p.core, MUPEN64PLUS_CORE);
    assert_eq!(p.config.as_deref(), Some(MUPEN64PLUS_CONFIG));
    assert_eq!(profile_for_extension(Some("xyz")).core, MGBA_CORE);
    assert_eq!(profile_for_extension(None).core, MGBA_CORE);
    assert!(is_allowed_game_extension("ZIP"));
    assert!(!is_allowed_game_extension("exe"));
    assert!(is_bios_archive("NeoGeo.zip"));
    assert!(!is_bios_archive("kof97.zip"));
    assert_eq!(normalize_game_name("  Street \t FIGHTER  II "), "street fighter ii");
}

#[test]
fn health_port_and_reply() {
    assert_eq!(parse_port("0.0.0.0:9090"), 9090);
    assert_eq!(parse_port("host:99999"), 8081);
    assert_eq!(parse_port("no-port"), 8081);
    assert_eq!(parse_port("a:b:7000"), 7000);
    assert_eq!(health_response(b"GET /healthz HTTP/1.1\r\n"), HEALTH_OK_RESPONSE);
    assert_eq!(health_response(b"GET / HTTP/1.1\r\n"), HEALTH_NOT_FOUND_RESPONSE);
}

#[test]
fn core_options_are_parsed() {
    let entries = parse_config_data("a = 1\r\n\n =skip\nflag\nb=x=y\n");
    assert_eq!(
        entries,
        vec![
            ("a".to_string(), "1".to_string()),
            ("flag".to_string(), String::new()),
            ("b".to_string(), "x=y".to_string()),
        ]
    );
    assert!(parse_config_data("").is_empty());
}

#[test]
fn input_packets_and_buttons() {
    let c = decode_input_packet(&[0x01, 0x80, 0xff, 0x7f, 0x00, 0x80]).unwrap();
    assert_eq!(c.key_state, 0x8001);
    assert_eq!(c.axis0, 32767);
    assert_eq!(c.axis1, -32768);
    assert_eq!(c.axis2, 0);
    assert!(decode_input_packet(&[1]).is_none());
    assert_eq!(button_bit_index(0), Some(1));
    assert_eq!(button_bit_index(8), Some(0));
    assert_eq!(button_bit_index(16), None);

    let mut states = ControllerStates::new();
    assert!(states.update_input_state(8, &[1, 0]).is_err());
    states.update_input_state(0, &[0x02, 0x00, 0x10, 0x00]).unwrap();
    // bit 1 is joypad B (libretro id 0)
    assert_eq!(states.input_state(0, RETRO_DEVICE_JOYPAD, 0, 0), 1);
    assert_eq!(states.input_state(0, RETRO_DEVICE_JOYPAD, 0, 8), 0);
    assert_eq!(states.input_state(0, RETRO_DEVICE_ANALOG, 0, 0), 16);
    assert_eq!(states.input_state(9, RETRO_DEVICE_JOYPAD, 0, 0), 0);
}

#[test]
fn frames_and_pools() {
    assert_eq!(pixel_format_from_raw(1), RetroPixelFormat::Xrgb8888);
    assert_eq!(pixel_format_from_raw(9), RetroPixelFormat::Unknown(9));
    let f = VideoFrame::new(RetroPixelFormat::Rgb565, 2, 3, 4, vec![1, 2]);
    assert_eq!((f.width(), f.height(), f.pitch(), f.data()), (2, 3, 4, &[1u8, 2u8][..]));
    assert_eq!(f.format(), RetroPixelFormat::Rgb565);
    assert_eq!(AudioFrame::new(vec![1, -1]).samples(), &[1, -1]);
    let mut pool: BufferPool<u8> = BufferPool::new(0, 1024);
    pool.put(vec![1, 2, 3]);
    let b = pool.take();
    assert!(b.is_empty());
}

#[test]
fn audio_payload_is_little_endian_base64() {
    assert_eq!(encode_audio_payload(&[1, -1]), "AQD//w==");
    assert_eq!(encode_audio_payload(&[]), "");
}

#[test]
fn video_profile_steps() {
    let mut p = VideoProfile::default();
    degrade_video_profile(&mut p);
    assert_eq!((p.target_width, p.target_height, p.frame_interval_ms), (880, 495, 20));
    restore_video_profile(&mut p);
    assert_eq!(p, VideoProfile::default());
    for _ in 0..20 {
        degrade_video_profile(&mut p);
    }
    assert!(is_min_video_profile(&p));
    assert_eq!(h264_min_frame_interval_ms(1280, 720), 34);
    assert_eq!(h264_min_frame_interval_ms(640, 480), 16);
    assert_eq!(h264_min_frame_interval_ms(0, 480), 16);
}

#[test]
fn nearest_neighbour_scaling() {
    let src: Vec<u8> = (0u8..16).collect();
    let mut dst = Vec::new();
    assert!(scale_rgba_nearest(&src, 2, 2, 4, 1, &mut dst).is_some());
    assert_eq!(dst, vec![0, 1, 2, 3, 0, 1, 2, 3, 4, 5, 6, 7, 4, 5, 6, 7]);
    let mut dst = vec![7u8];
    assert!(scale_rgba_nearest(&src, 3, 2, 1, 1, &mut dst).is_none());
    assert_eq!(dst, vec![7u8]);
}
