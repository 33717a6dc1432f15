use stagebadger::ffmpeg::{
    build_composed_filter_graph, build_ffmpeg_args, build_filter_graph, build_session_ffmpeg_args,
    build_session_ffmpeg_args_for_feeds, destination_output_url, is_arg_redactable, is_url_redactable,
    make_video_source,
    parse_device_listing, redact_ffmpeg_args, redact_secret, redact_url, resolved_video_feeds,
    recording_path_at, sanitize_filename, timestamped_recording_path, validate_video_feeds,
};
use stagebadger::types::{
    DestinationConfig, DestinationKind, EncoderProfile, PipPosition, VideoFeedLayout,
    VideoFeedSelection, VideoSourceKind,
};

fn no_audio_filters() -> Vec<String> {
    Vec::new()
}

fn filter_of(args: &[String]) -> String {
    args.iter()
        .position(|arg| arg == "-filter_complex")
        .and_then(|index| args.get(index + 1))
        .unwrap()
        .clone()
}

#[test]
fn test_parse_device_listing_typical() {
    let stderr = r#"[AVFoundation indev @ 0x1395041a0] AVFoundation video devices:
[AVFoundation indev @ 0x1395041a0] [0] MacBook Pro Camera
[AVFoundation indev @ 0x1395041a0] [1] Capture screen 0
[AVFoundation indev @ 0x1395041a0] AVFoundation audio devices:
[AVFoundation indev @ 0x1395041a0] [0] MacBook Pro Microphone"#;

    let devices = parse_device_listing(stderr);
    assert_eq!(devices.video, vec!["MacBook Pro Camera", "Capture screen 0"]);
    assert_eq!(devices.audio, vec!["MacBook Pro Microphone"]);
    assert_eq!(devices.video_sources.len(), 2);
    assert_eq!(devices.video_sources[0].kind, VideoSourceKind::Camera);
    assert_eq!(devices.video_sources[1].kind, VideoSourceKind::Screen);
    assert_eq!(devices.video_sources[1].index, 1);
}

#[test]
fn test_parse_device_listing_empty() {
    let stderr = "ffmpeg version 8.1\nsome unrelated output\n";
    let devices = parse_device_listing(stderr);
    assert!(devices.video.is_empty());
    assert!(devices.audio.is_empty());
}

#[test]
fn test_parse_device_listing_multiple_screens() {
    let stderr = r#"[AVFoundation indev @ 0x123] AVFoundation video devices:
[AVFoundation indev @ 0x123] [0] FaceTime HD Camera
[AVFoundation indev @ 0x123] [1] Capture screen 0
[AVFoundation indev @ 0x123] [2] Capture screen 1
[AVFoundation indev @ 0x123] [3] Capture screen 2
[AVFoundation indev @ 0x123] AVFoundation audio devices:
[AVFoundation indev @ 0x123] [0] MacBook Pro Microphone
[AVFoundation indev @ 0x123] [1] USB Condenser Mic"#;

    let devices = parse_device_listing(stderr);
    assert_eq!(devices.video.len(), 4);
    assert_eq!(devices.audio.len(), 2);
    assert_eq!(devices.audio[1], "USB Condenser Mic");
    assert_eq!(
        devices
            .video_sources
            .iter()
            .filter(|source| source.kind == VideoSourceKind::Screen)
            .count(),
        3
    );
}

#[test]
fn test_build_filter_graph_no_overlay() {
    let (filter, has_overlay) = build_filter_graph("", false);
    assert!(!has_overlay);
    assert!(filter.contains("drawtext="));
    assert!(filter.ends_with("[v_out]"));
    assert!(!filter.contains("[0:v][1:v]overlay"));
}

#[test]
fn test_build_filter_graph_with_nonexistent_overlay() {
    let (filter, has_overlay) = build_filter_graph("/tmp/nonexistent_file_xyz_123.png", false);
    assert!(!has_overlay);
    assert!(!filter.contains("overlay"));
}

#[test]
fn test_build_ffmpeg_args_stream_only() {
    let args = build_ffmpeg_args(
        "MacBook Pro Camera",
        "MacBook Pro Microphone",
        "",
        "rtmp://a.rtmp.youtube.com/live2/",
        "test-key-123",
        false,
        false,
    );

    assert!(args.contains(&"-f".to_string()));
    assert!(args.contains(&"avfoundation".to_string()));
    assert!(args.contains(&"flv".to_string()));
    assert!(args.contains(&"libx264".to_string()));
    assert!(args.contains(&"veryfast".to_string()));

    let output_url = "rtmp://a.rtmp.youtube.com/live2/test-key-123".to_string();
    assert!(args.contains(&output_url));

    assert!(!args.contains(&"tee".to_string()));
}

#[test]
fn test_build_ffmpeg_args_with_recording() {
    let args = build_ffmpeg_args(
        "MacBook Pro Camera",
        "MacBook Pro Microphone",
        "",
        "rtmp://a.rtmp.youtube.com/live2/",
        "test-key-123",
        true,
        false,
    );

    assert!(args.contains(&"tee".to_string()));
    let flv_count = args.iter().filter(|a| *a == "flv").count();
    assert_eq!(flv_count, 0);

    let tee_output = args.last().unwrap();
    assert!(tee_output.contains("[f=flv:onfail=ignore]"));
    assert!(tee_output.contains("[f=mp4:onfail=ignore]"));
    assert!(tee_output.contains("/Volumes/MOE/Recordings/live_capture.mp4"));
}

#[test]
fn test_build_ffmpeg_args_input_format() {
    let args = build_ffmpeg_args("0", "0", "", "rtmp://test/", "key", false, false);
    assert!(args.contains(&"0:0".to_string()));
}

#[test]
fn test_build_ffmpeg_args_encoding_params() {
    let args = build_ffmpeg_args("0", "0", "", "rtmp://test/", "key", false, false);
    assert!(args.contains(&"3000k".to_string()));
    assert!(args.contains(&"6000k".to_string()));
    assert!(args.contains(&"yuv420p".to_string()));
    assert!(args.contains(&"60".to_string()));
    assert!(args.contains(&"aac".to_string()));
    assert!(args.contains(&"160k".to_string()));
    assert!(args.contains(&"44100".to_string()));
}

#[test]
fn test_build_ffmpeg_args_map_contains_v_out() {
    let args = build_ffmpeg_args("0", "0", "", "rtmp://test/", "key", false, false);
    assert!(args.contains(&"[v_out]".to_string()));
}

#[test]
fn test_build_session_ffmpeg_args_live_always_records() {
    let encoder = EncoderProfile::default();
    let args = build_session_ffmpeg_args(
        "0",
        "0",
        "",
        Some("rtmps://example/live/key"),
        Some("/tmp/stagebadger-test.mp4"),
        &encoder,
        false,
        &no_audio_filters(),
        None,
    );
    let tee_output = args.last().unwrap();
    assert!(args.contains(&"tee".to_string()));
    assert!(tee_output.contains("[f=flv:onfail=abort]"));
    assert!(tee_output.contains("/tmp/stagebadger-test.mp4"));
}

#[test]
fn test_build_session_ffmpeg_args_primary_camera_maps_audio_from_last_input() {
    let encoder = EncoderProfile::default();
    let feeds = VideoFeedSelection {
        primary: make_video_source(0, "MacBook Pro Camera"),
        pip: None,
        layout: VideoFeedLayout::default(),
    };
    let args = build_session_ffmpeg_args_for_feeds(
        &feeds,
        461,
        259,
        "MacBook Pro Microphone",
        "",
        None,
        Some("/tmp/stagebadger-test.mp4"),
        &encoder,
        false,
        &no_audio_filters(),
        None,
    );
    assert!(args.contains(&"MacBook Pro Camera:".to_string()));
    assert!(args.contains(&":MacBook Pro Microphone".to_string()));
    assert!(args.contains(&"1:a".to_string()));
}

#[test]
fn test_build_session_ffmpeg_args_primary_screen_preserves_aspect() {
    let encoder = EncoderProfile::default();
    let feeds = VideoFeedSelection {
        primary: make_video_source(1, "Capture screen 0"),
        pip: None,
        layout: VideoFeedLayout::default(),
    };
    let args = build_session_ffmpeg_args_for_feeds(
        &feeds,
        461,
        259,
        "Mic",
        "",
        None,
        None,
        &encoder,
        false,
        &no_audio_filters(),
        None,
    );
    let filter = filter_of(&args);
    assert!(filter.contains("force_original_aspect_ratio=decrease"));
    assert!(filter.contains("pad=1920:1080"));
}

#[test]
fn test_build_session_ffmpeg_args_screen_with_camera_pip() {
    let encoder = EncoderProfile::default();
    let feeds = VideoFeedSelection {
        primary: make_video_source(1, "Capture screen 0"),
        pip: Some(make_video_source(0, "MacBook Pro Camera")),
        layout: VideoFeedLayout { pip_enabled: true, pip_position: PipPosition::BottomRight },
    };
    let args = build_session_ffmpeg_args_for_feeds(
        &feeds,
        461,
        259,
        "Mic",
        "",
        Some("rtmps://example/live/key"),
        Some("/tmp/stagebadger-test.mp4"),
        &encoder,
        false,
        &no_audio_filters(),
        None,
    );
    assert!(args.contains(&"Capture screen 0:".to_string()));
    assert!(args.contains(&"MacBook Pro Camera:".to_string()));
    assert!(args.contains(&":Mic".to_string()));
    assert!(args.contains(&"2:a".to_string()));
    let filter = filter_of(&args);
    assert!(filter.contains("[program0][pip0]overlay"));
    assert!(filter.contains("x=W-w-24:y=H-h-24"));
}

#[test]
fn test_validate_video_feeds_rejects_duplicate_pip() {
    let camera = make_video_source(0, "MacBook Pro Camera");
    let feeds = VideoFeedSelection {
        primary: camera.clone(),
        pip: Some(camera),
        layout: VideoFeedLayout { pip_enabled: true, pip_position: PipPosition::BottomRight },
    };
    assert!(validate_video_feeds(&feeds).is_err());
}

#[test]
fn test_redact_ffmpeg_args_hides_stream_key() {
    let args = vec!["rtmps://example/live/super-secret-key".to_string()];
    let redacted = redact_ffmpeg_args(&args);
    assert!(!redacted[0].contains("super-secret-key"));
    assert!(redacted[0].contains("[redacted]"));
}

#[test]
fn test_sanitize_filename_keeps_recording_paths_safe() {
    assert_eq!(sanitize_filename("Stage Badger!"), "stage-badger");
    assert_eq!(sanitize_filename("///"), "stagebadger");
}

#[test]
fn video_source_ids_and_kinds() {
    let cam = make_video_source(0, "FaceTime HD Camera");
    assert_eq!(cam.kind, VideoSourceKind::Camera);
    assert_eq!(cam.avfoundation_name, "FaceTime HD Camera");
    let screen = make_video_source(2, "Capture screen 1");
    assert_eq!(screen.kind, VideoSourceKind::Screen);
    assert_eq!(screen.index, 2);
    assert!(screen.id.starts_with("screen"));
}

#[test]
fn pip_validation_messages() {
    let feeds = VideoFeedSelection {
        primary: make_video_source(0, "Cam"),
        pip: None,
        layout: VideoFeedLayout { pip_enabled: true, pip_position: PipPosition::TopLeft },
    };
    assert_eq!(
        validate_video_feeds(&feeds).unwrap_err(),
        "In-screen feed is enabled but no PiP source was selected"
    );
    let ok = VideoFeedSelection {
        primary: make_video_source(0, "Cam"),
        pip: Some(make_video_source(1, "Capture screen 0")),
        layout: VideoFeedLayout { pip_enabled: true, pip_position: PipPosition::TopLeft },
    };
    assert!(validate_video_feeds(&ok).is_ok());
}

#[test]
fn redaction_of_secrets_and_urls() {
    assert_eq!(redact_secret("12345678"), "[redacted]");
    assert_eq!(redact_secret("123456789"), "1234...[redacted]");
    assert_eq!(redact_url("rtmp://host/app/abcdefghij"), "rtmp://host/app/abcd...[redacted]");
    assert_eq!(redact_url("https://x/?access_token=zz"), "https://x/?acc...[redacted]");
    assert_eq!(redact_url("a?access_token=z"), "a?access_token=[redacted]z");
    assert!(is_url_redactable("rtmp://host/app/abcdefghij"));
    assert!(!is_url_redactable("rtmp://host/app/abcéefghij"));
    let args = vec!["-i".to_string(), "rtmp://h/app/short".to_string()];
    assert_eq!(redact_ffmpeg_args(&args), args);
}

#[test]
fn output_url_joins_base_and_key() {
    let mut destination = DestinationConfig {
        kind: DestinationKind::ManualRtmp,
        label: "x".to_string(),
        manual_destination_id: None,
        rtmp_url: Some("rtmp://host/app/".to_string()),
        stream_key: Some("key".to_string()),
        broadcast_id: None,
        stream_id: None,
        live_chat_id: None,
    };
    assert_eq!(destination_output_url(&destination).unwrap(), Some("rtmp://host/app/key".to_string()));
    destination.stream_key = None;
    assert_eq!(destination_output_url(&destination).unwrap_err(), "Stream key is missing");
    destination.rtmp_url = None;
    assert_eq!(destination_output_url(&destination).unwrap_err(), "RTMP ingest URL is missing");
    destination.kind = DestinationKind::RecordOnly;
    assert_eq!(destination_output_url(&destination).unwrap(), None);
}

#[test]
fn recording_path_is_stamped_and_sanitized() {
    assert_eq!(
        recording_path_at("/tmp/rec", "My Show", ".mp4", 42),
        "/tmp/rec/my-show-42.mp4"
    );
}

#[test]
fn legacy_feeds_use_the_single_camera() {
    let feeds = resolved_video_feeds("Cam X", None);
    assert_eq!(feeds.primary.avfoundation_name, "Cam X");
    assert!(feeds.pip.is_none());
    assert!(!feeds.layout.pip_enabled);
}

#[test]
fn composed_graph_with_blur_and_pip() {
    let encoder = EncoderProfile::default();
    let feeds = VideoFeedSelection {
        primary: make_video_source(0, "Cam"),
        pip: Some(make_video_source(1, "Capture screen 0")),
        layout: VideoFeedLayout { pip_enabled: true, pip_position: PipPosition::TopLeft },
    };
    let (graph, has_overlay) = build_composed_filter_graph(&feeds, 461, 259, "", &encoder, true);
    assert!(!has_overlay);
    assert!(graph.starts_with("[0:v]scale=1920:1080:force_original_aspect_ratio=increase,crop=1920:1080,setsar=1[program0]"));
    assert!(graph.contains("[program0]gblur=sigma=10:steps=2[program_blur]"));
    assert!(graph.contains("[1:v]scale=461:259:force_original_aspect_ratio=decrease,pad=461:259"));
    assert!(graph.contains("[program_blur][pip0]overlay=x=24:y=24:format=auto[program_pip]"));
    assert!(graph.contains("[program_pip]drawtext="));
}

#[test]
fn recording_path_now_is_in_directory() {
    let path = timestamped_recording_path("/tmp/rec/", "show", "mp4");
    assert!(path.starts_with("/tmp/rec/show-"));
    assert!(path.ends_with(".mp4"));
}

#[test]
fn only_stream_urls_need_redactable_keys() {
    assert!(is_arg_redactable("/Users/me/abcéefghij"));
    assert!(!is_arg_redactable("rtmp://host/app/abcéefghij"));
    assert!(is_arg_redactable("rtmp://host/app/abcdefghij"));
    let args = vec!["/Users/me/abcéefghij".to_string()];
    assert_eq!(redact_ffmpeg_args(&args), args);
}

#[test]
fn overlay_png_goes_top_right_with_margin() {
    let graph = stagebadger::ffmpeg::filter_graph_for(true, false);
    assert!(graph.starts_with("[0:v][1:v]overlay=W-w-20:20[v1];[v1]drawtext="));
    assert!(graph.ends_with("[v_out]"));
    assert!(!graph.contains("scale2ref"));
    let blurred = stagebadger::ffmpeg::filter_graph_for(true, true);
    assert!(blurred.starts_with("[0:v]gblur=sigma=10:steps=2[base];[base][1:v]overlay=W-w-20:20[v1];[v1]"));
}

#[test]
fn session_graph_applies_colour_correction_last() {
    let encoder = EncoderProfile::default();
    let feeds = VideoFeedSelection {
        primary: make_video_source(0, "MacBook Pro Camera"),
        pip: None,
        layout: VideoFeedLayout::default(),
    };
    let eq = "eq=brightness=0.10:contrast=1.20:saturation=1.00:gamma=1.00";
    let args = build_session_ffmpeg_args_for_feeds(
        &feeds, 461, 259, "Mic", "", None, None, &encoder, false, &no_audio_filters(), Some(eq),
    );
    let filter = filter_of(&args);
    assert!(filter.ends_with(",eq=brightness=0.10:contrast=1.20:saturation=1.00:gamma=1.00[v_out]"));
    let plain = build_session_ffmpeg_args_for_feeds(
        &feeds, 461, 259, "Mic", "", None, None, &encoder, false, &no_audio_filters(), None,
    );
    assert!(!filter_of(&plain).contains("eq="));
}

#[test]
fn program_graph_scales_overlay_to_frame() {
    let encoder = EncoderProfile::default();
    let feeds = VideoFeedSelection {
        primary: make_video_source(0, "MacBook Pro Camera"),
        pip: None,
        layout: VideoFeedLayout::default(),
    };
    let graph = stagebadger::ffmpeg::composed_filter_graph_for(&feeds, 461, 259, true, &encoder, false, None);
    assert!(graph.contains(
        "[1:v][program0]scale2ref[program_ovr][program_ref];[program_ref][program_ovr]overlay=0:0:format=auto[program_overlay]"
    ));
    assert!(graph.contains("[program_overlay]drawtext="));
    assert!(graph.ends_with("[v_out]"));
}

#[test]
fn missing_overlay_file_is_not_used_and_clock_reads_after_epoch() {
    let (_, used) = build_filter_graph("/tmp/stagebadger_no_such_overlay_file.png", false);
    assert!(!used);
    assert!(stagebadger::ffmpeg::now_millis() > 1_600_000_000_000);
}

#[test]
fn pip_height_is_nine_sixteenths_rounded_half_up() {
    assert_eq!(stagebadger::ffmpeg::pip_height(461), 259);
    assert_eq!(stagebadger::ffmpeg::pip_height(480), 270);
    assert_eq!(stagebadger::ffmpeg::pip_height(2), 2);
    assert_eq!(stagebadger::ffmpeg::pip_height(0), 2);
    assert_eq!(stagebadger::ffmpeg::pip_height(8), 5);
}
