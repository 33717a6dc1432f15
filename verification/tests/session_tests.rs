use stagebadger::session::{
    check_compacted_sizes, compact_args, overlay_asset_names, position_of_id, compacted_recording_path, overlay_candidate,
    overlay_extension, primary_overlay_path, running_phase, should_record, starting_phase,
    status_destination_label, video_engine_status, OverlayLayer,
};
use stagebadger::types::{DestinationConfig, DestinationKind, SessionPhase};

fn layer(visible: bool, z_index: i32, path: &str) -> OverlayLayer {
    OverlayLayer { visible, z_index, asset_path: path.to_string() }
}

#[test]
fn recording_rules() {
    assert!(should_record(false, DestinationKind::YoutubeRtmps));
    assert!(should_record(true, DestinationKind::RecordOnly));
    assert!(!should_record(false, DestinationKind::RecordOnly));
}

#[test]
fn top_visible_overlay_wins_last_among_equals() {
    let layers = vec![layer(true, 2, "a.png"), layer(false, 9, "hidden.png"), layer(true, 2, "b.png"), layer(true, 1, "c.png")];
    assert_eq!(primary_overlay_path(&layers), "b.png");
    assert_eq!(primary_overlay_path(&vec![layer(false, 1, "x.png")]), "");
    assert_eq!(primary_overlay_path(&Vec::new()), "");
}

#[test]
fn phases_follow_destination() {
    assert_eq!(starting_phase(DestinationKind::RecordOnly), SessionPhase::Recording);
    assert_eq!(starting_phase(DestinationKind::ManualRtmp), SessionPhase::Connecting);
    assert_eq!(running_phase(DestinationKind::RecordOnly), SessionPhase::Recording);
    assert_eq!(running_phase(DestinationKind::YoutubeOauth), SessionPhase::Live);
}

#[test]
fn engine_status_by_depth_of_field() {
    let direct = video_engine_status(false);
    assert_eq!(direct.engine, "direct-ffmpeg");
    assert!(direct.fallback_active);
    assert_eq!(direct.message, "Direct FFmpeg capture path active");
    let vision = video_engine_status(true);
    assert_eq!(vision.engine, "vision-coreimage");
    assert!(!vision.fallback_active);
    assert!(vision.depth_of_field);
}

#[test]
fn labels_and_compaction() {
    assert_eq!(status_destination_label(&None), "StageBadger");
    let dest = DestinationConfig {
        kind: DestinationKind::RecordOnly,
        label: "Local recording".to_string(),
        manual_destination_id: None,
        rtmp_url: None,
        stream_key: None,
        broadcast_id: None,
        stream_id: None,
        live_chat_id: None,
    };
    assert_eq!(status_destination_label(&Some(dest)), "Local recording");
    let args = compact_args("/r/a.mp4", "/r/a.compact.mov");
    assert_eq!(args[5], "/r/a.mp4");
    assert_eq!(args[7], "hevc_videotoolbox");
    assert_eq!(args.last().unwrap(), "/r/a.compact.mov");
    assert_eq!(compacted_recording_path("/r/a.mp4"), "/r/a.compact.mov");
    assert!(check_compacted_sizes(10, 5).is_ok());
    assert_eq!(check_compacted_sizes(10, 0).unwrap_err(), "Compacted recording did not verify");
}

#[test]
fn overlay_paths_and_formats() {
    assert_eq!(overlay_candidate("/overlays/x.png", "/proj"), Some("/proj/public/overlays/x.png".to_string()));
    assert_eq!(overlay_candidate("/Volumes/MOE/x.png", "/proj"), None);
    assert_eq!(overlay_candidate("/Users/me/x.png", "/proj"), None);
    assert_eq!(overlay_candidate("x.png", "/proj"), None);
    assert_eq!(overlay_extension(Some("PNG")).unwrap(), "png");
    assert_eq!(overlay_extension(Some("webp")).unwrap(), "webp");
    assert_eq!(
        overlay_extension(Some("jpg")).unwrap_err(),
        "Overlay assets must be transparent PNG, SVG, or WebP files"
    );
    assert_eq!(overlay_extension(None).unwrap_err(), "Overlay asset needs a file extension");
}

#[test]
fn overlay_names_and_positions() {
    assert_eq!(
        overlay_asset_names(1700, "png"),
        ("overlay-1700".to_string(), "overlay-1700.png".to_string())
    );
    let ids = vec!["a".to_string(), "b".to_string(), "b".to_string()];
    assert_eq!(position_of_id(&ids, "b"), Some(1));
    assert_eq!(position_of_id(&ids, "c"), None);
}

#[test]
fn a_running_session_refuses_another_start() {
    assert_eq!(
        stagebadger::session::begin_session(true, DestinationKind::YoutubeRtmps),
        Err("A StageBadger session is already running".to_string())
    );
    assert_eq!(
        stagebadger::session::begin_session(false, DestinationKind::RecordOnly),
        Ok(SessionPhase::Recording)
    );
    assert_eq!(
        stagebadger::session::begin_session(false, DestinationKind::YoutubeRtmps),
        Ok(SessionPhase::Connecting)
    );
}

fn idle_model() -> stagebadger::session::SessionModel {
    stagebadger::session::SessionModel {
        running: false,
        phase: SessionPhase::Idle,
        destination: None,
        recording_path: None,
        compacted_path: Some("/tmp/old.compact.mov".to_string()),
        timing: false,
        started_at_ms: None,
        error: Some("earlier".to_string()),
    }
}

fn record_only() -> DestinationConfig {
    DestinationConfig {
        kind: DestinationKind::RecordOnly,
        label: "Local".to_string(),
        manual_destination_id: None,
        rtmp_url: None,
        stream_key: None,
        broadcast_id: None,
        stream_id: None,
        live_chat_id: None,
    }
}

#[test]
fn session_start_and_stop_transitions() {
    let mut m = idle_model();
    stagebadger::session::begin_session_state(&mut m, record_only(), Some("/tmp/rec.mp4".to_string()), 42).unwrap();
    assert_eq!(m.phase, SessionPhase::Recording);
    assert_eq!(m.compacted_path, None);
    assert_eq!(m.error, None);
    assert_eq!(m.started_at_ms, Some(42));
    assert!(m.timing && !m.running);
    stagebadger::session::pipeline_started(&mut m, DestinationKind::RecordOnly);
    assert!(m.running);
    let again = stagebadger::session::begin_session_state(&mut m, record_only(), None, 50);
    assert_eq!(again.unwrap_err(), "A StageBadger session is already running");
    assert_eq!(m.started_at_ms, Some(42));
    stagebadger::session::begin_stop(&mut m);
    assert_eq!(m.phase, SessionPhase::Stopping);
    assert!(!m.running);
    assert_eq!(stagebadger::session::compaction_target(&m, true, true), Some("/tmp/rec.mp4".to_string()));
    assert_eq!(stagebadger::session::compaction_target(&m, true, false), None);
    assert_eq!(stagebadger::session::compaction_target(&m, false, true), None);
    stagebadger::session::finish_stop(&mut m, Some("/tmp/rec.compact.mov".to_string()));
    assert_eq!(m.phase, SessionPhase::Idle);
    assert!(!m.timing);
    assert_eq!(m.compacted_path, Some("/tmp/rec.compact.mov".to_string()));
    assert_eq!(m.recording_path, Some("/tmp/rec.mp4".to_string()));
    assert_eq!(m.started_at_ms, Some(42));
}

#[test]
fn failed_pipeline_sets_error_phase() {
    let mut m = idle_model();
    stagebadger::session::pipeline_failed(&mut m, "Failed to start FFmpeg: x".to_string());
    assert_eq!(m.phase, SessionPhase::Error);
    assert_eq!(m.error, Some("Failed to start FFmpeg: x".to_string()));
}
