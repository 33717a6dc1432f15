//! Plain data exchanged between the studio's front end and its control plane.
use vstd::prelude::*;

verus! {

/// Where a streaming session is in its life cycle.
#[derive(Clone, Copy, Debug, PartialEq, Eq, Structural)]
pub enum SessionPhase {
    Idle,
    Preview,
    Recording,
    Connecting,
    Live,
    Stopping,
    Error,
}

impl Default for SessionPhase {
    fn default() -> (r: Self)
        ensures
            r == SessionPhase::Idle,
    {
        SessionPhase::Idle
    }
}

#[derive(Clone, Copy, Debug, PartialEq, Eq, Structural)]
pub enum DestinationKind {
    YoutubeOauth,
    YoutubeRtmps,
    ManualRtmp,
    RecordOnly,
}

#[derive(Clone, Debug, PartialEq)]
pub struct DestinationConfig {
    pub kind: DestinationKind,
    pub label: String,
    pub manual_destination_id: Option<String>,
    pub rtmp_url: Option<String>,
    pub stream_key: Option<String>,
    pub broadcast_id: Option<String>,
    pub stream_id: Option<String>,
    pub live_chat_id: Option<String>,
}

#[derive(Clone, Debug, PartialEq, Eq)]
pub struct RecordingProfile {
    pub enabled: bool,
    pub directory: Option<String>,
    pub filename_prefix: String,
    pub compact_after_stop: bool,
}

impl Default for RecordingProfile {
    fn default() -> (r: Self)
        ensures
            r.enabled,
            r.directory is None,
            r.filename_prefix@ == "stagebadger"@,
            r.compact_after_stop,
    {
        RecordingProfile {
            enabled: true,
            directory: None,
            filename_prefix: String::from_str("stagebadger"),
            compact_after_stop: true,
        }
    }
}

#[derive(Clone, Copy, Debug, PartialEq, Eq)]
pub struct EncoderProfile {
    pub width: u32,
    pub height: u32,
    pub fps: u32,
    pub video_bitrate_kbps: u32,
    pub audio_bitrate_kbps: u32,
    pub hevc_compact: bool,
}

impl Default for EncoderProfile {
    fn default() -> (r: Self)
        ensures
            r == (EncoderProfile {
                width: 1920,
                height: 1080,
                fps: 30,
                video_bitrate_kbps: 6000,
                audio_bitrate_kbps: 160,
                hevc_compact: true,
            }),
    {
        EncoderProfile {
            width: 1920,
            height: 1080,
            fps: 30,
            video_bitrate_kbps: 6000,
            audio_bitrate_kbps: 160,
            hevc_compact: true,
        }
    }
}

#[derive(Clone, Copy, Debug, PartialEq, Eq, Structural)]
pub enum VideoSourceKind {
    Camera,
    Screen,
}

#[derive(Clone, Debug, PartialEq, Eq)]
pub struct VideoSource {
    pub id: String,
    pub label: String,
    pub kind: VideoSourceKind,
    pub avfoundation_name: String,
    pub index: usize,
}

#[derive(Clone, Copy, Debug, PartialEq, Eq, Structural)]
pub enum PipPosition {
    BottomRight,
    BottomLeft,
    TopRight,
    TopLeft,
}

/// Picture-in-picture arrangement of the program feed. The in-screen feed's
/// pixel size is carried separately, as whole pixels.
#[derive(Clone, Copy, Debug, PartialEq, Eq)]
pub struct VideoFeedLayout {
    pub pip_enabled: bool,
    pub pip_position: PipPosition,
}

impl Default for VideoFeedLayout {
    fn default() -> (r: Self)
        ensures
            !r.pip_enabled,
            r.pip_position == PipPosition::BottomRight,
    {
        VideoFeedLayout { pip_enabled: false, pip_position: PipPosition::BottomRight }
    }
}

#[derive(Clone, Debug, PartialEq, Eq)]
pub struct VideoFeedSelection {
    pub primary: VideoSource,
    pub pip: Option<VideoSource>,
    pub layout: VideoFeedLayout,
}

#[derive(Clone, Debug, PartialEq)]
pub struct ChatMessage {
    pub id: String,
    pub author: String,
    pub message: String,
    pub role: Option<String>,
    pub published_at: Option<String>,
    pub amount_display: Option<String>,
    pub is_super_chat: bool,
}

#[derive(Clone, Debug, PartialEq)]
pub struct TranscriptFinalization {
    pub is_final: bool,
    pub finalized_at_ms: Option<u64>,
    pub source_media_path: Option<String>,
    pub final_media_path: Option<String>,
    pub sidecar_paths: Vec<String>,
    pub audio_source: Option<String>,
}

#[derive(Clone, Debug, PartialEq)]
pub struct StreamStatus {
    pub phase: SessionPhase,
    pub destination: String,
    pub message: String,
}

#[derive(Clone, Debug, PartialEq)]
pub struct YoutubeStatus {
    pub connected: bool,
    pub message: String,
    pub broadcast_id: Option<String>,
    pub stream_id: Option<String>,
    pub live_chat_id: Option<String>,
    pub ingest_url: Option<String>,
    pub stream_key: Option<String>,
}

#[derive(Clone, Debug, PartialEq)]
pub struct ManualDestination {
    pub id: String,
    pub label: String,
    pub provider: String,
    pub server_url: String,
    pub has_saved_key: bool,
    pub last_used_at: Option<u64>,
    pub default_privacy_note: Option<String>,
    pub confirmed_live_enabled: bool,
}

#[derive(Clone, Debug, PartialEq)]
pub struct ManualDestinationSaveRequest {
    pub id: Option<String>,
    pub label: String,
    pub provider: String,
    pub server_url: String,
    pub stream_key: Option<String>,
    pub default_privacy_note: Option<String>,
    pub confirmed_live_enabled: bool,
}

#[derive(Clone, Debug, PartialEq, Eq)]
pub struct SecretWriteRequest {
    pub destination_id: String,
    pub stream_key: String,
}

#[derive(Clone, Debug, PartialEq)]
pub struct ManualDestinationTestInput {
    pub server_url: String,
    pub stream_key: Option<String>,
}

#[derive(Clone, Debug, PartialEq)]
pub struct ManualDestinationTestRequest {
    pub destination_id: Option<String>,
    pub inline_destination: Option<ManualDestinationTestInput>,
}

#[derive(Clone, Debug, PartialEq)]
pub struct DestinationTestResult {
    pub ok: bool,
    pub normalized_server_url: Option<String>,
    pub redacted_url: Option<String>,
    pub message: String,
}

impl DestinationTestResult {
    /// A failed check carrying `message`.
    pub fn failed(message: String) -> (r: Self)
        ensures
            !r.ok,
            r.normalized_server_url is None,
            r.redacted_url is None,
            r.message == message,
    {
        DestinationTestResult { ok: false, normalized_server_url: None, redacted_url: None, message }
    }
}

#[derive(Clone, Debug, PartialEq)]
pub struct VideoEngineStatus {
    pub engine: String,
    pub depth_of_field: bool,
    pub fallback_active: bool,
    pub queue_depth: u32,
    pub dropped_frames: u64,
    pub message: String,
}

impl Default for VideoEngineStatus {
    fn default() -> (r: Self)
        ensures
            r.engine@ == "direct-ffmpeg"@,
            !r.depth_of_field,
            r.fallback_active,
            r.queue_depth == 0,
            r.dropped_frames == 0,
            r.message@ == "Direct FFmpeg capture is ready"@,
    {
        VideoEngineStatus {
            engine: String::from_str("direct-ffmpeg"),
            depth_of_field: false,
            fallback_active: true,
            queue_depth: 0,
            dropped_frames: 0,
            message: String::from_str("Direct FFmpeg capture is ready"),
        }
    }
}

pub fn copy_opt_string(s: &Option<String>) -> (r: Option<String>)
    ensures
        r matches Some(x) ==> s matches Some(y) && x@ == y@,
        r is None <==> s is None,
{
    match s {
        Some(x) => Some(x.clone()),
        None => None,
    }
}

impl VideoSource {
    /// A field-for-field copy.
    pub fn copy(&self) -> (r: Self)
        ensures
            r.id@ == self.id@,
            r.label@ == self.label@,
            r.kind == self.kind,
            r.avfoundation_name@ == self.avfoundation_name@,
            r.index == self.index,
    {
        VideoSource {
            id: self.id.clone(),
            label: self.label.clone(),
            kind: self.kind,
            avfoundation_name: self.avfoundation_name.clone(),
            index: self.index,
        }
    }
}

} // verus!
