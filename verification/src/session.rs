//! Decisions of the session controller: what a session records, which
//! overlay is composited, the phases it passes through, the video engine it
//! reports, and the compaction of a finished recording.
use vstd::prelude::*;

use crate::text::{chars_of, lower, lower_chars, sviews, starts_with, starts_with_chars};
use crate::types::{DestinationConfig, DestinationKind, SessionPhase, VideoEngineStatus};
use crate::destinations::oview;

verus! {

/// The part of an overlay layer that decides which one is composited.
#[derive(Clone, Debug, PartialEq)]
pub struct OverlayLayer {
    pub visible: bool,
    pub z_index: i32,
    pub asset_path: String,
}

/// A session records when recording is enabled or when it goes live.
pub open spec fn should_record_spec(recording_enabled: bool, kind: DestinationKind) -> bool {
    recording_enabled || kind != DestinationKind::RecordOnly
}

pub fn should_record(recording_enabled: bool, kind: DestinationKind) -> (r: bool)
    ensures
        r == should_record_spec(recording_enabled, kind),
{
    recording_enabled || kind != DestinationKind::RecordOnly
}

/// A session that goes live always records.
pub proof fn law_live_sessions_record(recording_enabled: bool, kind: DestinationKind)
    requires
        kind != DestinationKind::RecordOnly,
    ensures
        should_record_spec(recording_enabled, kind),
{
}

/// The visible layer with the highest z-index, the last one among equals.
pub open spec fn top_layer(layers: Seq<OverlayLayer>) -> Option<int>
    decreases layers.len(),
{
    if layers.len() == 0 {
        None
    } else {
        let prev = top_layer(layers.drop_last());
        let l = layers.last();
        if l.visible && (prev matches Some(p) ==> l.z_index >= layers[p].z_index) {
            Some(layers.len() - 1)
        } else {
            prev
        }
    }
}

proof fn lemma_top_layer_bounds(layers: Seq<OverlayLayer>)
    ensures
        top_layer(layers) matches Some(i) ==> 0 <= i < layers.len() && layers[i].visible,
    decreases layers.len(),
{
    if layers.len() > 0 {
        lemma_top_layer_bounds(layers.drop_last());
    }
}

/// The asset composited over the program: the top visible layer's, or
/// nothing.
pub open spec fn primary_overlay_spec(layers: Seq<OverlayLayer>) -> Seq<char> {
    match top_layer(layers) {
        Some(i) => layers[i].asset_path@,
        None => seq![],
    }
}

pub fn primary_overlay_path(layers: &Vec<OverlayLayer>) -> (r: String)
    ensures
        r@ == primary_overlay_spec(layers@),
{
    let mut best: Option<usize> = None;
    for i in 0..layers.len()
        invariant
            best matches Some(b) ==> b < i,
            top_layer(layers@.take(i as int)) == match best {
                Some(b) => Some(b as int),
                None => None::<int>,
            },
    {
        assert(layers@.take(i + 1).drop_last() == layers@.take(i as int));
        let l = &layers[i];
        let take = match best {
            Some(b) => l.visible && l.z_index >= layers[b].z_index,
            None => l.visible,
        };
        if take {
            best = Some(i);
        }
    }
    assert(layers@.take(layers.len() as int) == layers@);
    proof {
        lemma_top_layer_bounds(layers@);
    }
    match best {
        Some(b) => layers[b].asset_path.clone(),
        None => String::new(),
    }
}

/// The phase a session enters while its pipeline starts.
pub fn starting_phase(kind: DestinationKind) -> (r: SessionPhase)
    ensures
        r == if kind == DestinationKind::RecordOnly {
            SessionPhase::Recording
        } else {
            SessionPhase::Connecting
        },
{
    if kind == DestinationKind::RecordOnly {
        SessionPhase::Recording
    } else {
        SessionPhase::Connecting
    }
}

/// A session start while `running` tells whether a pipeline already runs:
/// refused then, otherwise the phase the new session enters.
pub fn begin_session(running: bool, kind: DestinationKind) -> (r: Result<SessionPhase, String>)
    ensures
        running ==> (r matches Err(m) && m@ == "A StageBadger session is already running"@),
        !running ==> r == Ok::<SessionPhase, String>(
            if kind == DestinationKind::RecordOnly {
                SessionPhase::Recording
            } else {
                SessionPhase::Connecting
            },
        ),
{
    if running {
        Err(String::from_str("A StageBadger session is already running"))
    } else {
        Ok(starting_phase(kind))
    }
}

/// What the session logic reads and sets of a session's state, as plain
/// values: whether a pipeline process is held (`running`) and whether a
/// start instant is held (`timing`) stand for the process and the instant.
#[derive(Clone, Debug)]
pub struct SessionModel {
    pub running: bool,
    pub phase: SessionPhase,
    pub destination: Option<DestinationConfig>,
    pub recording_path: Option<String>,
    pub compacted_path: Option<String>,
    pub timing: bool,
    pub started_at_ms: Option<u64>,
    pub error: Option<String>,
}

/// The phase a session enters while its pipeline starts, by destination kind.
pub open spec fn starting_phase_spec(kind: DestinationKind) -> SessionPhase {
    if kind == DestinationKind::RecordOnly {
        SessionPhase::Recording
    } else {
        SessionPhase::Connecting
    }
}

/// The phase of a running pipeline, by destination kind.
pub open spec fn running_phase_spec(kind: DestinationKind) -> SessionPhase {
    if kind == DestinationKind::RecordOnly {
        SessionPhase::Recording
    } else {
        SessionPhase::Live
    }
}

/// Starts a session's state: refused while a pipeline runs (nothing
/// changes); otherwise the starting phase for the destination, the
/// destination and recording path set, no compacted copy, the start time
/// taken at `started_at_ms` and no error. The process is not held yet.
pub fn begin_session_state(
    s: &mut SessionModel,
    destination: DestinationConfig,
    recording_path: Option<String>,
    started_at_ms: u64,
) -> (r: Result<(), String>)
    ensures
        old(s).running ==> (r matches Err(m) && m@ == "A StageBadger session is already running"@
            && *final(s) == *old(s)),
        !old(s).running ==> r is Ok && *final(s) == (SessionModel {
            running: false,
            phase: starting_phase_spec(destination.kind),
            destination: Some(destination),
            recording_path,
            compacted_path: None,
            timing: true,
            started_at_ms: Some(started_at_ms),
            error: None,
        }),
{
    let kind = destination.kind;
    let phase = match begin_session(s.running, kind) {
        Ok(p) => p,
        Err(e) => return Err(e),
    };
    *s = SessionModel {
        running: false,
        phase,
        destination: Some(destination),
        recording_path,
        compacted_path: None,
        timing: true,
        started_at_ms: Some(started_at_ms),
        error: None,
    };
    Ok(())
}

/// The pipeline could not be started: the error phase with `message`;
/// nothing else changes.
pub fn pipeline_failed(s: &mut SessionModel, message: String)
    ensures
        *final(s) == (SessionModel { phase: SessionPhase::Error, error: Some(message), ..*old(s) }),
{
    s.phase = SessionPhase::Error;
    s.error = Some(message);
}

/// The pipeline runs for a destination of kind `kind`: its process is held
/// and the session is in the running phase; nothing else changes.
pub fn pipeline_started(s: &mut SessionModel, kind: DestinationKind)
    ensures
        *final(s) == (SessionModel { running: true, phase: running_phase_spec(kind), ..*old(s) }),
{
    s.phase = running_phase(kind);
    s.running = true;
}

/// Stopping begins: the stopping phase, and the process (killed) no longer
/// held; nothing else changes.
pub fn begin_stop(s: &mut SessionModel)
    ensures
        *final(s) == (SessionModel { running: false, phase: SessionPhase::Stopping, ..*old(s) }),
{
    s.phase = SessionPhase::Stopping;
    s.running = false;
}

/// The recording to compact after a stop: the session's recording when
/// compaction was asked for and the recording file exists.
pub fn compaction_target(s: &SessionModel, compact_after_stop: bool, recording_exists: bool) -> (r: Option<
    String,
>)
    ensures
        oview(r) == (if compact_after_stop && recording_exists {
            oview(s.recording_path)
        } else {
            None
        }),
{
    if compact_after_stop && recording_exists {
        match &s.recording_path {
            Some(p) => Some(p.clone()),
            None => None,
        }
    } else {
        None
    }
}

/// The stop is over: the compacted copy recorded when compaction gave one,
/// the idle phase and no start instant; the recording path, destination,
/// start time in milliseconds and the rest are kept.
pub fn finish_stop(s: &mut SessionModel, compacted: Option<String>)
    ensures
        final(s).compacted_path == (if compacted is Some {
            compacted
        } else {
            old(s).compacted_path
        }),
        *final(s) == (SessionModel {
            phase: SessionPhase::Idle,
            timing: false,
            compacted_path: final(s).compacted_path,
            ..*old(s)
        }),
{
    match compacted {
        Some(p) => s.compacted_path = Some(p),
        None => {},
    }
    s.phase = SessionPhase::Idle;
    s.timing = false;
}

/// The phase of a session whose pipeline runs.
pub fn running_phase(kind: DestinationKind) -> (r: SessionPhase)
    ensures
        r == if kind == DestinationKind::RecordOnly {
            SessionPhase::Recording
        } else {
            SessionPhase::Live
        },
{
    if kind == DestinationKind::RecordOnly {
        SessionPhase::Recording
    } else {
        SessionPhase::Live
    }
}

/// The video engine a session reports: the person-segmentation compositor
/// when depth of field is requested (direct capture stays the fallback),
/// else direct FFmpeg capture.
pub fn video_engine_status(depth_of_field: bool) -> (r: VideoEngineStatus)
    ensures
        r.depth_of_field == depth_of_field,
        r.fallback_active == !depth_of_field,
        r.queue_depth == 0,
        r.dropped_frames == 0,
        depth_of_field ==> r.engine@ == "vision-coreimage"@ && r.message@
            == "Native macOS person-segmentation compositor requested; direct FFmpeg capture remains available as fallback"@,
        !depth_of_field ==> r.engine@ == "direct-ffmpeg"@ && r.message@
            == "Direct FFmpeg capture path active"@,
{
    VideoEngineStatus {
        engine: if depth_of_field {
            String::from_str("vision-coreimage")
        } else {
            String::from_str("direct-ffmpeg")
        },
        depth_of_field,
        fallback_active: !depth_of_field,
        queue_depth: 0,
        dropped_frames: 0,
        message: if depth_of_field {
            String::from_str(
                "Native macOS person-segmentation compositor requested; direct FFmpeg capture remains available as fallback",
            )
        } else {
            String::from_str("Direct FFmpeg capture path active")
        },
    }
}

/// The label shown for a session: its destination's, or the studio's name.
pub fn status_destination_label(destination: &Option<DestinationConfig>) -> (r: String)
    ensures
        destination matches Some(d) ==> r@ == d.label@,
        destination is None ==> r@ == "StageBadger"@,
{
    match destination {
        Some(d) => d.label.clone(),
        None => String::from_str("StageBadger"),
    }
}

/// The FFmpeg arguments that re-encode a recording to HEVC, copying audio.
pub open spec fn compact_args_spec(input: Seq<char>, output: Seq<char>) -> Seq<Seq<char>> {
    seq![
        "-y"@,
        "-hide_banner"@,
        "-loglevel"@,
        "error"@,
        "-i"@,
        input,
        "-c:v"@,
        "hevc_videotoolbox"@,
        "-tag:v"@,
        "hvc1"@,
        "-c:a"@,
        "copy"@,
        output,
    ]
}

pub fn compact_args(input: &str, output: &str) -> (r: Vec<String>)
    ensures
        sviews(r@) == compact_args_spec(input@, output@),
{
    let mut r: Vec<String> = Vec::new();
    r.push(String::from_str("-y"));
    r.push(String::from_str("-hide_banner"));
    r.push(String::from_str("-loglevel"));
    r.push(String::from_str("error"));
    r.push(String::from_str("-i"));
    r.push(input.to_string());
    r.push(String::from_str("-c:v"));
    r.push(String::from_str("hevc_videotoolbox"));
    r.push(String::from_str("-tag:v"));
    r.push(String::from_str("hvc1"));
    r.push(String::from_str("-c:a"));
    r.push(String::from_str("copy"));
    r.push(output.to_string());
    assert(sviews(r@) =~= compact_args_spec(input@, output@));
    r
}

/// Where the compacted copy of a recording is written: beside it, with the
/// extension `compact.mov`.
pub fn compacted_recording_path(path: &str) -> (r: String)
    ensures
        r@ == crate::transcript::with_extension(path@, "compact.mov"@),
{
    proof {
        reveal_strlit("compact.mov");
    }
    crate::transcript::path_with_extension(path, "compact.mov")
}

/// A compacted recording is accepted only when neither file is empty.
pub fn check_compacted_sizes(input_size: u64, output_size: u64) -> (r: Result<(), String>)
    ensures
        (input_size > 0 && output_size > 0) <==> r is Ok,
        r matches Err(m) ==> m@ == "Compacted recording did not verify"@,
{
    if output_size == 0 || input_size == 0 {
        Err(String::from_str("Compacted recording did not verify"))
    } else {
        Ok(())
    }
}

/// Where a web-relative overlay (`/overlays/x.png`) is looked for: under the
/// project's `public` directory. Absolute paths on a volume or in a home
/// directory, and relative paths, are used as given (`None`).
pub open spec fn overlay_candidate_spec(overlay_path: Seq<char>, project_root: Seq<char>) -> Option<
    Seq<char>,
> {
    if starts_with(overlay_path, "/"@) && !starts_with(overlay_path, "/Volumes"@) && !starts_with(
        overlay_path,
        "/Users"@,
    ) {
        Some(project_root + "/public"@ + overlay_path)
    } else {
        None
    }
}

pub fn overlay_candidate(overlay_path: &str, project_root: &str) -> (r: Option<String>)
    ensures
        match overlay_candidate_spec(overlay_path@, project_root@) {
            Some(c) => r matches Some(x) && x@ == c,
            None => r is None,
        },
{
    let p = chars_of(overlay_path);
    if starts_with_chars(&p, &chars_of("/")) && !starts_with_chars(&p, &chars_of("/Volumes"))
        && !starts_with_chars(&p, &chars_of("/Users")) {
        let mut c = project_root.to_string();
        c.push_str("/public");
        c.push_str(overlay_path);
        proof {
            reveal_strlit("/public");
        }
        assert(c@ =~= project_root@ + "/public"@ + overlay_path@);
        Some(c)
    } else {
        None
    }
}

/// The overlay formats that keep transparency.
pub open spec fn overlay_format(ext: Seq<char>) -> bool {
    ext == "png"@ || ext == "svg"@ || ext == "webp"@
}

/// An imported overlay's extension, lowercased, when it is one of the
/// transparent formats.
pub fn overlay_extension(extension: Option<&str>) -> (r: Result<String, String>)
    ensures
        match extension {
            None => r matches Err(m) && m@ == "Overlay asset needs a file extension"@,
            Some(e) => if overlay_format(lower(e@)) {
                r matches Ok(x) && x@ == lower(e@)
            } else {
                r matches Err(m) && m@ == "Overlay assets must be transparent PNG, SVG, or WebP files"@
            },
        },
{
    let e = match extension {
        Some(e) => e,
        None => {
            return Err(String::from_str("Overlay asset needs a file extension"));
        },
    };
    let l = lower_chars(&chars_of(e));
    if crate::destinations::chars_equal(&l, &chars_of("png")) || crate::destinations::chars_equal(
        &l,
        &chars_of("svg"),
    ) || crate::destinations::chars_equal(&l, &chars_of("webp")) {
        Ok(crate::text::string_of(&l))
    } else {
        Err(String::from_str("Overlay assets must be transparent PNG, SVG, or WebP files"))
    }
}


/// The id and file name of an imported overlay asset: `overlay-` and the
/// import time, then the lowercased extension.
pub fn overlay_asset_names(now: u64, extension: &str) -> (r: (String, String))
    ensures
        r.0@ == "overlay-"@ + crate::text::decimal(now as nat),
        r.1@ == "overlay-"@ + crate::text::decimal(now as nat) + "."@ + extension@,
{
    let mut id = String::from_str("overlay-");
    crate::text::push_decimal(&mut id, now);
    let mut file = id.clone();
    file.push_str(".");
    file.push_str(extension);
    proof {
        reveal_strlit("overlay-");
        reveal_strlit(".");
    }
    (id, file)
}

/// The first position of `id` among `ids`: where an updated overlay
/// replaces the one it names; `None` when it is new.
pub fn position_of_id(ids: &Vec<String>, id: &str) -> (r: Option<usize>)
    ensures
        match r {
            Some(i) => i < ids.len() && ids@[i as int]@ == id@ && forall|j: int|
                0 <= j < i ==> ids@[j]@ != id@,
            None => forall|j: int| 0 <= j < ids.len() ==> ids@[j]@ != id@,
        },
{
    for i in 0..ids.len()
        invariant
            forall|j: int| 0 <= j < i ==> ids@[j]@ != id@,
    {
        if crate::destinations::str_eq(ids[i].as_str(), id) {
            return Some(i);
        }
    }
    None
}

} // verus!
