# stagebadger

The control plane of a live-streaming studio, verified with Verus: FFmpeg
argument vectors and filter graphs, RTMP(S) destinations and their stream
keys, the YouTube chat overlay and broadcast set-up, FFmpeg progress
telemetry, and the two-model live transcription (overlap trimming, model
choice, caption files).

## Layout

- `src/` — the verified library.
  - `text.rs` — characters and strings: trimming, search, replacement,
    decimal numbers, UTF-8 byte lengths, joining.
  - `types.rs` — the plain data exchanged with the front end.
  - `ffmpeg.rs` — device listing, recording paths, redaction, filter graphs
    and argument vectors.
  - `session.rs` — session decisions: recording, overlays, phases, the video
    engine, compaction.
  - `telemetry.rs` — FFmpeg progress lines.
  - `destinations.rs` — server URLs, stream keys, saved destinations.
  - `youtube.rs`, `chat.rs` — YouTube broadcast statuses, chat URLs and the
    chat overlay.
  - `asr.rs`, `transcript.rs`, `live.rs` — recognition results, words,
    windows, overlap trimming, the merge of two models, captions.
- `tests/` — tests of the library.
- `app/` — the Tauri application around the library: processes, files, the
  keychain, HTTP, audio capture, model inference and everything computed in
  floating point.
