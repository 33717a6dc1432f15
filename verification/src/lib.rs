//! Control-plane logic of a live-streaming studio: FFmpeg argument and
//! filter-graph construction, RTMP destination handling, chat overlay
//! formatting and transcript text processing.
pub mod text;
pub mod types;
pub mod ffmpeg;
pub mod destinations;
pub mod chat;
pub mod transcript;
pub mod asr;
pub mod live;
pub mod session;
pub mod youtube;
pub mod telemetry;
