use stagebadger::transcript::{
    append_segment_text, audio_window_ms, build_prompt_tail, build_srt, build_vtt, centiseconds_to_ms,
    chunk_ranges, device_matches, enough_window_samples, extract_audio_args, format_segment_range,
    format_timestamp_srt, format_timestamp_vtt, is_noise_text, live_chunk_start_ms, merge_deadline_ms,
    normalize_token_text, overlap_prefix_len, recognized_word_text, sanitize_text, tail_start,
    token_word_span, transcript_artifact_paths, transcript_tail_text, wants_default_input,
    window_start_ms, word_lcs_len, words_to_text, CaptionCue, FINAL_HOP_SAMPLES, FINAL_WINDOW_SAMPLES,
};

fn words(items: &[&str]) -> Vec<String> {
    items.iter().map(|s| s.to_string()).collect()
}

#[test]
fn normalize_token_text_strips_punctuation() {
    assert_eq!(normalize_token_text("Hello, World!"), "helloworld");
}

#[test]
fn trim_overlap_prefix_removes_committed_tail() {
    let tail = words(&["hello", "world"]);
    let candidate = words(&["hello", "world", "again"]);
    let dropped = overlap_prefix_len(&candidate, &tail);
    let trimmed = &candidate[dropped..];
    assert_eq!(trimmed.len(), 1);
    assert_eq!(trimmed[0], "again");
}

#[test]
fn word_lcs_ratio_scores_agreement() {
    let left = words(&["hello", "world"]);
    let right = words(&["hello", "world"]);
    let shared = word_lcs_len(&left, &right);
    assert_eq!(shared, 2);
    assert_eq!(shared, left.len().max(right.len()));
}

#[test]
fn build_srt_and_vtt_include_timestamped_segments() {
    let cues = vec![CaptionCue { start_ms: 1000, end_ms: 2000, text: "Hello world".to_string() }];
    let srt = build_srt(&cues);
    let vtt = build_vtt(&cues);
    assert!(srt.contains("00:00:01,000 --> 00:00:02,000"));
    assert!(vtt.contains("WEBVTT"));
    assert!(vtt.contains("00:00:01.000 --> 00:00:02.000"));
}

#[test]
fn transcript_artifact_paths_use_media_stem() {
    let (json, srt, vtt) = transcript_artifact_paths("/tmp/example.mov");
    assert_eq!(json, "/tmp/example.transcript.json");
    assert_eq!(srt, "/tmp/example.srt");
    assert_eq!(vtt, "/tmp/example.vtt");
}

#[test]
fn exact_caption_files() {
    let cues = vec![
        CaptionCue { start_ms: 0, end_ms: 1500, text: "one".to_string() },
        CaptionCue { start_ms: 3_723_004, end_ms: 3_725_000, text: "two".to_string() },
    ];
    assert_eq!(
        build_srt(&cues),
        "1\n00:00:00,000 --> 00:00:01,500\none\n\n2\n01:02:03,004 --> 01:02:05,000\ntwo\n\n"
    );
    assert_eq!(
        build_vtt(&cues),
        "WEBVTT\n\n00:00:00.000 --> 00:00:01.500\none\n\n01:02:03.004 --> 01:02:05.000\ntwo\n\n"
    );
    assert_eq!(build_vtt(&Vec::new()), "WEBVTT\n\n");
    assert_eq!(build_srt(&Vec::new()), "");
}

#[test]
fn timestamps_and_ranges() {
    assert_eq!(format_timestamp_srt(0), "00:00:00,000");
    assert_eq!(format_timestamp_vtt(90_061_001), "25:01:01.001");
    assert_eq!(format_timestamp_srt(360_000_000), "100:00:00,000");
    assert_eq!(format_segment_range(1000, 2500), "00:00:01.000 - 00:00:02.500");
}

#[test]
fn sanitize_and_noise() {
    assert_eq!(sanitize_text("  Hello,   World! 42 "), "hello world 42");
    assert_eq!(sanitize_text("..."), "");
    assert!(is_noise_text("  [Music] "));
    assert!(is_noise_text("(applause)"));
    assert!(is_noise_text(" ... "));
    assert!(is_noise_text("Thank you for coming"));
    assert!(is_noise_text("   "));
    assert!(!is_noise_text("hello"));
}

#[test]
fn words_become_running_text() {
    assert_eq!(words_to_text(&words(&[" Hello", ",", " world", "  ", "!"])), "Hello, world!");
    assert_eq!(words_to_text(&words(&[])), "");
}

#[test]
fn prompt_tail_keeps_last_twelve_words() {
    let many: Vec<String> = (0..15).map(|i| format!(" w{} ", i)).collect();
    assert_eq!(build_prompt_tail(&many), "w3 w4 w5 w6 w7 w8 w9 w10 w11 w12 w13 w14");
    assert_eq!(build_prompt_tail(&words(&["a", "  ", "b"])), "a b");
    let segments = vec![words(&["one", "two"]), words(&["three"])];
    assert_eq!(transcript_tail_text(&segments), "one two three");
}

#[test]
fn overlap_is_longest_match() {
    let tail = words(&["a", "b", "a", "b"]);
    let candidate = words(&["A!", "b", "c"]);
    assert_eq!(overlap_prefix_len(&candidate, &tail), 2);
    assert_eq!(overlap_prefix_len(&words(&["x"]), &tail), 0);
    assert_eq!(overlap_prefix_len(&words(&[]), &tail), 0);
}

#[test]
fn lcs_counts_shared_words_in_order() {
    assert_eq!(word_lcs_len(&words(&["a", "b", "c", "d"]), &words(&["b", "d", "a"])), 2);
    assert_eq!(word_lcs_len(&words(&[]), &words(&["a"])), 0);
}

#[test]
fn chunk_windows() {
    assert_eq!(chunk_ranges(10, 4, 3), vec![(0, 4), (3, 7), (6, 10)]);
    assert_eq!(chunk_ranges(10, 4, 0), vec![(0, 4), (1, 5), (2, 6), (3, 7), (4, 8), (5, 9), (6, 10)]);
    assert_eq!(chunk_ranges(0, 4, 3), vec![]);
    assert_eq!(chunk_ranges(5, 10, 3), vec![(0, 5)]);
    assert_eq!(FINAL_WINDOW_SAMPLES, 128_000);
    assert_eq!(FINAL_HOP_SAMPLES, 96_000);
}

#[test]
fn timing_helpers() {
    assert_eq!(centiseconds_to_ms(-5), 0);
    assert_eq!(centiseconds_to_ms(123), 1230);
    assert_eq!(token_word_span(1000, 10, 20, 0, 0), (1100, 1200));
    assert_eq!(token_word_span(1000, -1, -1, 5, 3), (1050, 1050));
    assert_eq!(token_word_span(1000, 7, -1, 0, 0), (1070, 1080));
    assert_eq!(window_start_ms(500, 32_000), 2_500);
    assert_eq!(live_chunk_start_ms(10_000, 3), 14_000);
    assert_eq!(audio_window_ms(), 2_000);
    assert_eq!(merge_deadline_ms(), 800);
    assert!(!enough_window_samples(7_999));
    assert!(enough_window_samples(8_000));
}

#[test]
fn recognized_words_and_segment_text() {
    assert_eq!(recognized_word_text("  Hello "), Some("Hello".to_string()));
    assert_eq!(recognized_word_text(" [BLANK_AUDIO]"), None);
    assert_eq!(recognized_word_text("   "), None);
    let mut raw = String::new();
    append_segment_text(&mut raw, "  first  ");
    append_segment_text(&mut raw, "   ");
    append_segment_text(&mut raw, "second");
    assert_eq!(raw, "first second");
    assert_eq!(tail_start(20, 12), 8);
    assert_eq!(tail_start(5, 12), 0);
}

#[test]
fn audio_extraction_and_devices() {
    let args = extract_audio_args("/in.mov", "/out.wav");
    assert_eq!(args.first().map(|s| s.as_str()), Some("-y"));
    assert_eq!(args.last().map(|s| s.as_str()), Some("/out.wav"));
    assert!(args.contains(&"pcm_s16le".to_string()));
    assert!(wants_default_input("  "));
    assert!(wants_default_input("0"));
    assert!(!wants_default_input("USB Mic"));
    assert!(device_matches("USB Condenser Mic", "usb condenser"));
    assert!(device_matches("Mic", "MIC"));
    assert!(!device_matches("Built-in", "USB"));
}
