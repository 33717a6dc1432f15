use stagebadger::live::{build_live_update, fuse_model_spans, ModelSide, ModelWords, TimedWord, TranscriptCursor};

fn word(text: &str, start_ms: u64, end_ms: u64, chunk_id: u64) -> TimedWord {
    TimedWord { text: text.to_string(), start_ms, end_ms, chunk_id }
}

fn span(words: Vec<TimedWord>, start_ms: u64, end_ms: u64) -> ModelWords {
    ModelWords { words, start_ms, end_ms }
}

#[test]
fn build_live_update_uses_visible_tail_after_overlap_trim() {
    let committed_tail = vec!["hello".to_string()];
    let left = span(vec![word("hello", 0, 100, 2), word("world", 110, 220, 2)], 0, 220);
    let right = span(vec![word("hello", 0, 100, 2), word("world", 110, 220, 2)], 0, 220);
    // the right model reported 0.88 against the left model's 0.62
    let update = build_live_update(&left, &right, &committed_tail, true).expect("live update");
    assert_eq!(update.text, "world");
    assert_eq!(update.side, ModelSide::Right);
    assert_eq!((update.first, update.end), (1, 2));
    assert_eq!((update.start_ms, update.end_ms), (110, 220));
}

#[test]
fn live_update_prefers_the_model_with_new_words() {
    let tail = vec!["a".to_string(), "b".to_string()];
    let left = span(vec![word("a", 0, 1, 1), word("b", 1, 2, 1)], 0, 2);
    let right = span(vec![word("a", 0, 1, 1), word("b", 1, 2, 1), word("c", 2, 3, 1)], 0, 3);
    let update = build_live_update(&left, &right, &tail, false).unwrap();
    assert_eq!(update.side, ModelSide::Right);
    assert_eq!(update.text, "c");
}

#[test]
fn live_update_shows_last_twelve_words_when_all_repeat() {
    let texts: Vec<String> = (0..14).map(|i| format!("w{}", i)).collect();
    let ws: Vec<TimedWord> = texts.iter().enumerate().map(|(i, t)| word(t, i as u64, i as u64 + 1, 1)).collect();
    let left = span(ws.clone(), 0, 14);
    let right = span(Vec::new(), 0, 0);
    // nothing repeats the (empty) tail, so the left words are all new
    let update = build_live_update(&left, &right, &Vec::new(), true).unwrap();
    assert_eq!(update.side, ModelSide::Left);
    assert_eq!((update.first, update.end), (2, 14));
    assert_eq!(update.text, "w2 w3 w4 w5 w6 w7 w8 w9 w10 w11 w12 w13");
    assert_eq!((update.start_ms, update.end_ms), (0, 14));
}

#[test]
fn live_update_none_without_words() {
    let empty = span(Vec::new(), 0, 0);
    assert!(build_live_update(&empty, &empty, &Vec::new(), false).is_none());
}

#[test]
fn fused_segment_takes_confident_model_and_keeps_alternate() {
    let tail = vec!["hello".to_string()];
    let left = span(vec![word("hello", 0, 100, 7), word("world", 110, 220, 7)], 0, 220);
    let right = span(vec![word("hello", 0, 100, 7), word("there", 120, 260, 7)], 0, 260);
    let segment = fuse_model_spans(&left, &right, &tail, false).unwrap();
    assert_eq!(segment.side, ModelSide::Left);
    assert_eq!(segment.first, 1);
    assert_eq!(segment.text, "world");
    assert_eq!(segment.id, "chunk-000007");
    assert_eq!(segment.chunk_id, 7);
    assert_eq!((segment.start_ms, segment.end_ms), (110, 220));
    assert_eq!(segment.alternate_first, Some(1));
    assert_eq!(segment.alternate_text.as_deref(), Some("there"));
}

#[test]
fn fused_segment_none_when_everything_repeats() {
    let tail = vec!["hello".to_string()];
    let left = span(vec![word("hello", 0, 100, 1)], 0, 100);
    let right = span(vec![word("Hello!", 0, 100, 1)], 0, 100);
    assert!(fuse_model_spans(&left, &right, &tail, true).is_none());
}

#[test]
fn fused_segment_without_alternate() {
    let tail = vec!["x".to_string()];
    let left = span(vec![word("x", 0, 10, 3)], 0, 10);
    let right = span(vec![word("x", 0, 10, 3), word("y", 10, 20, 3)], 0, 20);
    let segment = fuse_model_spans(&left, &right, &tail, false).unwrap();
    assert_eq!(segment.side, ModelSide::Right);
    assert_eq!(segment.text, "y");
    assert_eq!(segment.alternate_first, None);
    assert_eq!(segment.alternate_text, None);
}

#[test]
fn cursor_tracks_windows_and_tail() {
    let mut cursor = TranscriptCursor::new();
    assert_eq!(cursor.begin_live_window(1_000, 3_999), None);
    assert_eq!(cursor.begin_live_window(1_000, 32_000), Some((1, 1_000)));
    assert_eq!(cursor.begin_live_window(1_000, 32_000), Some((2, 3_000)));
    assert_eq!(cursor.prompt(), "");

    let left = span((0..10).map(|i| word(&format!("a{}", i), i, i + 1, 2)).collect(), 0, 10);
    let right = span(Vec::new(), 0, 0);
    let seg = cursor.commit_window(&left, &right, true).unwrap();
    assert_eq!(seg.side, ModelSide::Left);
    assert_eq!(cursor.tail.len(), 10);

    let next = span(
        vec![word("a8", 20, 21, 3), word("a9", 21, 22, 3), word("b0", 22, 23, 3), word("b1", 23, 24, 3), word("b2", 24, 25, 3)],
        20,
        25,
    );
    let seg2 = cursor.commit_window(&next, &right, false).unwrap();
    assert_eq!(seg2.first, 2);
    assert_eq!(seg2.text, "b0 b1 b2");
    assert_eq!(cursor.tail.len(), 12);
    assert_eq!(cursor.tail[11].text, "b2");
    assert_eq!(cursor.tail[0].text, "a1");
    assert_eq!(cursor.prompt(), "a1 a2 a3 a4 a5 a6 a7 a8 a9 b0 b1 b2");
    assert!(cursor.commit_window(&right, &right, true).is_none());
    assert_eq!(cursor.tail.len(), 12);
}

#[test]
fn committed_segment_keeps_times_id_and_alternate() {
    let mut cursor = TranscriptCursor::new();
    let left = span(vec![word("hello", 100, 150, 3), word("there", 160, 220, 3)], 100, 220);
    let right = span(vec![word("hello", 100, 150, 3), word("their", 160, 230, 3)], 100, 230);
    let segment = cursor.commit_window(&left, &right, false).unwrap();
    assert_eq!(segment.side, ModelSide::Left);
    assert_eq!((segment.start_ms, segment.end_ms), (100, 220));
    assert_eq!(segment.chunk_id, 3);
    assert_eq!(segment.id, "chunk-000003");
    assert_eq!(segment.alternate_first, Some(0));
    assert_eq!(segment.alternate_text.as_deref(), Some("hello their"));
}
