use stagebadger::asr::{
    enough_audio, keep_token, retained_token_indices, should_filter_result, worker_outcome,
};

#[test]
fn test_should_filter_result_blank_audio() {
    assert!(should_filter_result("[BLANK_AUDIO]"));
    assert!(should_filter_result("[BLANK"));
    assert!(should_filter_result(""));
    assert!(should_filter_result("."));
    assert!(should_filter_result("..."));
    assert!(should_filter_result("(water splashing)"));
    assert!(!should_filter_result("Hello world"));
}

#[test]
fn test_filter_tokens_removes_specials() {
    let tokens = vec![
        " Hello".to_string(),
        "[BLANK".to_string(),
        " world".to_string(),
        "(noise)".to_string(),
    ];
    let kept = retained_token_indices(&tokens);
    assert_eq!(kept.len(), 2);
    assert_eq!(tokens[kept[0]], " Hello");
    assert_eq!(tokens[kept[1]], " world");
}

#[test]
fn filter_result_sign_offs() {
    assert!(should_filter_result("Thanks for watching!"));
    assert!(should_filter_result("Thank you."));
    assert!(should_filter_result("Bye."));
    assert!(!should_filter_result("...and then"));
}

#[test]
fn keep_token_rules() {
    assert!(keep_token(" word "));
    assert!(!keep_token("   "));
    assert!(!keep_token(" [music]"));
    assert!(!keep_token("(laughs)"));
    assert!(!keep_token("BLANK"));
}

#[test]
fn worker_outcome_decisions() {
    let tokens = vec![" Hello".to_string(), "[BLANK".to_string()];
    assert_eq!(worker_outcome("  Hello  ", &tokens), Some(vec![0]));
    assert_eq!(worker_outcome(" [BLANK_AUDIO] ", &tokens), None);
    let noise = vec!["(noise)".to_string()];
    assert_eq!(worker_outcome("Hello", &noise), None);
}

#[test]
fn enough_audio_is_half_a_second() {
    assert!(!enough_audio(23_999, 48_000));
    assert!(enough_audio(24_000, 48_000));
}
