use stagebadger::chat::{
    chat_overlay_display, format_chat_message, format_chat_overlay, parse_polling_interval_millis,
    poll_list_url, stream_list_url, MAX_VISIBLE_MESSAGES,
};
use stagebadger::types::ChatMessage;

fn sample_message(id: &str, text: &str) -> ChatMessage {
    ChatMessage {
        id: id.to_string(),
        author: "Taylor".to_string(),
        message: text.to_string(),
        role: Some("member".to_string()),
        published_at: None,
        amount_display: None,
        is_super_chat: false,
    }
}

#[test]
fn test_format_chat_message_with_role() {
    let msg = sample_message("1", "Hello chat");
    assert_eq!(format_chat_message(&msg), "Taylor [member]: Hello chat");
}

#[test]
fn test_format_chat_message_with_super_chat() {
    let mut msg = sample_message("1", "Great stream");
    msg.is_super_chat = true;
    msg.amount_display = Some("$20.00".to_string());
    assert_eq!(format_chat_message(&msg), "Taylor [member] $20.00: Great stream");
}

#[test]
fn test_format_chat_overlay_limits_visible_messages() {
    let messages: Vec<ChatMessage> = (0..25)
        .map(|idx| sample_message(&idx.to_string(), &format!("message {}", idx)))
        .collect();
    let overlay = format_chat_overlay(&messages);
    assert_eq!(overlay.lines().count(), MAX_VISIBLE_MESSAGES);
    assert!(overlay.contains("message 24"));
    assert!(!overlay.contains("message 0"));
}

#[test]
fn test_stream_list_url_uses_live_chat_id() {
    let url = stream_list_url("abc123");
    assert!(url.contains("liveChatId=abc123"));
    assert!(url.contains("messages:stream"));
}

#[test]
fn test_poll_list_url_includes_page_token() {
    let url = poll_list_url("abc123", Some("next"));
    assert!(url.contains("pageToken=next"));
}

#[test]
fn test_polling_interval_bounds() {
    assert_eq!(parse_polling_interval_millis(Some(100)).as_millis(), 500);
    assert_eq!(parse_polling_interval_millis(Some(60_000)).as_millis(), 30_000);
    assert_eq!(parse_polling_interval_millis(None).as_millis(), 2_000);
}

#[test]
fn polling_interval_keeps_values_inside_bounds() {
    assert_eq!(parse_polling_interval_millis(Some(500)).as_millis(), 500);
    assert_eq!(parse_polling_interval_millis(Some(1_234)).as_millis(), 1_234);
    assert_eq!(parse_polling_interval_millis(Some(30_000)).as_millis(), 30_000);
}

#[test]
fn chat_message_without_role_or_amount() {
    let mut msg = sample_message("1", "hi");
    msg.role = None;
    msg.amount_display = Some("$5.00".to_string());
    assert_eq!(format_chat_message(&msg), "Taylor: hi");
}

#[test]
fn chat_overlay_keeps_order_and_latest_ten() {
    let messages: Vec<ChatMessage> = (0..12)
        .map(|idx| sample_message(&idx.to_string(), &format!("m{}", idx)))
        .collect();
    let overlay = format_chat_overlay(&messages);
    let lines: Vec<&str> = overlay.lines().collect();
    assert_eq!(lines.len(), 10);
    assert_eq!(lines[0], "Taylor [member]: m2");
    assert_eq!(lines[9], "Taylor [member]: m11");
}

#[test]
fn chat_overlay_display_when_disconnected() {
    assert_eq!(chat_overlay_display(&[]), "YouTube chat disconnected");
    let one = vec![sample_message("1", "hey")];
    assert_eq!(chat_overlay_display(&one), "Taylor [member]: hey");
}

#[test]
fn exact_chat_urls() {
    assert_eq!(
        stream_list_url("c1"),
        "https://www.googleapis.com/youtube/v3/liveChat/messages:stream?part=snippet,authorDetails&liveChatId=c1"
    );
    assert_eq!(
        poll_list_url("c1", None),
        "https://www.googleapis.com/youtube/v3/liveChat/messages?part=snippet,authorDetails&liveChatId=c1"
    );
    assert_eq!(
        poll_list_url("c1", Some("p2")),
        "https://www.googleapis.com/youtube/v3/liveChat/messages?part=snippet,authorDetails&liveChatId=c1&pageToken=p2"
    );
}
