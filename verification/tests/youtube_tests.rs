use stagebadger::youtube::{bind_broadcast_url, bound_status, connection_status, oauth_missing_status, required_id};

#[test]
fn connection_messages() {
    let on = connection_status(true);
    assert!(on.connected);
    assert_eq!(on.message, "YouTube OAuth token available from the OS keychain");
    let off = connection_status(false);
    assert!(!off.connected);
    assert!(off.stream_key.is_none());
    assert_eq!(
        oauth_missing_status().message,
        "YouTube OAuth is not connected. Manual RTMP/key fallback is available."
    );
}

#[test]
fn bind_and_bound_status() {
    assert_eq!(
        bind_broadcast_url("b1", "s1"),
        "https://www.googleapis.com/youtube/v3/liveBroadcasts/bind?part=id,contentDetails&id=b1&streamId=s1"
    );
    let status = bound_status(
        "b1".to_string(),
        "s1".to_string(),
        Some("chat".to_string()),
        None,
        Some("rtmp://ingest".to_string()),
        Some("key".to_string()),
    );
    assert!(status.connected);
    assert_eq!(status.ingest_url.as_deref(), Some("rtmp://ingest"));
    assert_eq!(status.broadcast_id.as_deref(), Some("b1"));
    let preferred = bound_status("b".into(), "s".into(), None, Some("rtmps://x".into()), Some("rtmp://y".into()), None);
    assert_eq!(preferred.ingest_url.as_deref(), Some("rtmps://x"));
    assert_eq!(required_id(None, "YouTube did not return a stream id").unwrap_err(), "YouTube did not return a stream id");
    assert_eq!(required_id(Some("id".into()), "x").unwrap(), "id");
}
