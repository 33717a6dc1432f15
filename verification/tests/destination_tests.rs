use std::cell::RefCell;
use std::collections::HashMap;

use stagebadger::destinations::{
    key_on_file,
    delete_destination, find_destination, join_server_and_key, load_destinations,
    mark_destination_used, mark_destination_used_at, normalize_server_url, redact_stream_key,
    redacted_destination_url, resolve_manual_destination_at, save_destination, save_destination_at,
    test_inline_destination, test_rtmp_destination,
    validate_stream_key, ManualDestinationStore, SecretStore, YOUTUBE_RTMPS_SERVER,
};
use stagebadger::types::{
    DestinationConfig, DestinationKind, ManualDestinationSaveRequest, ManualDestinationTestInput,
    ManualDestinationTestRequest, SecretWriteRequest,
};

#[derive(Default)]
struct MemorySecrets(RefCell<HashMap<String, String>>);

impl SecretStore for MemorySecrets {
    fn save(&self, request: &SecretWriteRequest) -> Result<(), String> {
        self.0
            .borrow_mut()
            .insert(request.destination_id.clone(), request.stream_key.clone());
        Ok(())
    }

    fn load(&self, destination_id: &str) -> Result<Option<String>, String> {
        Ok(self.0.borrow().get(destination_id).cloned())
    }

    fn delete(&self, destination_id: &str) -> Result<(), String> {
        self.0.borrow_mut().remove(destination_id);
        Ok(())
    }
}

fn youtube_request(key: Option<&str>) -> ManualDestinationSaveRequest {
    ManualDestinationSaveRequest {
        id: Some("youtube-1".to_string()),
        label: "YouTube RTMPS".to_string(),
        provider: "youtube".to_string(),
        server_url: "rtmps://a.rtmps.youtube.com/live2".to_string(),
        stream_key: key.map(|k| k.to_string()),
        default_privacy_note: Some("Confirm privacy in YouTube Studio".to_string()),
        confirmed_live_enabled: true,
    }
}

#[test]
fn normalizes_rtmp_server_urls() {
    assert_eq!(
        normalize_server_url(" rtmps://a.rtmps.youtube.com/live2 ").unwrap(),
        YOUTUBE_RTMPS_SERVER
    );
    assert!(normalize_server_url("https://example.com/live").is_err());
}

#[test]
fn keychain_wrapper_can_be_mocked_for_save_load_delete() {
    let secrets = MemorySecrets::default();
    let request = SecretWriteRequest {
        destination_id: "youtube-1".to_string(),
        stream_key: "abcd-1234".to_string(),
    };

    secrets.save(&request).unwrap();
    assert_eq!(secrets.load("youtube-1").unwrap(), Some("abcd-1234".to_string()));
    secrets.delete("youtube-1").unwrap();
    assert_eq!(secrets.load("youtube-1").unwrap(), None);
}

#[test]
fn save_and_load_manual_destination_keeps_secret_out_of_config() {
    let mut store = ManualDestinationStore { destinations: Vec::new() };
    let secrets = MemorySecrets::default();
    let saved = save_destination_at(&mut store, &secrets, youtube_request(Some("abcd-1234")), 1_000).unwrap();

    assert!(saved.has_saved_key);
    let content = format!("{:?}", store);
    assert!(!content.contains("abcd-1234"));
    let loaded = load_destinations(&store, &secrets).unwrap();
    assert_eq!(loaded[0].server_url, YOUTUBE_RTMPS_SERVER);
    assert!(loaded[0].has_saved_key);
}

#[test]
fn destination_validation_rejects_empty_key_and_invalid_url() {
    let empty_key = test_inline_destination(ManualDestinationTestInput {
        server_url: YOUTUBE_RTMPS_SERVER.to_string(),
        stream_key: Some(" ".to_string()),
    });
    assert!(!empty_key.ok);

    let invalid_url = test_inline_destination(ManualDestinationTestInput {
        server_url: "https://youtube.com/live".to_string(),
        stream_key: Some("abcd-1234".to_string()),
    });
    assert!(!invalid_url.ok);
}

#[test]
fn redacted_result_never_contains_stream_key() {
    let result = test_inline_destination(ManualDestinationTestInput {
        server_url: YOUTUBE_RTMPS_SERVER.to_string(),
        stream_key: Some("super-secret-key".to_string()),
    });

    assert!(result.ok);
    let redacted_url = result.redacted_url.unwrap();
    assert!(!redacted_url.contains("super-secret-key"));
    assert!(redacted_url.contains("[redacted]"));
}

#[test]
fn server_url_error_messages() {
    assert_eq!(normalize_server_url("   ").unwrap_err(), "Enter an RTMP or RTMPS server URL.");
    assert_eq!(
        normalize_server_url("http://x").unwrap_err(),
        "Server URL must start with rtmp:// or rtmps://."
    );
    assert_eq!(
        normalize_server_url("rtmp://a b").unwrap_err(),
        "Server URL cannot contain spaces."
    );
    assert_eq!(normalize_server_url("RTMP://host/app/").unwrap(), "RTMP://host/app/");
}

#[test]
fn stream_key_validation_and_join() {
    assert_eq!(validate_stream_key("  abc  ").unwrap(), "abc");
    assert_eq!(
        validate_stream_key("   ").unwrap_err(),
        "Enter a stream key before saving this destination."
    );
    assert_eq!(validate_stream_key("a b").unwrap_err(), "Stream key cannot contain spaces.");
    assert_eq!(
        join_server_and_key("rtmp://host/live", " key1 ").unwrap(),
        "rtmp://host/live/key1"
    );
    assert!(join_server_and_key("ftp://host", "k").is_err());
}

#[test]
fn stream_key_redaction() {
    assert_eq!(redact_stream_key(" short "), "[redacted]");
    assert_eq!(redact_stream_key("abcdefghijkl"), "abcd...[redacted]");
    assert_eq!(
        redacted_destination_url("rtmp://host/live", "abcdefghijkl").unwrap(),
        "rtmp://host/live/abcd...[redacted]"
    );
}

#[test]
fn save_then_find_then_delete() {
    let mut store = ManualDestinationStore { destinations: Vec::new() };
    let secrets = MemorySecrets::default();
    save_destination_at(&mut store, &secrets, youtube_request(Some("abcd-1234")), 5).unwrap();
    let found = find_destination(&store, "youtube-1").unwrap();
    assert_eq!(found.label, "YouTube RTMPS");
    assert_eq!(found.server_url, YOUTUBE_RTMPS_SERVER);
    assert_eq!(found.last_used_at, Some(5));

    assert!(mark_destination_used_at(&mut store, "youtube-1", 9));
    assert_eq!(find_destination(&store, "youtube-1").unwrap().last_used_at, Some(9));
    assert!(!mark_destination_used_at(&mut store, "missing", 9));

    delete_destination(&mut store, &secrets, "youtube-1").unwrap();
    assert!(find_destination(&store, "youtube-1").is_none());
    assert_eq!(secrets.load("youtube-1").unwrap(), None);
}

#[test]
fn save_without_key_for_new_destination_fails() {
    let mut store = ManualDestinationStore { destinations: Vec::new() };
    let secrets = MemorySecrets::default();
    let err = save_destination_at(&mut store, &secrets, youtube_request(None), 5).unwrap_err();
    assert_eq!(err, "Enter a stream key before saving this destination.");
    assert!(store.destinations.is_empty());
}

#[test]
fn saved_destination_test_uses_secret_store() {
    let mut store = ManualDestinationStore { destinations: Vec::new() };
    let secrets = MemorySecrets::default();
    save_destination_at(&mut store, &secrets, youtube_request(Some("super-secret-key")), 5).unwrap();
    let result = test_rtmp_destination(
        &store,
        &secrets,
        ManualDestinationTestRequest { destination_id: Some("youtube-1".to_string()), inline_destination: None },
    )
    .unwrap();
    assert!(result.ok);
    assert_eq!(result.redacted_url.unwrap(), "rtmps://a.rtmps.youtube.com/live2/supe...[redacted]");

    let missing = test_rtmp_destination(
        &store,
        &secrets,
        ManualDestinationTestRequest { destination_id: Some("nope".to_string()), inline_destination: None },
    )
    .unwrap();
    assert!(!missing.ok);
    assert_eq!(missing.message, "Saved destination was not found.");
}

#[test]
fn resolving_a_saved_destination_fills_url_and_key() {
    let mut store = ManualDestinationStore { destinations: Vec::new() };
    let secrets = MemorySecrets::default();
    save_destination_at(&mut store, &secrets, youtube_request(Some("abcd-1234")), 5).unwrap();
    let destination = DestinationConfig {
        kind: DestinationKind::ManualRtmp,
        label: "Saved destination".to_string(),
        manual_destination_id: Some("youtube-1".to_string()),
        rtmp_url: None,
        stream_key: None,
        broadcast_id: None,
        stream_id: None,
        live_chat_id: None,
    };
    let resolved = resolve_manual_destination_at(&mut store, &secrets, destination.clone(), 77).unwrap();
    assert_eq!(resolved.label, "YouTube RTMPS");
    assert_eq!(resolved.rtmp_url.as_deref(), Some(YOUTUBE_RTMPS_SERVER));
    assert_eq!(resolved.stream_key.as_deref(), Some("abcd-1234"));
    assert_eq!(resolved.kind, DestinationKind::YoutubeRtmps);
    assert_eq!(find_destination(&store, "youtube-1").unwrap().last_used_at, Some(77));

    let mut unknown = destination.clone();
    unknown.manual_destination_id = Some("other".to_string());
    assert_eq!(
        resolve_manual_destination_at(&mut store, &secrets, unknown, 1).unwrap_err(),
        "Saved destination was not found."
    );

    let mut plain = destination;
    plain.manual_destination_id = None;
    let same = resolve_manual_destination_at(&mut store, &secrets, plain.clone(), 1).unwrap();
    assert_eq!(same, plain);
}

#[test]
fn saving_now_stamps_the_record() {
    let mut store = ManualDestinationStore { destinations: Vec::new() };
    let secrets = MemorySecrets::default();
    let saved = save_destination(&mut store, &secrets, youtube_request(Some("abcd-1234"))).unwrap();
    assert!(saved.last_used_at.unwrap() > 0);
    assert!(mark_destination_used(&mut store, "youtube-1"));
    assert!(!mark_destination_used(&mut store, "other"));
}

fn stored(id: &str, label: &str, last_used_at: Option<u64>) -> stagebadger::destinations::StoredManualDestination {
    stagebadger::destinations::StoredManualDestination {
        id: id.to_string(),
        label: label.to_string(),
        provider: "custom".to_string(),
        server_url: "rtmp://live.example.com/app/".to_string(),
        last_used_at,
        default_privacy_note: None,
        confirmed_live_enabled: false,
    }
}

#[test]
fn lookup_answer_sets_key_flag_or_passes_error() {
    let found = stored("a", "A", None).public_from_lookup(Ok(Some("k".to_string()))).unwrap();
    assert!(found.has_saved_key);
    assert_eq!(found.id, "a");
    let missing = stored("a", "A", None).public_from_lookup(Ok(None)).unwrap();
    assert!(!missing.has_saved_key);
    let failed = stored("a", "A", None).public_from_lookup(Err("locked".to_string()));
    assert_eq!(failed.unwrap_err(), "locked");
}

#[test]
fn listing_orders_by_last_use_then_label_with_each_key_flag() {
    let store = ManualDestinationStore {
        destinations: vec![
            stored("old", "Zed", Some(1)),
            stored("new", "Beta", Some(5)),
            stored("never", "Alpha", None),
            stored("new2", "Alpha", Some(5)),
        ],
    };
    let listed = stagebadger::destinations::listing_with_keys(&store, &vec![true, false, true, false]);
    let ids: Vec<&str> = listed.iter().map(|d| d.id.as_str()).collect();
    assert_eq!(ids, vec!["new2", "new", "old", "never"]);
    let keys: Vec<bool> = listed.iter().map(|d| d.has_saved_key).collect();
    assert_eq!(keys, vec![false, false, true, true]);
}

struct FailingSecrets;

impl SecretStore for FailingSecrets {
    fn save(&self, _request: &SecretWriteRequest) -> Result<(), String> {
        Err("locked".to_string())
    }

    fn load(&self, _destination_id: &str) -> Result<Option<String>, String> {
        Err("locked".to_string())
    }

    fn delete(&self, _destination_id: &str) -> Result<(), String> {
        Err("locked".to_string())
    }
}

#[test]
fn empty_store_lists_nothing_without_lookup_and_lookup_error_is_passed_on() {
    let empty = ManualDestinationStore { destinations: Vec::new() };
    assert!(load_destinations(&empty, &FailingSecrets).unwrap().is_empty());
    let one = ManualDestinationStore { destinations: vec![stored("a", "A", None)] };
    assert_eq!(load_destinations(&one, &FailingSecrets).unwrap_err(), "locked");
}

#[test]
fn key_on_file_needs_a_key_and_passes_lookup_errors() {
    assert_eq!(key_on_file(Ok(Some("k".to_string()))), Ok(()));
    assert_eq!(
        key_on_file(Ok(None)),
        Err("Enter a stream key before saving this destination.".to_string())
    );
    assert_eq!(key_on_file(Err("locked".to_string())), Err("locked".to_string()));
}

#[test]
fn keyless_save_of_known_destination_without_key_on_file_is_refused() {
    let mut store = ManualDestinationStore { destinations: vec![stored("youtube-1", "Old", Some(1))] };
    let secrets = MemorySecrets::default();
    let result = save_destination_at(&mut store, &secrets, youtube_request(None), 2_000);
    assert_eq!(result.unwrap_err(), "Enter a stream key before saving this destination.");
    assert_eq!(store.destinations[0].label, "Old");
}

#[test]
fn save_hands_trimmed_key_to_store_and_store_errors_are_passed_on() {
    let mut store = ManualDestinationStore { destinations: Vec::new() };
    let secrets = MemorySecrets::default();
    let mut request = youtube_request(Some("  abcd-1234  "));
    request.label = "Main".to_string();
    let saved = save_destination_at(&mut store, &secrets, request, 5).unwrap();
    assert!(saved.has_saved_key);
    assert_eq!(secrets.load("youtube-1").unwrap(), Some("abcd-1234".to_string()));
    let mut failing_store = ManualDestinationStore { destinations: Vec::new() };
    let failed = save_destination_at(&mut failing_store, &FailingSecrets, youtube_request(Some("abcd-1234")), 5);
    assert_eq!(failed.unwrap_err(), "locked");
    assert!(failing_store.destinations.is_empty());
}

#[test]
fn delete_passes_on_the_store_answer() {
    let mut store = ManualDestinationStore { destinations: vec![stored("a", "A", None)] };
    assert_eq!(delete_destination(&mut store, &FailingSecrets, "a").unwrap_err(), "locked");
    assert!(store.destinations.is_empty());
}

#[test]
fn key_stays_when_the_write_fails_and_goes_after_it() {
    let secrets = MemorySecrets::default();
    secrets
        .save(&SecretWriteRequest { destination_id: "a".to_string(), stream_key: "k".to_string() })
        .unwrap();
    let failed = stagebadger::destinations::delete_key_after_write(&secrets, "a", Err("disk full".to_string()));
    assert_eq!(failed.unwrap_err(), "disk full");
    assert_eq!(secrets.load("a").unwrap(), Some("k".to_string()));
    stagebadger::destinations::delete_key_after_write(&secrets, "a", Ok(())).unwrap();
    assert_eq!(secrets.load("a").unwrap(), None);
}

#[test]
fn removing_a_destination_leaves_the_secret_store_alone() {
    let mut store = ManualDestinationStore {
        destinations: vec![stored("a", "A", None), stored("b", "B", None), stored("a", "A2", None)],
    };
    stagebadger::destinations::remove_destination(&mut store, "a");
    assert_eq!(store.destinations.len(), 1);
    assert_eq!(store.destinations[0].id, "b");
}
