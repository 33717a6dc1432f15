use std::cell::RefCell;
use std::collections::HashMap;

use stagebadger::destinations::{
    find_destination, normalize_server_url, save_destination_at, validate_stream_key, ManualDestinationStore,
    SecretStore,
};
use stagebadger::ffmpeg::sanitize_filename;
use stagebadger::transcript::normalize_token_text;
use stagebadger::types::{ManualDestinationSaveRequest, SecretWriteRequest};

#[derive(Default)]
struct Keys(RefCell<HashMap<String, String>>);

impl SecretStore for Keys {
    fn save(&self, request: &SecretWriteRequest) -> Result<(), String> {
        self.0.borrow_mut().insert(request.destination_id.clone(), request.stream_key.clone());
        Ok(())
    }

    fn load(&self, destination_id: &str) -> Result<Option<String>, String> {
        Ok(self.0.borrow().get(destination_id).cloned())
    }

    fn delete(&self, destination_id: &str) -> Result<(), String> {
        self.0.borrow_mut().remove(destination_id);
        Ok(())
    }
}

fn request(id: &str, label: &str, key: &str) -> ManualDestinationSaveRequest {
    ManualDestinationSaveRequest {
        id: Some(id.to_string()),
        label: label.to_string(),
        provider: "custom".to_string(),
        server_url: "rtmp://ingest.example/app".to_string(),
        stream_key: Some(key.to_string()),
        default_privacy_note: None,
        confirmed_live_enabled: false,
    }
}

#[test]
fn saving_one_destination_leaves_others() {
    let mut store = ManualDestinationStore { destinations: Vec::new() };
    let keys = Keys::default();
    save_destination_at(&mut store, &keys, request("a", "First", "key-aaaa"), 1).unwrap();
    let before = find_destination(&store, "a").unwrap();
    save_destination_at(&mut store, &keys, request("b", "Second", "key-bbbb"), 2).unwrap();
    save_destination_at(&mut store, &keys, request("b", "Second again", "key-cccc"), 3).unwrap();
    assert_eq!(find_destination(&store, "a").unwrap(), before);
    assert_eq!(find_destination(&store, "b").unwrap().label, "Second again");
    assert_eq!(store.destinations.len(), 2);
}

#[test]
fn stored_records_do_not_depend_on_the_key() {
    let keys = Keys::default();
    let mut one = ManualDestinationStore { destinations: Vec::new() };
    let mut two = ManualDestinationStore { destinations: Vec::new() };
    save_destination_at(&mut one, &keys, request("a", "Show", "first-secret"), 7).unwrap();
    save_destination_at(&mut two, &keys, request("a", "Show", "other-secret"), 7).unwrap();
    assert_eq!(one, two);
}

#[test]
fn normalizing_twice_changes_nothing() {
    let once = normalize_server_url("  rtmp://host/app ").unwrap();
    assert_eq!(normalize_server_url(&once).unwrap(), once);
    let key = validate_stream_key("  abc-123 ").unwrap();
    assert_eq!(validate_stream_key(&key).unwrap(), key);
    let token = normalize_token_text("Don't-Stop!");
    assert_eq!(token, "dontstop");
    assert_eq!(normalize_token_text(&token), token);
    let name = sanitize_filename(" My Show: Part 2 ");
    assert_eq!(name, "my-show--part-2");
    assert_eq!(sanitize_filename(&name), name);
}
