//! Manual RTMP(S) destinations: URL and stream-key validation, redaction,
//! and the saved-destination records. Stream keys live in a `SecretStore`;
//! the records never hold them.
use vstd::prelude::*;

use crate::text::{
    contains, vviews,
    any_ws, chars_in_bytes, chars_of, decimal, has_ws, is_alnum, is_ws, lemma_trim_by_shape,
    lemma_trim_noop_ws, lower, lower_chars, push_chars, push_decimal, seq_lt,
    starts_with, starts_with_chars, string_of, trim, trim_chars, trim_str, utf8_len,
    TrimPattern, char_is_alnum, chars_lt, lemma_seq_lt_asym, lemma_seq_lt_irreflexive,
    lemma_seq_lt_total, lemma_seq_lt_trans, lemma_trim_by_idempotent, utf8_len_exceeds, chars_in_bytes_exec,
};
use crate::ffmpeg::{
    law_redaction_hides_secret, lemma_chars_in_bytes_bound, redact_secret_spec, redactable,
    redaction_marker,
};
use crate::types::{
    DestinationConfig, DestinationKind, DestinationTestResult, ManualDestination, ManualDestinationSaveRequest,
    ManualDestinationTestInput, ManualDestinationTestRequest, SecretWriteRequest, copy_opt_string,
};

verus! {

pub const YOUTUBE_LIVE_CONTROL_ROOM_URL: &'static str = "https://studio.youtube.com/";

pub const YOUTUBE_RTMPS_SERVER: &'static str = "rtmps://a.rtmps.youtube.com/live2/";

/// The saved destinations, as kept in the configuration file.
#[derive(Clone, Debug, PartialEq)]
pub struct ManualDestinationStore {
    pub destinations: Vec<StoredManualDestination>,
}

/// One saved destination. The stream key is not part of it.
#[derive(Clone, Debug, PartialEq)]
pub struct StoredManualDestination {
    pub id: String,
    pub label: String,
    pub provider: String,
    pub server_url: String,
    pub last_used_at: Option<u64>,
    pub default_privacy_note: Option<String>,
    pub confirmed_live_enabled: bool,
}

/// Where stream keys are kept, keyed by destination id.
pub trait SecretStore {
    fn save(&self, request: &SecretWriteRequest) -> Result<(), String>;

    fn load(&self, destination_id: &str) -> Result<Option<String>, String>;

    fn delete(&self, destination_id: &str) -> Result<(), String>;
}

/// A key lookup's answer by views.
pub open spec fn lookup_view(lookup: Result<Option<String>, String>) -> Result<Option<Seq<char>>, Seq<char>> {
    match lookup {
        Ok(found) => Ok(oview(found)),
        Err(e) => Err(e@),
    }
}

/// An answer without a value, by views.
pub open spec fn unit_view(r: Result<(), String>) -> Result<(), Seq<char>> {
    match r {
        Ok(()) => Ok(()),
        Err(e) => Err(e@),
    }
}

/// `a` is an answer that the store's `load` can give when asked for the key
/// of `id`.
pub open spec fn load_answer<S: SecretStore>(
    s: &S,
    id: Seq<char>,
    a: Result<Option<Seq<char>>, Seq<char>>,
) -> bool {
    exists|k: &str, r: Result<Option<String>, String>|
        k@ == id && lookup_view(r) == a && #[trigger] call_ensures(S::load, (s, k), r)
}

/// `a` is an answer that the store's `save` can give when asked to keep
/// `key` for `id`.
pub open spec fn save_answer<S: SecretStore>(s: &S, id: Seq<char>, key: Seq<char>, a: Result<(), Seq<char>>) -> bool {
    exists|w: &SecretWriteRequest, r: Result<(), String>|
        w.destination_id@ == id && w.stream_key@ == key && unit_view(r) == a
            && #[trigger] call_ensures(S::save, (s, w), r)
}

/// `a` is an answer that the store's `delete` can give when asked to drop
/// the key of `id`.
pub open spec fn delete_answer<S: SecretStore>(s: &S, id: Seq<char>, a: Result<(), Seq<char>>) -> bool {
    exists|k: &str, r: Result<(), String>|
        k@ == id && unit_view(r) == a && #[trigger] call_ensures(S::delete, (s, k), r)
}

/// Asks the secret store for the key of `id`.
fn load_key<S: SecretStore>(s: &S, id: &str) -> (r: Result<Option<String>, String>)
    ensures
        load_answer(s, id@, lookup_view(r)),
{
    let load = S::load;
    let r = load(s, id);
    assert(call_ensures(S::load, (s, id), r));
    r
}

/// Asks the secret store to keep a key.
fn save_key<S: SecretStore>(s: &S, request: &SecretWriteRequest) -> (r: Result<(), String>)
    ensures
        save_answer(s, request.destination_id@, request.stream_key@, unit_view(r)),
{
    let save = S::save;
    let r = save(s, request);
    assert(call_ensures(S::save, (s, request), r));
    r
}

/// Asks the secret store to drop the key of `id`.
fn delete_key<S: SecretStore>(s: &S, id: &str) -> (r: Result<(), String>)
    ensures
        delete_answer(s, id@, unit_view(r)),
{
    let delete = S::delete;
    let r = delete(s, id);
    assert(call_ensures(S::delete, (s, id), r));
    r
}

pub open spec fn rview(r: Result<String, String>) -> Result<Seq<char>, Seq<char>> {
    match r {
        Ok(s) => Ok(s@),
        Err(e) => Err(e@),
    }
}

pub open spec fn oview(o: Option<String>) -> Option<Seq<char>> {
    match o {
        Some(s) => Some(s@),
        None => None,
    }
}

// ---------------------------------------------------------------------------
// Validation and redaction
// ---------------------------------------------------------------------------
/// `normalize_server_url`: the trimmed URL must be non-empty, start with
/// `rtmp://` or `rtmps://` (in any case) and hold no whitespace; it gets a
/// trailing `/` when it has none.
pub open spec fn normalize_server_url_spec(value: Seq<char>) -> Result<Seq<char>, Seq<char>> {
    let t = trim(value);
    if t.len() == 0 {
        Err("Enter an RTMP or RTMPS server URL."@)
    } else if !starts_with(lower(t), "rtmp://"@) && !starts_with(lower(t), "rtmps://"@) {
        Err("Server URL must start with rtmp:// or rtmps://."@)
    } else if has_ws(t) {
        Err("Server URL cannot contain spaces."@)
    } else if t.last() == '/' {
        Ok(t)
    } else {
        Ok(t + "/"@)
    }
}

pub fn normalize_server_url(value: &str) -> (r: Result<String, String>)
    ensures
        rview(r) == normalize_server_url_spec(value@),
{
    let t = trim_str(value);
    if t.len() == 0 {
        return Err(String::from_str("Enter an RTMP or RTMPS server URL."));
    }
    let lower_t = lower_chars(&t);
    if !starts_with_chars(&lower_t, &chars_of("rtmp://")) && !starts_with_chars(
        &lower_t,
        &chars_of("rtmps://"),
    ) {
        return Err(String::from_str("Server URL must start with rtmp:// or rtmps://."));
    }
    if any_ws(&t) {
        return Err(String::from_str("Server URL cannot contain spaces."));
    }
    let mut out = string_of(&t);
    if t[t.len() - 1] != '/' {
        out.push_str("/");
    }
    Ok(out)
}

/// Normalizing a normalized URL gives it back unchanged.
pub proof fn lemma_normalize_server_url_idempotent(value: Seq<char>)
    ensures
        normalize_server_url_spec(value) matches Ok(u) ==> normalize_server_url_spec(u) == Ok::<
            Seq<char>,
            Seq<char>,
        >(u),
{
    if let Ok(u) = normalize_server_url_spec(value) {
        let t = trim(value);
        lemma_trim_by_shape(value, TrimPattern::Whitespace);
        reveal_strlit("/");
        assert(u.len() > 0 && !is_ws(u[0]) && !is_ws(u.last()));
        lemma_trim_noop_ws(u);
        assert(forall|i: int| 0 <= i < t.len() ==> u[i] == t[i]);
        reveal_strlit("rtmp://");
        reveal_strlit("rtmps://");
        if starts_with(lower(t), "rtmp://"@) {
            assert(lower(u).subrange(0, 7) =~= lower(t).subrange(0, 7));
        } else {
            assert(lower(u).subrange(0, 8) =~= lower(t).subrange(0, 8));
        }
        assert(!has_ws(u)) by {
            assert forall|i: int| 0 <= i < u.len() implies !is_ws(#[trigger] u[i]) by {
                if i < t.len() {
                    assert(u[i] == t[i]);
                }
            }
        }
    }
}

/// A normalized server URL is non-empty, holds no whitespace and ends with
/// `/`, so a stream key can be appended to it directly.
pub proof fn law_normalized_url_shape(value: Seq<char>)
    ensures
        normalize_server_url_spec(value) matches Ok(u) ==> u.len() > 0 && u.last() == '/' && !has_ws(
            u,
        ),
{
    if let Ok(u) = normalize_server_url_spec(value) {
        let t = trim(value);
        reveal_strlit("/");
        if t.last() != '/' {
            assert(u == t + "/"@);
            assert forall|i: int| 0 <= i < u.len() implies !is_ws(#[trigger] u[i]) by {
                if i < t.len() {
                    assert(u[i] == t[i]);
                }
            }
        }
    }
}

/// `validate_stream_key`: the trimmed key must be non-empty and hold no
/// whitespace.
pub open spec fn validate_stream_key_spec(value: Seq<char>) -> Result<Seq<char>, Seq<char>> {
    let t = trim(value);
    if t.len() == 0 {
        Err("Enter a stream key before saving this destination."@)
    } else if has_ws(t) {
        Err("Stream key cannot contain spaces."@)
    } else {
        Ok(t)
    }
}

pub fn validate_stream_key(value: &str) -> (r: Result<String, String>)
    ensures
        rview(r) == validate_stream_key_spec(value@),
{
    let t = trim_str(value);
    if t.len() == 0 {
        return Err(String::from_str("Enter a stream key before saving this destination."));
    }
    if any_ws(&t) {
        return Err(String::from_str("Stream key cannot contain spaces."));
    }
    Ok(string_of(&t))
}

/// Validating a valid key gives it back unchanged.
pub proof fn lemma_validate_stream_key_idempotent(value: Seq<char>)
    ensures
        validate_stream_key_spec(value) matches Ok(k) ==> validate_stream_key_spec(k) == Ok::<
            Seq<char>,
            Seq<char>,
        >(k),
{
    if let Ok(k) = validate_stream_key_spec(value) {
        lemma_trim_by_shape(value, TrimPattern::Whitespace);
        lemma_trim_noop_ws(k);
    }
}

/// The publish URL: the normalized server URL followed by the validated key;
/// the server URL's error comes first.
pub fn join_server_and_key(server_url: &str, stream_key: &str) -> (r: Result<String, String>)
    ensures
        rview(r) == match (
            normalize_server_url_spec(server_url@),
            validate_stream_key_spec(stream_key@),
        ) {
            (Err(m), _) => Err(m),
            (Ok(_), Err(m)) => Err(m),
            (Ok(s), Ok(k)) => Ok(s + k),
        },
{
    let server = match normalize_server_url(server_url) {
        Ok(s) => s,
        Err(e) => return Err(e),
    };
    let key = match validate_stream_key(stream_key) {
        Ok(k) => k,
        Err(e) => return Err(e),
    };
    let mut out = server;
    out.push_str(key.as_str());
    Ok(out)
}

/// `redact_stream_key`: the redaction of the trimmed key.
pub open spec fn redact_stream_key_spec(value: Seq<char>) -> Seq<char> {
    redact_secret_spec(trim(value))
}

pub fn redact_stream_key(value: &str) -> (r: String)
    requires
        redactable(trim(value@)),
    ensures
        r@ == redact_stream_key_spec(value@),
{
    let t = trim_str(value);
    let s = string_of(&t);
    crate::ffmpeg::redact_secret(s.as_str())
}

/// The normalized server URL followed by the redacted key.
pub fn redacted_destination_url(server_url: &str, stream_key: &str) -> (r: Result<String, String>)
    requires
        normalize_server_url_spec(server_url@) is Ok ==> redactable(trim(stream_key@)),
    ensures
        rview(r) == match normalize_server_url_spec(server_url@) {
            Err(m) => Err(m),
            Ok(s) => Ok(s + redact_stream_key_spec(stream_key@)),
        },
{
    let server = match normalize_server_url(server_url) {
        Ok(s) => s,
        Err(e) => return Err(e),
    };
    let mut out = server;
    let red = redact_stream_key(stream_key);
    out.push_str(red.as_str());
    Ok(out)
}


// ---------------------------------------------------------------------------
// Saved destinations
// ---------------------------------------------------------------------------
/// A record by the views of its fields: id, label, provider, server URL,
/// last use, privacy note, confirmed-live flag.
pub type RecView = (Seq<char>, Seq<char>, Seq<char>, Seq<char>, Option<u64>, Option<Seq<char>>, bool);

pub open spec fn rec_view(r: StoredManualDestination) -> RecView {
    (
        r.id@,
        r.label@,
        r.provider@,
        r.server_url@,
        r.last_used_at,
        oview(r.default_privacy_note),
        r.confirmed_live_enabled,
    )
}

pub open spec fn records(s: Seq<StoredManualDestination>) -> Seq<RecView> {
    s.map_values(|r: StoredManualDestination| rec_view(r))
}

/// A public destination by the views of its fields.
pub type PubView = (
    Seq<char>,
    Seq<char>,
    Seq<char>,
    Seq<char>,
    bool,
    Option<u64>,
    Option<Seq<char>>,
    bool,
);

pub open spec fn pub_view(d: ManualDestination) -> PubView {
    (
        d.id@,
        d.label@,
        d.provider@,
        d.server_url@,
        d.has_saved_key,
        d.last_used_at,
        oview(d.default_privacy_note),
        d.confirmed_live_enabled,
    )
}

/// The public form of a record, with whether a key is saved for it.
pub open spec fn public_of(r: RecView, has_saved_key: bool) -> PubView {
    (r.0, r.1, r.2, r.3, has_saved_key, r.4, r.5, r.6)
}

/// First position at or after `i` of a record with id `id`.
pub open spec fn find_record_from(rs: Seq<RecView>, id: Seq<char>, i: int) -> Option<int>
    decreases rs.len() - i,
{
    if i < 0 || i >= rs.len() {
        None
    } else if rs[i].0 == id {
        Some(i)
    } else {
        find_record_from(rs, id, i + 1)
    }
}

pub open spec fn find_record(rs: Seq<RecView>, id: Seq<char>) -> Option<int> {
    find_record_from(rs, id, 0)
}

pub proof fn lemma_find_record_from(rs: Seq<RecView>, id: Seq<char>, i: int)
    requires
        0 <= i,
    ensures
        find_record_from(rs, id, i) matches Some(k) ==> i <= k < rs.len() && rs[k].0 == id
            && forall|j: int| i <= j < k ==> rs[j].0 != id,
        find_record_from(rs, id, i) is None ==> forall|j: int| i <= j < rs.len() ==> rs[j].0 != id,
    decreases rs.len() - i,
{
    if i < rs.len() && rs[i].0 != id {
        lemma_find_record_from(rs, id, i + 1);
    }
}

/// The records with `rec` in place of the first record with its id, or
/// appended when there is none.
pub open spec fn upsert(rs: Seq<RecView>, rec: RecView) -> Seq<RecView> {
    match find_record(rs, rec.0) {
        Some(i) => rs.update(i, rec),
        None => rs.push(rec),
    }
}

/// The records without those whose id is `id`, in their order.
pub open spec fn remove_id(rs: Seq<RecView>, id: Seq<char>) -> Seq<RecView>
    decreases rs.len(),
{
    if rs.len() == 0 {
        rs
    } else {
        let kept = remove_id(rs.drop_last(), id);
        if rs.last().0 == id {
            kept
        } else {
            kept.push(rs.last())
        }
    }
}

pub fn copy_record(r: &StoredManualDestination) -> (c: StoredManualDestination)
    ensures
        rec_view(c) == rec_view(*r),
{
    StoredManualDestination {
        id: r.id.clone(),
        label: r.label.clone(),
        provider: r.provider.clone(),
        server_url: r.server_url.clone(),
        last_used_at: r.last_used_at,
        default_privacy_note: copy_opt_string(&r.default_privacy_note),
        confirmed_live_enabled: r.confirmed_live_enabled,
    }
}

/// What `to_public` makes of the secret store's answer for a record's id:
/// the public form, flagged by whether a key was found, or the lookup's
/// error as it came.
pub open spec fn public_from_lookup_spec(r: RecView, lookup: Result<Option<Seq<char>>, Seq<char>>) -> Result<
    PubView,
    Seq<char>,
> {
    match lookup {
        Ok(found) => Ok(public_of(r, found is Some)),
        Err(e) => Err(e),
    }
}

pub open spec fn pub_result_view(r: Result<ManualDestination, String>) -> Result<PubView, Seq<char>> {
    match r {
        Ok(d) => Ok(pub_view(d)),
        Err(e) => Err(e@),
    }
}

impl StoredManualDestination {
    /// The public form; `has_saved_key` tells whether the secret store
    /// holds a key for this id. A lookup error is passed on.
    pub fn to_public<S: SecretStore>(self, secret_store: &S) -> (r: Result<ManualDestination, String>)
        ensures
            r matches Ok(d) ==> pub_view(d) == public_of(rec_view(self), d.has_saved_key),
            exists|a: Result<Option<Seq<char>>, Seq<char>>|
                #[trigger] load_answer(secret_store, self.id@, a) && pub_result_view(r)
                    == public_from_lookup_spec(rec_view(self), a),
    {
        let lookup = load_key(secret_store, self.id.as_str());
        let ghost answer = lookup_view(lookup);
        let r = self.public_from_lookup(lookup);
        assert(load_answer(secret_store, self.id@, answer));
        r
    }

    /// The public form given the secret store's answer `lookup` for this
    /// record's id: `has_saved_key` is whether a key was found; a lookup
    /// error is returned as it is.
    pub fn public_from_lookup(self, lookup: Result<Option<String>, String>) -> (r: Result<
        ManualDestination,
        String,
    >)
        ensures
            pub_result_view(r) == public_from_lookup_spec(rec_view(self), lookup_view(lookup)),
    {
        match lookup {
            Ok(found) => Ok(public_with_flag(self, found.is_some())),
            Err(e) => Err(e),
        }
    }
}

/// The public form of a record, with the given key flag.
fn public_with_flag(r: StoredManualDestination, has_saved_key: bool) -> (d: ManualDestination)
    ensures
        pub_view(d) == public_of(rec_view(r), has_saved_key),
{
    ManualDestination {
        id: r.id,
        label: r.label,
        provider: r.provider,
        server_url: r.server_url,
        has_saved_key,
        last_used_at: r.last_used_at,
        default_privacy_note: r.default_privacy_note,
        confirmed_live_enabled: r.confirmed_live_enabled,
    }
}

pub fn find_index(store: &ManualDestinationStore, id: &str) -> (r: Option<usize>)
    ensures
        r matches Some(i) ==> find_record(records(store.destinations@), id@) == Some(i as int),
        r is None ==> find_record(records(store.destinations@), id@) is None,
{
    let ghost rs = records(store.destinations@);
    let mut i: usize = 0;
    while i < store.destinations.len()
        invariant
            rs == records(store.destinations@),
            i <= store.destinations.len(),
            find_record(rs, id@) == find_record_from(rs, id@, i as int),
        decreases store.destinations.len() - i,
    {
        if str_eq(store.destinations[i].id.as_str(), id) {
            return Some(i);
        }
        i = i + 1;
    }
    None
}

/// The saved destination with id `id`, without asking the secret store
/// (`has_saved_key` is false).
pub fn find_destination(store: &ManualDestinationStore, id: &str) -> (r: Option<ManualDestination>)
    ensures
        match find_record(records(store.destinations@), id@) {
            Some(i) => r matches Some(d) && pub_view(d) == public_of(
                records(store.destinations@)[i],
                false,
            ),
            None => r is None,
        },
{
    match find_index(store, id) {
        Some(i) => {
            proof {
                lemma_find_record_from(records(store.destinations@), id@, 0);
            }
            let c = copy_record(&store.destinations[i]);
            Some(
                ManualDestination {
                    id: c.id,
                    label: c.label,
                    provider: c.provider,
                    server_url: c.server_url,
                    has_saved_key: false,
                    last_used_at: c.last_used_at,
                    default_privacy_note: c.default_privacy_note,
                    confirmed_live_enabled: c.confirmed_live_enabled,
                },
            )
        },
        None => None,
    }
}

/// The record as last used at `now`.
pub open spec fn stamped(o: RecView, now: u64) -> RecView {
    (o.0, o.1, o.2, o.3, Some(now), o.5, o.6)
}

/// Stamps the destination with id `id` as used at `now`; returns whether
/// there was one (and so whether the store changed).
pub fn mark_destination_used_at(store: &mut ManualDestinationStore, id: &str, now: u64) -> (r: bool)
    ensures
        match find_record(records(old(store).destinations@), id@) {
            Some(i) => r && records(final(store).destinations@) == records(
                old(store).destinations@,
            ).update(i, stamped(records(old(store).destinations@)[i], now)),
            None => !r && records(final(store).destinations@) == records(old(store).destinations@),
        },
{
    match find_index(store, id) {
        Some(i) => {
            proof {
                lemma_find_record_from(records(store.destinations@), id@, 0);
            }
            let mut c = copy_record(&store.destinations[i]);
            c.last_used_at = Some(now);
            store.destinations.set(i, c);
            assert(records(store.destinations@) =~= records(old(store).destinations@).update(
                i as int,
                stamped(records(old(store).destinations@)[i as int], now),
            ));
            true
        },
        None => false,
    }
}

/// Stamps the destination with id `id` as used now (see
/// `mark_destination_used_at`).
pub fn mark_destination_used(store: &mut ManualDestinationStore, id: &str) -> (r: bool)
    ensures
        match find_record(records(old(store).destinations@), id@) {
            Some(i) => r && exists|now: u64|
                records(final(store).destinations@) == #[trigger] records(
                    old(store).destinations@,
                ).update(i, stamped(records(old(store).destinations@)[i], now)),
            None => !r && records(final(store).destinations@) == records(old(store).destinations@),
        },
{
    let now = crate::ffmpeg::now_millis();
    mark_destination_used_at(store, id, now)
}

/// Removes every destination with id `id` from the store, keeping the
/// others in order; the secret store is not touched.
pub fn remove_destination(store: &mut ManualDestinationStore, id: &str)
    ensures
        records(final(store).destinations@) == remove_id(records(old(store).destinations@), id@),
{
    let mut kept: Vec<StoredManualDestination> = Vec::new();
    let ghost rs = records(store.destinations@);
    for i in 0..store.destinations.len()
        invariant
            rs == records(store.destinations@),
            records(kept@) == remove_id(rs.take(i as int), id@),
    {
        assert(rs.take(i + 1).drop_last() == rs.take(i as int));
        if !str_eq(store.destinations[i].id.as_str(), id) {
            let c = copy_record(&store.destinations[i]);
            kept.push(c);
            assert(records(kept@) =~= remove_id(rs.take(i as int), id@).push(rs[i as int]));
        }
    }
    assert(rs.take(rs.len() as int) == rs);
    store.destinations = kept;
}

/// Deletes the key of `id` from the secret store once the store without
/// the destination has been written: a failed write (`written`) is
/// returned as it is and the key is left in place; otherwise the secret
/// store's answer is returned.
pub fn delete_key_after_write<S: SecretStore>(
    secret_store: &S,
    id: &str,
    written: Result<(), String>,
) -> (r: Result<(), String>)
    ensures
        match written {
            Err(e) => unit_view(r) == Err::<(), Seq<char>>(e@),
            Ok(()) => delete_answer(secret_store, id@, unit_view(r)),
        },
{
    match written {
        Err(e) => Err(e),
        Ok(()) => delete_key(secret_store, id),
    }
}

/// Removes every destination with id `id` from the store, then deletes its
/// key from the secret store (whose outcome is returned).
pub fn delete_destination<S: SecretStore>(
    store: &mut ManualDestinationStore,
    secret_store: &S,
    id: &str,
) -> (r: Result<(), String>)
    ensures
        records(final(store).destinations@) == remove_id(records(old(store).destinations@), id@),
        delete_answer(secret_store, id@, unit_view(r)),
{
    remove_destination(store, id);
    delete_key_after_write(secret_store, id, Ok(()))
}

/// Characters allowed in a destination id.
pub open spec fn id_char(c: char) -> bool {
    is_alnum(c) || c == '-' || c == '_'
}

pub open spec fn keep_id_chars(s: Seq<char>) -> Seq<char>
    decreases s.len(),
{
    if s.len() == 0 {
        s
    } else {
        let kept = keep_id_chars(s.drop_last());
        if id_char(s.last()) {
            kept.push(s.last())
        } else {
            kept
        }
    }
}

/// The allowed characters of the trimmed value, or `destination-<now>`
/// when none remain.
pub open spec fn sanitize_id_spec(value: Seq<char>, now: u64) -> Seq<char> {
    let s = keep_id_chars(trim(value));
    if s.len() == 0 {
        "destination-"@ + decimal(now as nat)
    } else {
        s
    }
}

fn sanitize_id(value: &str, now: u64) -> (r: String)
    ensures
        r@ == sanitize_id_spec(value@, now),
{
    let t = trim_str(value);
    let mut kept: Vec<char> = Vec::new();
    for i in 0..t.len()
        invariant
            kept@ == keep_id_chars(t@.take(i as int)),
    {
        assert(t@.take(i + 1).drop_last() == t@.take(i as int));
        let c = t[i];
        if char_is_alnum(c) || c == '-' || c == '_' {
            kept.push(c);
        }
    }
    assert(t@.take(t.len() as int) == t@);
    if kept.len() == 0 {
        let mut s = String::from_str("destination-");
        push_decimal(&mut s, now);
        s
    } else {
        string_of(&kept)
    }
}

/// `youtube` for the YouTube provider (trimmed, any case), `custom` otherwise.
pub open spec fn sanitize_provider_spec(value: Seq<char>) -> Seq<char> {
    if lower(trim(value)) == "youtube"@ {
        "youtube"@
    } else {
        "custom"@
    }
}

pub fn chars_equal(a: &Vec<char>, b: &Vec<char>) -> (r: bool)
    ensures
        r == (a@ == b@),
{
    if a.len() != b.len() {
        return false;
    }
    let r = starts_with_chars(a, b);
    assert(a@.subrange(0, a@.len() as int) == a@);
    r
}

/// Whether two strings hold the same characters.
pub fn str_eq(a: &str, b: &str) -> (r: bool)
    ensures
        r == (a@ == b@),
{
    chars_equal(&chars_of(a), &chars_of(b))
}

fn sanitize_provider(value: &str) -> (r: String)
    ensures
        r@ == sanitize_provider_spec(value@),
{
    let l = lower_chars(&trim_str(value));
    if chars_equal(&l, &chars_of("youtube")) {
        String::from_str("youtube")
    } else {
        String::from_str("custom")
    }
}

pub open spec fn default_label_spec(provider: Seq<char>) -> Seq<char> {
    if provider == "youtube"@ {
        "YouTube RTMPS"@
    } else {
        "Custom RTMP"@
    }
}

fn default_label(provider: &str) -> (r: &'static str)
    ensures
        r@ == default_label_spec(provider@),
{
    if chars_equal(&chars_of(provider), &chars_of("youtube")) {
        "YouTube RTMPS"
    } else {
        "Custom RTMP"
    }
}

/// `value` when it is not empty, otherwise `fallback`.
fn if_empty_else(value: String, fallback: &str) -> (r: String)
    ensures
        r@ == (if value@.len() == 0 {
            fallback@
        } else {
            value@
        }),
{
    if value.as_str().is_empty() {
        String::from_str(fallback)
    } else {
        value
    }
}


// ---------------------------------------------------------------------------
// Saving
// ---------------------------------------------------------------------------
/// A non-blank optional text, as given.
pub open spec fn non_blank(o: Option<String>) -> Option<Seq<char>> {
    match o {
        Some(x) => if trim(x@).len() > 0 {
            Some(x@)
        } else {
            None
        },
        None => None,
    }
}

/// The id a save uses: the sanitized requested id when one is given, else
/// `<provider>-<now>`.
pub open spec fn save_id_spec(request: ManualDestinationSaveRequest, now: u64) -> Seq<char> {
    match non_blank(request.id) {
        Some(x) => sanitize_id_spec(x, now),
        None => sanitize_provider_spec(request.provider@) + "-"@ + decimal(now as nat),
    }
}

/// The trimmed label, or the provider's default label when it is blank.
pub open spec fn saved_label(request: ManualDestinationSaveRequest) -> Seq<char> {
    let t = trim(request.label@);
    if t.len() == 0 {
        default_label_spec(sanitize_provider_spec(request.provider@))
    } else {
        t
    }
}

/// The record a save writes, with `server` the normalized server URL.
pub open spec fn saved_record(request: ManualDestinationSaveRequest, now: u64, server: Seq<char>) -> RecView {
    (
        save_id_spec(request, now),
        saved_label(request),
        sanitize_provider_spec(request.provider@),
        server,
        Some(now),
        non_blank(request.default_privacy_note),
        request.confirmed_live_enabled,
    )
}

fn non_blank_copy(o: &Option<String>) -> (r: Option<String>)
    ensures
        oview(r) == non_blank(*o),
{
    match o {
        Some(x) => if trim_str(x.as_str()).len() > 0 {
            Some(x.clone())
        } else {
            None
        },
        None => None,
    }
}

/// The message of a keyless save that has no key to keep.
pub open spec fn missing_key_message() -> Seq<char> {
    "Enter a stream key before saving this destination."@
}

/// What a keyless save makes of the secret store's answer for the key
/// already on file: a key lets the save go on, no key is the missing-key
/// error, a lookup error is passed on.
pub open spec fn key_on_file_spec(loaded: Result<Option<Seq<char>>, Seq<char>>) -> Result<(), Seq<char>> {
    match loaded {
        Ok(Some(_)) => Ok(()),
        Ok(None) => Err(missing_key_message()),
        Err(e) => Err(e),
    }
}

/// The secret store's answer for the key already on file, as a keyless save
/// needs it (see `key_on_file_spec`).
pub fn key_on_file(loaded: Result<Option<String>, String>) -> (r: Result<(), String>)
    ensures
        unit_view(r) == key_on_file_spec(lookup_view(loaded)),
{
    match loaded {
        Ok(Some(_)) => Ok(()),
        Ok(None) => Err(String::from_str("Enter a stream key before saving this destination.")),
        Err(e) => Err(e),
    }
}

/// Once the key is settled: the record `rec` is in place of the one with
/// its id (or appended), and the result is its public form, flagged by
/// what the secret store answers for its key (or that answer's error).
pub open spec fn saved_and_listed<S: SecretStore>(
    old_rs: Seq<RecView>,
    new_rs: Seq<RecView>,
    s: &S,
    rec: RecView,
    r: Result<ManualDestination, String>,
) -> bool {
    &&& new_rs == upsert(old_rs, rec)
    &&& exists|a: Result<Option<Seq<char>>, Seq<char>>|
        #[trigger] load_answer(s, rec.0, a) && pub_result_view(r) == public_from_lookup_spec(rec, a)
}

/// A failed save: the error `m` and the records unchanged.
pub open spec fn refused(
    old_rs: Seq<RecView>,
    new_rs: Seq<RecView>,
    m: Seq<char>,
    r: Result<ManualDestination, String>,
) -> bool {
    r matches Err(e) && e@ == m && new_rs == old_rs
}

/// What a save at time `now` does: `old_rs` are the records before, `new_rs`
/// after, `r` the result, `s` the secret store. A given key is validated
/// and handed to the store's `save` for the destination's id; without one,
/// an existing record whose key the store still holds is required.
pub open spec fn save_outcome<S: SecretStore>(
    old_rs: Seq<RecView>,
    new_rs: Seq<RecView>,
    s: &S,
    request: ManualDestinationSaveRequest,
    now: u64,
    r: Result<ManualDestination, String>,
) -> bool {
    let id = save_id_spec(request, now);
    match normalize_server_url_spec(request.server_url@) {
        Err(m) => refused(old_rs, new_rs, m, r),
        Ok(server) => {
            let rec = saved_record(request, now, server);
            match non_blank(request.stream_key) {
                Some(k) => match validate_stream_key_spec(k) {
                    Err(m) => refused(old_rs, new_rs, m, r),
                    Ok(key) => exists|sa: Result<(), Seq<char>>|
                        #[trigger] save_answer(s, id, key, sa) && match sa {
                            Err(m) => refused(old_rs, new_rs, m, r),
                            Ok(()) => saved_and_listed(old_rs, new_rs, s, rec, r),
                        },
                },
                None => if find_record(old_rs, id) is None {
                    refused(old_rs, new_rs, missing_key_message(), r)
                } else {
                    exists|la: Result<Option<Seq<char>>, Seq<char>>|
                        #[trigger] load_answer(s, id, la) && match key_on_file_spec(la) {
                            Err(m) => refused(old_rs, new_rs, m, r),
                            Ok(()) => saved_and_listed(old_rs, new_rs, s, rec, r),
                        }
                },
            }
        },
    }
}

/// Editing a saved destination without giving its key again succeeds when
/// the secret store still holds the key: the record is put in place of the
/// saved one and is listed with its key on file. (The server URL must be
/// valid, and every answer the store can give for the id is a key.)
pub proof fn law_keyless_edit_keeps_saved_key<S: SecretStore>(
    old_rs: Seq<RecView>,
    new_rs: Seq<RecView>,
    s: &S,
    request: ManualDestinationSaveRequest,
    now: u64,
    r: Result<ManualDestination, String>,
)
    requires
        save_outcome(old_rs, new_rs, s, request, now, r),
        normalize_server_url_spec(request.server_url@) is Ok,
        non_blank(request.stream_key) is None,
        find_record(old_rs, save_id_spec(request, now)) is Some,
        forall|a: Result<Option<Seq<char>>, Seq<char>>|
            #[trigger] load_answer(s, save_id_spec(request, now), a) ==> a matches Ok(Some(_)),
    ensures
        new_rs == upsert(
            old_rs,
            saved_record(request, now, normalize_server_url_spec(request.server_url@)->Ok_0),
        ),
        r matches Ok(d) && d.has_saved_key && pub_view(d) == public_of(
            saved_record(request, now, normalize_server_url_spec(request.server_url@)->Ok_0),
            true,
        ),
{
    let id = save_id_spec(request, now);
    let rec = saved_record(request, now, normalize_server_url_spec(request.server_url@)->Ok_0);
    let la = choose|la: Result<Option<Seq<char>>, Seq<char>>|
        #[trigger] load_answer(s, id, la) && match key_on_file_spec(la) {
            Err(m) => refused(old_rs, new_rs, m, r),
            Ok(()) => saved_and_listed(old_rs, new_rs, s, rec, r),
        };
    assert(load_answer(s, id, la));
    assert(saved_and_listed(old_rs, new_rs, s, rec, r));
    let a = choose|a: Result<Option<Seq<char>>, Seq<char>>|
        #[trigger] load_answer(s, rec.0, a) && pub_result_view(r) == public_from_lookup_spec(rec, a);
    assert(load_answer(s, id, a));
}

/// Saves a destination at time `now`: the key (when given) goes to the
/// secret store, the record (never the key) is put in place of the record
/// with the same id or appended. Without a key, an existing record whose key
/// is still in the secret store is required.
#[verifier::rlimit(30)]
pub fn save_destination_at<S: SecretStore>(
    store: &mut ManualDestinationStore,
    secret_store: &S,
    request: ManualDestinationSaveRequest,
    now: u64,
) -> (r: Result<ManualDestination, String>)
    ensures
        save_outcome(
            records(old(store).destinations@),
            records(final(store).destinations@),
            secret_store,
            request,
            now,
            r,
        ),
{
    let provider = sanitize_provider(request.provider.as_str());
    let requested = non_blank_copy(&request.id);
    let id = match requested {
        Some(raw) => sanitize_id(raw.as_str(), now),
        None => {
            let mut s = provider.clone();
            s.push_str("-");
            push_decimal(&mut s, now);
            s
        },
    };
    assert(id@ == save_id_spec(request, now));
    let server_url = match normalize_server_url(request.server_url.as_str()) {
        Ok(s) => s,
        Err(e) => return Err(e),
    };
    let existing = find_index(store, id.as_str());
    let ghost given = non_blank(request.stream_key);
    let ghost mut answer: Option<Result<(), Seq<char>>> = None;
    let ghost mut key_answer: Result<Option<Seq<char>>, Seq<char>> = Ok(None);
    match non_blank_copy(&request.stream_key) {
        Some(key) => {
            let valid = match validate_stream_key(key.as_str()) {
                Ok(k) => k,
                Err(e) => return Err(e),
            };
            let write = SecretWriteRequest { destination_id: id.clone(), stream_key: valid };
            let saved = save_key(secret_store, &write);
            proof {
                answer = Some(unit_view(saved));
                assert(save_answer(
                    secret_store,
                    save_id_spec(request, now),
                    validate_stream_key_spec(given->Some_0)->Ok_0,
                    unit_view(saved),
                ));
            }
            match saved {
                Ok(()) => {},
                Err(e) => {
                    let r: Result<ManualDestination, String> = Err(e);
                    assert(save_answer(
                        secret_store,
                        save_id_spec(request, now),
                        validate_stream_key_spec(given->Some_0)->Ok_0,
                        Err(r->Err_0@),
                    ));
                    return r;
                },
            }
        },
        None => {
            assert(given is None);
            if existing.is_none() {
                return Err(String::from_str("Enter a stream key before saving this destination."));
            }
            let loaded = load_key(secret_store, id.as_str());
            proof {
                key_answer = lookup_view(loaded);
                assert(load_answer(secret_store, save_id_spec(request, now), key_answer));
            }
            match key_on_file(loaded) {
                Ok(()) => {},
                Err(e) => {
                    let r: Result<ManualDestination, String> = Err(e);
                    assert(key_on_file_spec(key_answer) == Err::<(), Seq<char>>(r->Err_0@));
                    assert(load_answer(secret_store, save_id_spec(request, now), key_answer));
                    return r;
                },
            }
        },
    }
    let label = if_empty_else(string_of(&trim_str(request.label.as_str())), default_label(provider.as_str()));
    let stored = StoredManualDestination {
        id,
        label,
        provider,
        server_url,
        last_used_at: Some(now),
        default_privacy_note: non_blank_copy(&request.default_privacy_note),
        confirmed_live_enabled: request.confirmed_live_enabled,
    };
    let copy = copy_record(&stored);
    proof {
        lemma_find_record_from(records(store.destinations@), stored.id@, 0);
    }
    match existing {
        Some(i) => {
            store.destinations.set(i, copy);
        },
        None => {
            store.destinations.push(copy);
        },
    }
    assert(records(store.destinations@) =~= upsert(
        records(old(store).destinations@),
        rec_view(stored),
    ));
    let ghost rv = rec_view(stored);
    assert(rv == saved_record(request, now, normalize_server_url_spec(request.server_url@)->Ok_0));
    let r = stored.to_public(secret_store);
    proof {
        let a = choose|a: Result<Option<Seq<char>>, Seq<char>>|
            #[trigger] load_answer(secret_store, rv.0, a) && pub_result_view(r)
                == public_from_lookup_spec(rv, a);
        assert(load_answer(secret_store, rv.0, a));
        assert(saved_and_listed(
            records(old(store).destinations@),
            records(store.destinations@),
            secret_store,
            rv,
            r,
        ));
        if given is Some {
            assert(answer == Some(Ok::<(), Seq<char>>(())));
            assert(save_answer(
                secret_store,
                save_id_spec(request, now),
                validate_stream_key_spec(given->Some_0)->Ok_0,
                Ok(()),
            ));
        } else {
            assert(load_answer(secret_store, save_id_spec(request, now), key_answer));
        }
    }
    r
}

/// Saves a destination, stamped with the current time (see
/// `save_destination_at`).
pub fn save_destination<S: SecretStore>(
    store: &mut ManualDestinationStore,
    secret_store: &S,
    request: ManualDestinationSaveRequest,
) -> (r: Result<ManualDestination, String>)
    ensures
        exists|now: u64|
            #[trigger] save_outcome(
                records(old(store).destinations@),
                records(final(store).destinations@),
                secret_store,
                request,
                now,
                r,
            ),
{
    let now = crate::ffmpeg::now_millis();
    save_destination_at(store, secret_store, request, now)
}

// ---------------------------------------------------------------------------
// Checking destinations
// ---------------------------------------------------------------------------
/// A check result by the views of its fields.
pub type TestView = (bool, Option<Seq<char>>, Option<Seq<char>>, Seq<char>);

pub open spec fn test_view(r: DestinationTestResult) -> TestView {
    (r.ok, oview(r.normalized_server_url), oview(r.redacted_url), r.message@)
}

pub open spec fn failed_view(message: Seq<char>) -> TestView {
    (false, None, None, message)
}

/// The local check of a server URL and key: the first failing validation's
/// message, or success with the normalized URL and the URL with its key
/// redacted.
pub open spec fn inline_test_spec(server: Seq<char>, key: Option<Seq<char>>) -> TestView {
    match normalize_server_url_spec(server) {
        Err(m) => failed_view(m),
        Ok(s) => match key {
            None => failed_view("Enter a stream key before testing this destination."@),
            Some(k) => match validate_stream_key_spec(k) {
                Err(m) => failed_view(m),
                Ok(vk) => (
                    true,
                    Some(s),
                    Some(s + redact_secret_spec(vk)),
                    "Destination details are valid locally."@,
                ),
            },
        },
    }
}

/// What the local check needs: a key that passes validation can be
/// redacted at byte four.
pub open spec fn inline_testable(server: Seq<char>, key: Option<Seq<char>>) -> bool {
    match (normalize_server_url_spec(server), key) {
        (Ok(_), Some(k)) => validate_stream_key_spec(k) is Ok ==> redactable(trim(k)),
        _ => true,
    }
}

pub fn test_inline_destination(destination: ManualDestinationTestInput) -> (r: DestinationTestResult)
    requires
        inline_testable(destination.server_url@, oview(destination.stream_key)),
    ensures
        test_view(r) == inline_test_spec(destination.server_url@, oview(destination.stream_key)),
{
    let server_url = match normalize_server_url(destination.server_url.as_str()) {
        Ok(s) => s,
        Err(m) => return DestinationTestResult::failed(m),
    };
    let stream_key = match &destination.stream_key {
        Some(value) => match validate_stream_key(value.as_str()) {
            Ok(k) => k,
            Err(m) => return DestinationTestResult::failed(m),
        },
        None => {
            return DestinationTestResult::failed(
                String::from_str("Enter a stream key before testing this destination."),
            );
        },
    };
    proof {
        lemma_normalize_server_url_idempotent(destination.server_url@);
        lemma_validate_stream_key_idempotent(destination.stream_key->0@);
        lemma_trim_by_idempotent(destination.stream_key->0@, TrimPattern::Whitespace);
    }
    let redacted = match redacted_destination_url(server_url.as_str(), stream_key.as_str()) {
        Ok(u) => Some(u),
        Err(_) => None,
    };
    DestinationTestResult {
        ok: true,
        normalized_server_url: Some(server_url),
        redacted_url: redacted,
        message: String::from_str("Destination details are valid locally."),
    }
}

fn is_redactable(v: &Vec<char>) -> (r: bool)
    ensures
        r == redactable(v@),
{
    !utf8_len_exceeds(v, 8) || chars_in_bytes_exec(v, 4).is_some()
}

/// Whether the local check can show `key` redacted (see `inline_testable`).
pub fn is_inline_testable(server: &str, key: &str) -> (r: bool)
    ensures
        r == inline_testable(server@, Some(key@)),
{
    match normalize_server_url(server) {
        Err(_) => true,
        Ok(_) => match validate_stream_key(key) {
            Err(_) => true,
            Ok(_) => is_redactable(&trim_str(key)),
        },
    }
}

/// The check of a saved destination whose server URL is `server`, given
/// what the secret store returned for its key.
pub open spec fn saved_test_outcome(
    server: Seq<char>,
    loaded: Result<Option<String>, String>,
    r: Result<DestinationTestResult, String>,
) -> bool {
    match loaded {
        Err(e) => r == Err::<DestinationTestResult, String>(e),
        Ok(None) => r matches Ok(t) && test_view(t) == failed_view(
            "Saved destination is missing its keychain stream key."@,
        ),
        Ok(Some(k)) => if inline_testable(server, Some(k@)) {
            r matches Ok(t) && test_view(t) == inline_test_spec(server, Some(k@))
        } else {
            r matches Err(e) && e@ == "Saved stream key cannot be shown redacted."@
        },
    }
}

/// The check of a saved destination once its key has been looked up:
/// a missing key fails the check, a lookup error is passed on, and a key
/// that cannot be shown redacted is refused.
pub fn saved_destination_test_result(server_url: &str, loaded: Result<Option<String>, String>) -> (r:
    Result<DestinationTestResult, String>)
    ensures
        saved_test_outcome(server_url@, loaded, r),
{
    match loaded {
        Err(e) => Err(e),
        Ok(None) => Ok(
            DestinationTestResult::failed(
                String::from_str("Saved destination is missing its keychain stream key."),
            ),
        ),
        Ok(Some(key)) => {
            if is_inline_testable(server_url, key.as_str()) {
                Ok(
                    test_inline_destination(
                        ManualDestinationTestInput {
                            server_url: String::from_str(server_url),
                            stream_key: Some(key),
                        },
                    ),
                )
            } else {
                Err(String::from_str("Saved stream key cannot be shown redacted."))
            }
        },
    }
}

/// Checks the saved destination `destination_id` with the key the secret
/// store holds for it.
pub fn test_saved_destination<S: SecretStore>(
    store: &ManualDestinationStore,
    secret_store: &S,
    destination_id: &str,
) -> (r: Result<DestinationTestResult, String>)
    ensures
        match find_record(records(store.destinations@), destination_id@) {
            None => r matches Ok(t) && test_view(t) == failed_view(
                "Saved destination was not found."@,
            ),
            Some(i) => exists|loaded: Result<Option<String>, String>|
                #[trigger] saved_test_outcome(records(store.destinations@)[i].3, loaded, r)
                    && load_answer(secret_store, destination_id@, lookup_view(loaded)),
        },
{
    let destination = match find_destination(store, destination_id) {
        Some(d) => d,
        None => {
            return Ok(DestinationTestResult::failed(String::from_str("Saved destination was not found.")));
        },
    };
    let loaded = load_key(secret_store, destination_id);
    let ghost answer = loaded;
    let r = saved_destination_test_result(destination.server_url.as_str(), loaded);
    assert(saved_test_outcome(destination.server_url@, answer, r));
    r
}

/// Checks a saved destination (when an id is given) or inline details.
pub fn test_rtmp_destination<S: SecretStore>(
    store: &ManualDestinationStore,
    secret_store: &S,
    request: ManualDestinationTestRequest,
) -> (r: Result<DestinationTestResult, String>)
    requires
        request.destination_id is None ==> (request.inline_destination matches Some(d)
            ==> inline_testable(d.server_url@, oview(d.stream_key))),
    ensures
        match (request.destination_id, request.inline_destination) {
            (Some(id), _) => match find_record(records(store.destinations@), id@) {
                None => r matches Ok(t) && test_view(t) == failed_view(
                    "Saved destination was not found."@,
                ),
                Some(i) => exists|loaded: Result<Option<String>, String>|
                    #[trigger] saved_test_outcome(records(store.destinations@)[i].3, loaded, r)
                        && load_answer(secret_store, id@, lookup_view(loaded)),
            },
            (None, Some(d)) => r matches Ok(t) && test_view(t) == inline_test_spec(
                d.server_url@,
                oview(d.stream_key),
            ),
            (None, None) => r matches Ok(t) && test_view(t) == failed_view(
                "Provide either a saved destination id or inline destination details."@,
            ),
        },
{
    if let Some(destination_id) = &request.destination_id {
        return test_saved_destination(store, secret_store, destination_id.as_str());
    }
    if let Some(inline_destination) = request.inline_destination {
        return Ok(test_inline_destination(inline_destination));
    }
    Ok(
        DestinationTestResult::failed(
            String::from_str("Provide either a saved destination id or inline destination details."),
        ),
    )
}


// ---------------------------------------------------------------------------
// Listing
// ---------------------------------------------------------------------------
/// Whether a destination last used at `a` counts as more recent than one
/// last used at `b` (never used is oldest).
pub open spec fn used_after(a: Option<u64>, b: Option<u64>) -> bool {
    match (a, b) {
        (Some(x), Some(y)) => x > y,
        (Some(_), None) => true,
        _ => false,
    }
}

/// Listing order: most recently used first, then by label.
pub open spec fn listed_before(a: PubView, b: PubView) -> bool {
    used_after(a.5, b.5) || (a.5 == b.5 && seq_lt(a.1, b.1))
}

/// `v` lists the records `rs` in listing order; records that rank equal keep
/// their stored order. `perm[i]` is the record shown at position `i`.
pub open spec fn is_listing_by(v: Seq<ManualDestination>, rs: Seq<RecView>, perm: Seq<int>) -> bool {
    &&& v.len() == rs.len()
    &&& perm.len() == rs.len()
    &&& forall|i: int| 0 <= i < perm.len() ==> 0 <= #[trigger] perm[i] < rs.len()
    &&& forall|i: int, j: int| 0 <= i < j < perm.len() ==> perm[i] != perm[j]
    &&& forall|i: int|
        0 <= i < v.len() ==> pub_view(#[trigger] v[i]) == public_of(rs[perm[i]], v[i].has_saved_key)
    &&& forall|i: int, j: int|
        0 <= i < j < v.len() ==> listed_before(pub_view(v[i]), pub_view(v[j])) || (!listed_before(
            pub_view(v[j]),
            pub_view(v[i]),
        ) && perm[i] < perm[j])
}

/// `v` lists the records `rs` in listing order, by some choice of positions.
pub open spec fn is_listing(v: Seq<ManualDestination>, rs: Seq<RecView>) -> bool {
    exists|perm: Seq<int>| is_listing_by(v, rs, perm)
}

pub open spec fn rank_lt(used: Seq<Option<u64>>, labels: Seq<Seq<char>>, i: int, j: int) -> bool {
    used_after(used[i], used[j]) || (used[i] == used[j] && seq_lt(labels[i], labels[j]))
}

/// The listing order on positions, ties broken by position.
pub open spec fn idx_before(used: Seq<Option<u64>>, labels: Seq<Seq<char>>, i: int, j: int) -> bool {
    rank_lt(used, labels, i, j) || (!rank_lt(used, labels, j, i) && i < j)
}

proof fn lemma_rank_lt(used: Seq<Option<u64>>, labels: Seq<Seq<char>>, i: int, j: int, k: int)
    ensures
        !rank_lt(used, labels, i, i),
        rank_lt(used, labels, i, j) ==> !rank_lt(used, labels, j, i),
        rank_lt(used, labels, i, j) && rank_lt(used, labels, j, k) ==> rank_lt(used, labels, i, k),
        !rank_lt(used, labels, i, j) && !rank_lt(used, labels, j, i) ==> used[i] == used[j]
            && labels[i] == labels[j],
{
    lemma_seq_lt_irreflexive(labels[i]);
    lemma_seq_lt_asym(labels[i], labels[j]);
    lemma_seq_lt_total(labels[i], labels[j]);
    if seq_lt(labels[i], labels[j]) && seq_lt(labels[j], labels[k]) {
        lemma_seq_lt_trans(labels[i], labels[j], labels[k]);
    }
    if used[i] != used[j] {
        match (used[i], used[j]) {
            (Some(x), Some(y)) => {},
            _ => {},
        }
    }
}

proof fn lemma_idx_before(used: Seq<Option<u64>>, labels: Seq<Seq<char>>, i: int, j: int, k: int)
    ensures
        !idx_before(used, labels, i, i),
        i != j ==> idx_before(used, labels, i, j) || idx_before(used, labels, j, i),
        idx_before(used, labels, i, j) ==> !idx_before(used, labels, j, i),
        idx_before(used, labels, i, j) && idx_before(used, labels, j, k) ==> idx_before(
            used,
            labels,
            i,
            k,
        ),
{
    lemma_rank_lt(used, labels, i, j, k);
    lemma_rank_lt(used, labels, j, i, k);
    lemma_rank_lt(used, labels, i, k, j);
    lemma_rank_lt(used, labels, k, i, j);
    lemma_rank_lt(used, labels, j, k, i);
    lemma_rank_lt(used, labels, k, j, i);
    lemma_rank_lt(used, labels, i, j, i);
    lemma_rank_lt(used, labels, j, k, j);
    lemma_rank_lt(used, labels, k, i, k);
}

fn used_after_exec(a: Option<u64>, b: Option<u64>) -> (r: bool)
    ensures
        r == used_after(a, b),
{
    match (a, b) {
        (Some(x), Some(y)) => x > y,
        (Some(_), None) => true,
        _ => false,
    }
}

fn rank_lt_exec(used: &Vec<Option<u64>>, labels: &Vec<Vec<char>>, i: usize, j: usize) -> (r: bool)
    requires
        i < used.len(),
        j < used.len(),
        used.len() == labels.len(),
    ensures
        r == rank_lt(used@, vviews_of(labels@), i as int, j as int),
{
    used_after_exec(used[i], used[j]) || (used[i] == used[j] && chars_lt(&labels[i], &labels[j]))
}

pub open spec fn vviews_of(v: Seq<Vec<char>>) -> Seq<Seq<char>> {
    v.map_values(|x: Vec<char>| x@)
}

fn idx_before_exec(used: &Vec<Option<u64>>, labels: &Vec<Vec<char>>, i: usize, j: usize) -> (r: bool)
    requires
        i < used.len(),
        j < used.len(),
        used.len() == labels.len(),
    ensures
        r == idx_before(used@, vviews_of(labels@), i as int, j as int),
{
    rank_lt_exec(used, labels, i, j) || (!rank_lt_exec(used, labels, j, i) && i < j)
}

/// Positions `0..n` in listing order (insertion sort, stable).
fn sort_order(used: &Vec<Option<u64>>, labels: &Vec<Vec<char>>) -> (order: Vec<usize>)
    requires
        used.len() == labels.len(),
    ensures
        order@.len() == used@.len(),
        forall|a: int| 0 <= a < order@.len() ==> #[trigger] order@[a] < used@.len(),
        forall|a: int, b: int| 0 <= a < b < order@.len() ==> order@[a] != order@[b],
        forall|a: int, b: int|
            0 <= a < b < order@.len() ==> idx_before(
                used@,
                vviews_of(labels@),
                order@[a] as int,
                order@[b] as int,
            ),
{
    let ghost ls = vviews_of(labels@);
    let mut order: Vec<usize> = Vec::new();
    for i in 0..used.len()
        invariant
            used.len() == labels.len(),
            ls == vviews_of(labels@),
            order@.len() == i,
            forall|a: int| 0 <= a < order@.len() ==> #[trigger] order@[a] < i,
            forall|a: int, b: int| 0 <= a < b < order@.len() ==> order@[a] != order@[b],
            forall|a: int, b: int|
                0 <= a < b < order@.len() ==> idx_before(
                    used@,
                    ls,
                    order@[a] as int,
                    order@[b] as int,
                ),
    {
        let mut p: usize = 0;
        while p < order.len() && idx_before_exec(used, labels, order[p], i)
            invariant
                used.len() == labels.len(),
                ls == vviews_of(labels@),
                i < used.len(),
                p <= order@.len(),
                order@.len() == i,
                forall|a: int| 0 <= a < order@.len() ==> #[trigger] order@[a] < i,
                forall|a: int| 0 <= a < p ==> idx_before(used@, ls, #[trigger] order@[a] as int, i as int),
            decreases order.len() - p,
        {
            p = p + 1;
        }
        let ghost before = order@;
        proof {
            if p < before.len() {
                lemma_idx_before(used@, ls, before[p as int] as int, i as int, 0);
                assert forall|b: int| p <= b < before.len() implies idx_before(
                    used@,
                    ls,
                    i as int,
                    #[trigger] before[b] as int,
                ) by {
                    if b > p {
                        lemma_idx_before(used@, ls, i as int, before[p as int] as int, before[b] as int);
                    }
                }
            }
        }
        order.insert(p, i);
        assert forall|a: int, b: int| 0 <= a < b < order@.len() implies idx_before(
            used@,
            ls,
            order@[a] as int,
            order@[b] as int,
        ) by {
            if a < p && b == p {
            } else if a == p && b > p {
                assert(order@[b] == before[b - 1]);
            } else if a < p && b > p {
                assert(order@[b] == before[b - 1]);
            } else if a > p {
                assert(order@[a] == before[a - 1]);
                assert(order@[b] == before[b - 1]);
            }
        }
        assert forall|a: int, b: int| 0 <= a < b < order@.len() implies order@[a] != order@[b] by {
            if a < p && b == p {
                assert(before[a] < i);
            } else if a == p && b > p {
                assert(order@[b] == before[b - 1]);
                assert(before[b - 1] < i);
            } else if a < p && b > p {
                assert(order@[b] == before[b - 1]);
            } else if a > p {
                assert(order@[a] == before[a - 1]);
                assert(order@[b] == before[b - 1]);
            }
        }
        assert forall|a: int| 0 <= a < order@.len() implies #[trigger] order@[a] < i + 1 by {
            if a < p {
            } else if a > p {
                assert(order@[a] == before[a - 1]);
            }
        }
    }
    order
}

fn copy_destination(d: &ManualDestination) -> (c: ManualDestination)
    ensures
        pub_view(c) == pub_view(*d),
        c.has_saved_key == d.has_saved_key,
{
    ManualDestination {
        id: d.id.clone(),
        label: d.label.clone(),
        provider: d.provider.clone(),
        server_url: d.server_url.clone(),
        has_saved_key: d.has_saved_key,
        last_used_at: d.last_used_at,
        default_privacy_note: copy_opt_string(&d.default_privacy_note),
        confirmed_live_enabled: d.confirmed_live_enabled,
    }
}

/// `v` lists the records `rs` in listing order, the record shown at each
/// position carrying its own key flag from `keys`.
pub open spec fn is_keyed_listing(v: Seq<ManualDestination>, rs: Seq<RecView>, keys: Seq<bool>) -> bool {
    exists|perm: Seq<int>|
        is_listing_by(v, rs, perm) && forall|i: int|
            0 <= i < v.len() ==> #[trigger] v[i].has_saved_key == keys[perm[i]]
}

/// `b` is the key flag that an answer of the store's `load` for `id` gives:
/// whether a key was found.
pub open spec fn key_flag_answer<S: SecretStore>(s: &S, id: Seq<char>, b: bool) -> bool {
    exists|f: Option<Seq<char>>| #[trigger] load_answer(s, id, Ok(f)) && b == (f is Some)
}

/// The store's `load` can answer the lookup of `id` with a success.
pub open spec fn answered_ok<S: SecretStore>(s: &S, id: Seq<char>) -> bool {
    exists|f: Option<Seq<char>>| #[trigger] load_answer(s, id, Ok(f))
}

/// Every answer the store's `load` can give for the ids of `rs` is a
/// success.
pub open spec fn lookups_succeed<S: SecretStore>(s: &S, rs: Seq<RecView>) -> bool {
    forall|k: int, a: Result<Option<Seq<char>>, Seq<char>>|
        0 <= k < rs.len() && #[trigger] load_answer(s, rs[k].0, a) ==> a is Ok
}

/// The saved destinations in listing order, each flagged by what the secret
/// store answered for its key; the first lookup error is passed on. When
/// the store's lookups succeed (with no saved destination, none is made),
/// so does the listing.
pub fn load_destinations<S: SecretStore>(store: &ManualDestinationStore, secret_store: &S) -> (r:
    Result<Vec<ManualDestination>, String>)
    ensures
        r matches Ok(v) ==> is_listing(v@, records(store.destinations@)),
        r matches Ok(v) ==> exists|keys: Seq<bool>|
            keys.len() == store.destinations@.len() && (forall|k: int|
                0 <= k < keys.len() ==> #[trigger] key_flag_answer(
                    secret_store,
                    records(store.destinations@)[k].0,
                    keys[k],
                )) && is_keyed_listing(v@, records(store.destinations@), keys),
        r matches Err(e) ==> exists|k: int|
            0 <= k < store.destinations@.len() && #[trigger] load_answer(
                secret_store,
                records(store.destinations@)[k].0,
                Err(e@),
            ) && forall|j: int|
                0 <= j < k ==> #[trigger] answered_ok(secret_store, records(store.destinations@)[j].0),
        lookups_succeed(secret_store, records(store.destinations@)) ==> r is Ok,
        store.destinations@.len() == 0 ==> (r matches Ok(v) && v@.len() == 0),
{
    let ghost rs = records(store.destinations@);
    let n = store.destinations.len();
    let mut keys: Vec<bool> = Vec::new();
    for i in 0..n
        invariant
            n == store.destinations.len(),
            rs == records(store.destinations@),
            keys@.len() == i,
            forall|k: int| 0 <= k < i ==> #[trigger] key_flag_answer(secret_store, rs[k].0, keys@[k]),
            forall|k: int| 0 <= k < i ==> #[trigger] answered_ok(secret_store, rs[k].0),
    {
        let rec = copy_record(&store.destinations[i]);
        assert(rec_view(rec) == rs[i as int]);
        let ghost rv = rec_view(rec);
        match rec.to_public(secret_store) {
            Ok(d) => {
                proof {
                    let a = choose|a: Result<Option<Seq<char>>, Seq<char>>|
                        #[trigger] load_answer(secret_store, rv.0, a) && pub_result_view(
                            Ok::<ManualDestination, String>(d),
                        ) == public_from_lookup_spec(rv, a);
                    let f = a->Ok_0;
                    assert(load_answer(secret_store, rv.0, Ok(f)));
                    assert(key_flag_answer(secret_store, rs[i as int].0, d.has_saved_key));
                    assert(answered_ok(secret_store, rs[i as int].0));
                }
                keys.push(d.has_saved_key);
            },
            Err(e) => {
                proof {
                    let a = choose|a: Result<Option<Seq<char>>, Seq<char>>|
                        #[trigger] load_answer(secret_store, rv.0, a) && pub_result_view(
                            Err::<ManualDestination, String>(e),
                        ) == public_from_lookup_spec(rv, a);
                    assert(a == Err::<Option<Seq<char>>, Seq<char>>(e@));
                    assert(load_answer(secret_store, rs[i as int].0, Err(e@)));
                }
                let r: Result<Vec<ManualDestination>, String> = Err(e);
                assert(load_answer(
                    secret_store,
                    records(store.destinations@)[i as int].0,
                    Err(r->Err_0@),
                ));
                return r;
            },
        }
    }
    let v = listing_with_keys(store, &keys);
    proof {
        let perm = choose|perm: Seq<int>|
            is_listing_by(v@, records(store.destinations@), perm) && forall|i: int|
                0 <= i < v@.len() ==> #[trigger] v@[i].has_saved_key == keys@[perm[i]];
        assert(is_listing_by(v@, records(store.destinations@), perm));
        assert(forall|k: int|
            0 <= k < keys@.len() ==> #[trigger] key_flag_answer(
                secret_store,
                records(store.destinations@)[k].0,
                keys@[k],
            ));
        assert(keys@.len() == store.destinations@.len());
        assert(is_keyed_listing(v@, records(store.destinations@), keys@));
    }
    let ghost v0 = v;
    let r: Result<Vec<ManualDestination>, String> = Ok(v);
    assert(r->Ok_0 == v0);
    assert(is_keyed_listing(r->Ok_0@, records(store.destinations@), keys@));
    r
}

/// The saved destinations in listing order, record `k` flagged by
/// `has_key[k]` as having a saved key.
#[verifier::rlimit(30)]
pub fn listing_with_keys(store: &ManualDestinationStore, has_key: &Vec<bool>) -> (v: Vec<ManualDestination>)
    requires
        has_key.len() == store.destinations.len(),
    ensures
        is_keyed_listing(v@, records(store.destinations@), has_key@),
{
    let ghost rs = records(store.destinations@);
    let n = store.destinations.len();
    let mut pubs: Vec<ManualDestination> = Vec::new();
    let mut used: Vec<Option<u64>> = Vec::new();
    let mut labels: Vec<Vec<char>> = Vec::new();
    for i in 0..n
        invariant
            n == store.destinations.len(),
            n == has_key.len(),
            rs == records(store.destinations@),
            pubs@.len() == i,
            used@.len() == i,
            labels@.len() == i,
            forall|k: int|
                0 <= k < i ==> pub_view(#[trigger] pubs@[k]) == public_of(rs[k], has_key@[k]),
            forall|k: int| 0 <= k < i ==> #[trigger] used@[k] == pubs@[k].last_used_at,
            forall|k: int| 0 <= k < i ==> #[trigger] labels@[k]@ == pubs@[k].label@,
    {
        let d = public_with_flag(copy_record(&store.destinations[i]), has_key[i]);
        used.push(d.last_used_at);
        labels.push(chars_of(d.label.as_str()));
        pubs.push(d);
    }
    let order = sort_order(&used, &labels);
    let mut out: Vec<ManualDestination> = Vec::new();
    for a in 0..n
        invariant
            n == store.destinations.len(),
            rs == records(store.destinations@),
            pubs@.len() == n,
            order@.len() == n,
            used@.len() == n,
            labels@.len() == n,
            forall|b: int| 0 <= b < order@.len() ==> #[trigger] order@[b] < n,
            n == has_key.len(),
            forall|k: int|
                0 <= k < n ==> pub_view(#[trigger] pubs@[k]) == public_of(rs[k], has_key@[k]),
            out@.len() == a,
            forall|b: int|
                0 <= b < a ==> pub_view(#[trigger] out@[b]) == pub_view(pubs@[order@[b] as int])
                    && out@[b].has_saved_key == pubs@[order@[b] as int].has_saved_key,
    {
        let k = order[a];
        out.push(copy_destination(&pubs[k]));
    }
    let ghost perm = order@.map_values(|x: usize| x as int);
    proof {
        let ls = vviews_of(labels@);
        assert forall|i: int, j: int| 0 <= i < j < out@.len() implies listed_before(
            pub_view(out@[i]),
            pub_view(out@[j]),
        ) || (!listed_before(pub_view(out@[j]), pub_view(out@[i])) && perm[i] < perm[j]) by {
            let oi = order@[i] as int;
            let oj = order@[j] as int;
            assert(idx_before(used@, ls, oi, oj));
            assert(used@[oi] == pubs@[oi].last_used_at);
            assert(used@[oj] == pubs@[oj].last_used_at);
            assert(ls[oi] == labels@[oi]@);
            assert(ls[oj] == labels@[oj]@);
        }
        assert forall|i: int| 0 <= i < out@.len() implies #[trigger] out@[i].has_saved_key
            == has_key@[perm[i]] by {
            assert(pub_view(pubs@[order@[i] as int]).4 == has_key@[order@[i] as int]);
        }
        assert(is_listing_by(out@, rs, perm));
        assert(is_listing_by(out@, records(store.destinations@), perm));
    }
    out
}



// ---------------------------------------------------------------------------
// Laws of the saved destinations
// ---------------------------------------------------------------------------
proof fn lemma_find_record_first(rs: Seq<RecView>, id: Seq<char>, i: int, k: int)
    requires
        0 <= i <= k < rs.len(),
        rs[k].0 == id,
        forall|j: int| i <= j < k ==> rs[j].0 != id,
    ensures
        find_record_from(rs, id, i) == Some(k),
    decreases k - i,
{
    if i < k {
        lemma_find_record_first(rs, id, i + 1, k);
    }
}

proof fn lemma_find_record_absent(rs: Seq<RecView>, id: Seq<char>, i: int)
    requires
        0 <= i,
        forall|j: int| i <= j < rs.len() ==> rs[j].0 != id,
    ensures
        find_record_from(rs, id, i) is None,
    decreases rs.len() - i,
{
    if i < rs.len() {
        lemma_find_record_absent(rs, id, i + 1);
    }
}

/// Two record lists in which the same positions carry `id`, the second
/// possibly longer with no `id` beyond the first's end, find it alike.
proof fn lemma_find_record_agree(a: Seq<RecView>, b: Seq<RecView>, id: Seq<char>, i: int)
    requires
        0 <= i,
        a.len() <= b.len(),
        forall|j: int| 0 <= j < a.len() ==> (a[j].0 == id <==> b[j].0 == id),
        forall|j: int| a.len() <= j < b.len() ==> b[j].0 != id,
    ensures
        find_record_from(a, id, i) == find_record_from(b, id, i),
    decreases b.len() - i,
{
    if i < b.len() {
        lemma_find_record_agree(a, b, id, i + 1);
    }
}

/// After a destination is saved, looking its id up finds exactly the saved
/// record.
pub proof fn law_saved_record_is_found(rs: Seq<RecView>, rec: RecView)
    ensures
        find_record(upsert(rs, rec), rec.0) matches Some(i) && upsert(rs, rec)[i] == rec,
{
    lemma_find_record_from(rs, rec.0, 0);
    match find_record(rs, rec.0) {
        Some(i) => {
            let u = rs.update(i, rec);
            lemma_find_record_first(u, rec.0, 0, i);
        },
        None => {
            let u = rs.push(rec);
            lemma_find_record_first(u, rec.0, 0, rs.len() as int);
        },
    }
}

/// Saving a destination leaves what a lookup of any other id finds
/// unchanged.
pub proof fn law_save_keeps_other_records(rs: Seq<RecView>, rec: RecView, id: Seq<char>)
    requires
        id != rec.0,
    ensures
        find_record(upsert(rs, rec), id) == find_record(rs, id),
        find_record(rs, id) matches Some(i) ==> upsert(rs, rec)[i] == rs[i],
{
    lemma_find_record_from(rs, rec.0, 0);
    lemma_find_record_from(rs, id, 0);
    let u = upsert(rs, rec);
    lemma_find_record_agree(rs, u, id, 0);
}

proof fn lemma_remove_id_absent(rs: Seq<RecView>, id: Seq<char>)
    ensures
        forall|j: int| 0 <= j < remove_id(rs, id).len() ==> remove_id(rs, id)[j].0 != id,
    decreases rs.len(),
{
    if rs.len() > 0 {
        let kept = remove_id(rs.drop_last(), id);
        lemma_remove_id_absent(rs.drop_last(), id);
        if rs.last().0 != id {
            assert forall|j: int| 0 <= j < kept.push(rs.last()).len() implies #[trigger] kept.push(
                rs.last(),
            )[j].0 != id by {
                if j < kept.len() {
                    assert(kept.push(rs.last())[j] == kept[j]);
                }
            }
        }
    }
}

/// After a destination is deleted, no lookup of its id finds anything.
pub proof fn law_deleted_record_is_gone(rs: Seq<RecView>, id: Seq<char>)
    ensures
        find_record(remove_id(rs, id), id) is None,
{
    lemma_remove_id_absent(rs, id);
    lemma_find_record_absent(remove_id(rs, id), id, 0);
}

/// The stream key never reaches the saved records: two save requests that
/// differ only in their key write the same record.
pub proof fn law_saved_record_ignores_stream_key(
    a: ManualDestinationSaveRequest,
    b: ManualDestinationSaveRequest,
    now: u64,
    server: Seq<char>,
)
    requires
        a.id == b.id,
        a.label == b.label,
        a.provider == b.provider,
        a.server_url == b.server_url,
        a.default_privacy_note == b.default_privacy_note,
        a.confirmed_live_enabled == b.confirmed_live_enabled,
    ensures
        saved_record(a, now, server) == saved_record(b, now, server),
{
}

/// Marking a destination used changes only that record's last use.
pub proof fn law_mark_used_changes_only_last_use(rs: Seq<RecView>, id: Seq<char>, now: u64)
    requires
        find_record(rs, id) is Some,
    ensures
        ({
            let i = find_record(rs, id)->0;
            let u = rs.update(i, stamped(rs[i], now));
            &&& u.len() == rs.len()
            &&& forall|j: int| 0 <= j < rs.len() && j != i ==> u[j] == rs[j]
            &&& u[i].0 == rs[i].0 && u[i].1 == rs[i].1 && u[i].2 == rs[i].2 && u[i].3 == rs[i].3
            &&& u[i].4 == Some(now)
            &&& u[i].5 == rs[i].5 && u[i].6 == rs[i].6
        }),
{
    lemma_find_record_from(rs, id, 0);
}


/// The local check of a destination never shows its stream key: the
/// redacted URL lacks the key and carries the redaction, provided the key
/// holds neither `/` nor `.` and occurs neither in the server URL nor in the
/// marker.
#[verifier::rlimit(30)]
pub proof fn law_inline_test_hides_stream_key(server: Seq<char>, key: Seq<char>)
    requires
        normalize_server_url_spec(server) is Ok,
        validate_stream_key_spec(key) matches Ok(k) && {
            &&& redactable(k)
            &&& !contains(normalize_server_url_spec(server)->Ok_0, k)
            &&& !contains(redaction_marker(), k)
            &&& forall|j: int| 0 <= j < k.len() ==> #[trigger] k[j] != '/' && k[j] != '.'
        },
    ensures
        inline_test_spec(server, Some(key)).0,
        inline_test_spec(server, Some(key)).2 matches Some(shown) && !contains(
            shown,
            validate_stream_key_spec(key)->Ok_0,
        ) && contains(shown, "[redacted]"@),
{
    let s = normalize_server_url_spec(server)->Ok_0;
    let k = validate_stream_key_spec(key)->Ok_0;
    reveal_strlit("/");
    let t = trim(server);
    if t.last() != '/' {
        assert((t + "/"@).last() == '/');
    }
    law_redaction_hides_secret(s, k);
}

// ---------------------------------------------------------------------------
// Resolving a session's destination from a saved one
// ---------------------------------------------------------------------------
/// `d` is `requested` pointed at a saved destination: its label, its
/// normalized server URL and its stream key; a manual RTMP destination is
/// published as RTMPS. Nothing else changes.
pub open spec fn resolved_from(
    d: DestinationConfig,
    requested: DestinationConfig,
    label: Seq<char>,
    server_url: Seq<char>,
    stream_key: Seq<char>,
) -> bool {
    &&& d.label@ == label
    &&& d.rtmp_url matches Some(u) && u@ == server_url
    &&& d.stream_key matches Some(k) && k@ == stream_key
    &&& d.kind == (if requested.kind == DestinationKind::ManualRtmp {
        DestinationKind::YoutubeRtmps
    } else {
        requested.kind
    })
    &&& d.manual_destination_id == requested.manual_destination_id
    &&& d.broadcast_id == requested.broadcast_id
    &&& d.stream_id == requested.stream_id
    &&& d.live_chat_id == requested.live_chat_id
}

/// `destination` completed from a saved one with label `saved_label` and
/// server URL `saved_server_url`, given the secret store's answer
/// `loaded_key` for its key.
pub open spec fn applied_outcome(
    destination: DestinationConfig,
    saved_label: Seq<char>,
    saved_server_url: Seq<char>,
    loaded_key: Result<Option<Seq<char>>, Seq<char>>,
    r: Result<DestinationConfig, String>,
) -> bool {
    match loaded_key {
        Err(e) => r matches Err(m) && m@ == e,
        Ok(None) => r matches Err(m) && m@ == "Saved destination is missing its keychain stream key."@,
        Ok(Some(k)) => match normalize_server_url_spec(saved_server_url) {
            Err(e) => r matches Err(m) && m@ == e,
            Ok(u) => r matches Ok(d) && resolved_from(d, destination, saved_label, u, k),
        },
    }
}

/// A destination completed from a saved one, given what the secret store
/// returned for its key.
pub fn apply_saved_destination(
    destination: DestinationConfig,
    saved_label: &str,
    saved_server_url: &str,
    loaded_key: Result<Option<String>, String>,
) -> (r: Result<DestinationConfig, String>)
    ensures
        applied_outcome(destination, saved_label@, saved_server_url@, lookup_view(loaded_key), r),
{
    let key = match loaded_key {
        Err(e) => {
            return Err(e);
        },
        Ok(None) => {
            return Err(String::from_str("Saved destination is missing its keychain stream key."));
        },
        Ok(Some(k)) => k,
    };
    let url = match normalize_server_url(saved_server_url) {
        Ok(u) => u,
        Err(e) => {
            return Err(e);
        },
    };
    let mut d = destination;
    d.label = saved_label.to_string();
    d.rtmp_url = Some(url);
    d.stream_key = Some(key);
    if d.kind == DestinationKind::ManualRtmp {
        d.kind = DestinationKind::YoutubeRtmps;
    }
    Ok(d)
}

/// What resolving `destination` at time `now` does: `old_rs` are the
/// records before, `new_rs` after, `r` the result.
pub open spec fn resolve_outcome<S: SecretStore>(
    old_rs: Seq<RecView>,
    new_rs: Seq<RecView>,
    s: &S,
    destination: DestinationConfig,
    now: u64,
    r: Result<DestinationConfig, String>,
) -> bool {
        match destination.manual_destination_id {
            None => r == Ok::<DestinationConfig, String>(destination) && new_rs == old_rs,
            Some(id) => match find_record(old_rs, id@) {
                None => r matches Err(m) && m@ == "Saved destination was not found."@ && new_rs == old_rs,
                Some(i) => {
                    let rec = old_rs[i];
                    &&& exists|la: Result<Option<Seq<char>>, Seq<char>>|
                        #[trigger] load_answer(s, id@, la) && applied_outcome(destination, rec.1, rec.3, la, r)
                    &&& r matches Err(_) ==> new_rs == old_rs
                    &&& r matches Ok(d) ==> {
                        &&& normalize_server_url_spec(rec.3) matches Ok(u) && d.stream_key matches Some(
                            k,
                        ) && resolved_from(d, destination, rec.1, u, k@)
                        &&& new_rs == old_rs.update(i, stamped(rec, now))
                    }
                },
            },
        }
}

/// A session destination that names a saved destination, completed with the
/// saved label, server URL and stream key; the saved destination is marked
/// used at `now`. A destination that names none is returned as it is.
pub fn resolve_manual_destination_at<S: SecretStore>(
    store: &mut ManualDestinationStore,
    secret_store: &S,
    destination: DestinationConfig,
    now: u64,
) -> (r: Result<DestinationConfig, String>)
    ensures
        resolve_outcome(
            records(old(store).destinations@),
            records(final(store).destinations@),
            secret_store,
            destination,
            now,
            r,
        ),
{
    let id = match &destination.manual_destination_id {
        None => {
            return Ok(destination);
        },
        Some(id) => id.clone(),
    };
    let saved = match find_destination(store, id.as_str()) {
        Some(d) => d,
        None => {
            return Err(String::from_str("Saved destination was not found."));
        },
    };
    let loaded = load_key(secret_store, id.as_str());
    let ghost answer = lookup_view(loaded);
    let resolved = apply_saved_destination(
        destination,
        saved.label.as_str(),
        saved.server_url.as_str(),
        loaded,
    );
    match resolved {
        Ok(d) => {
            let _ = mark_destination_used_at(store, id.as_str(), now);
            Ok(d)
        },
        Err(e) => Err(e),
    }
}

/// Resolves a session destination, marking the saved one used now (see
/// `resolve_manual_destination_at`).
pub fn resolve_manual_destination<S: SecretStore>(
    store: &mut ManualDestinationStore,
    secret_store: &S,
    destination: DestinationConfig,
) -> (r: Result<DestinationConfig, String>)
    ensures
        exists|now: u64|
            #[trigger] resolve_outcome(
                records(old(store).destinations@),
                records(final(store).destinations@),
                secret_store,
                destination,
                now,
                r,
            ),
{
    let now = crate::ffmpeg::now_millis();
    resolve_manual_destination_at(store, secret_store, destination, now)
}

} // verus!
